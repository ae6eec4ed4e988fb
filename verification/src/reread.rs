//! What holds of an update of the interface, for every text: the name that
//! was written is the one that is read, each key that was missing is there
//! once with its default, every other line stays where it was, and a second
//! update changes nothing but the name.

use crate::config::{
    addrs_key, addrs_line, config_of, countries_key, countries_line, iface_key, iface_line, key_of,
    parsed, ports_key, ports_line, value_or,
};
use crate::text::{
    is_space, join_with, lemma_lines_are_single, lemma_lines_of_join, lemma_trimmed_strip_cr,
    lines_of, single_line, strip_cr, strip_end, strip_start, trimmed, Strip,
};
use crate::update::{
    completed, count_keys, is_known_key, is_name, key_slot, lemma_key_slot, updated_lines,
    updated_text, with_default, with_iface, with_pair,
};
use vstd::prelude::*;

verus! {

/// A string that neither begins nor ends with white space is its own
/// trimmed form.
pub proof fn lemma_trimmed_of_tight(s: Seq<char>)
    requires
        s.len() > 0 ==> !is_space(s[0]) && !is_space(s.last()),
    ensures
        trimmed(s) == s,
{
}

/// A key between double quotes, on a line of its own, names that key.
pub proof fn lemma_key_of_quoted(key: Seq<char>)
    requires
        key.len() > 0,
        key[0] != '"',
        key.last() != '"',
        !is_space(key[0]),
        !is_space(key.last()),
    ensures
        trimmed(seq!['"'] + key + seq!['"']) == seq!['"'] + key + seq!['"'],
        key_of(seq!['"'] + key + seq!['"']) == key,
{
    let line = seq!['"'] + key + seq!['"'];
    lemma_trimmed_of_tight(line);
    let open = seq!['"'] + key;
    assert(line.drop_last() == open);
    assert(strip_end(open, Strip::Char('"')) == open);
    assert(open.drop_first() == key);
    assert(strip_start(open, Strip::Char('"')) == strip_start(key, Strip::Char('"')));
}

/// The four key lines are the four keys between double quotes. Each is on
/// one line, is its own trimmed form and names its key, and no two keys
/// have the same length.
pub proof fn lemma_key_lines()
    ensures
        iface_line() == seq!['"'] + iface_key() + seq!['"'],
        ports_line() == seq!['"'] + ports_key() + seq!['"'],
        addrs_line() == seq!['"'] + addrs_key() + seq!['"'],
        countries_line() == seq!['"'] + countries_key() + seq!['"'],
        single_line(iface_line()),
        single_line(ports_line()),
        single_line(addrs_line()),
        single_line(countries_line()),
        trimmed(iface_line()) == iface_line(),
        trimmed(ports_line()) == ports_line(),
        trimmed(addrs_line()) == addrs_line(),
        trimmed(countries_line()) == countries_line(),
        key_of(iface_line()) == iface_key(),
        key_of(ports_line()) == ports_key(),
        key_of(addrs_line()) == addrs_key(),
        key_of(countries_line()) == countries_key(),
        iface_key().len() == 5,
        ports_key().len() == 13,
        addrs_key().len() == 11,
        countries_key().len() == 17,
{
    reveal_strlit("iface");
    reveal_strlit("allowed-ports");
    reveal_strlit("blocked-ips");
    reveal_strlit("blocked-countries");
    reveal_strlit("\"iface\"");
    reveal_strlit("\"allowed-ports\"");
    reveal_strlit("\"blocked-ips\"");
    reveal_strlit("\"blocked-countries\"");
    assert(iface_line() =~= seq!['"'] + iface_key() + seq!['"']);
    assert(ports_line() =~= seq!['"'] + ports_key() + seq!['"']);
    assert(addrs_line() =~= seq!['"'] + addrs_key() + seq!['"']);
    assert(countries_line() =~= seq!['"'] + countries_key() + seq!['"']);
    lemma_key_of_quoted(iface_key());
    lemma_key_of_quoted(ports_key());
    lemma_key_of_quoted(addrs_key());
    lemma_key_of_quoted(countries_key());
}

/// Lines that agree once trimmed say the same.
pub proof fn lemma_parsed_same(one: Seq<Seq<char>>, other: Seq<Seq<char>>, pairs: nat)
    requires
        2 * pairs <= one.len(),
        2 * pairs <= other.len(),
        forall|i: int| 0 <= i < 2 * pairs ==> trimmed(#[trigger] one[i]) == trimmed(other[i]),
    ensures
        parsed(one, pairs) == parsed(other, pairs),
    decreases pairs,
{
    if pairs > 0 {
        lemma_parsed_same(one, other, (pairs - 1) as nat);
    }
}

/// A pair whose key no later pair names gives that key its value.
pub proof fn lemma_parsed_last_wins(all: Seq<Seq<char>>, pairs: nat, pair: int)
    requires
        0 <= pair < pairs,
        2 * pairs <= all.len(),
        forall|later: int|
            pair < later < pairs ==> key_of(#[trigger] all[2 * later]) != key_of(all[2 * pair]),
    ensures
        parsed(all, pairs).contains_key(key_of(all[2 * pair])),
        parsed(all, pairs)[key_of(all[2 * pair])] == trimmed(all[2 * pair + 1]),
    decreases pairs,
{
    if pair + 1 < pairs {
        lemma_parsed_last_wins(all, (pairs - 1) as nat, pair);
    }
}

/// A key and its value, written on lines without line feeds at an even
/// index, are read again as that key's value, provided the value is not
/// empty and no later even-indexed line names the key.
pub proof fn lemma_pair_is_read(all: Seq<Seq<char>>, slot: int)
    requires
        forall|i: int| 0 <= i < all.len() ==> single_line(#[trigger] all[i]),
        0 <= slot,
        slot % 2 == 0,
        slot + 1 < all.len(),
        all[slot + 1].len() > 0,
        forall|j: int|
            slot < j < all.len() && j % 2 == 0 ==> key_of(#[trigger] all[j]) != key_of(all[slot]),
    ensures
        config_of(join_with(all, "\n"@)).contains_key(key_of(all[slot])),
        config_of(join_with(all, "\n"@))[key_of(all[slot])] == trimmed(all[slot + 1]),
{
    reveal_strlit("\n");
    assert("\n"@ == seq!['\n']);
    lemma_lines_of_join(all);
    let read = lines_of(join_with(all, "\n"@));
    let pairs = (read.len() / 2) as nat;
    assert forall|i: int| 0 <= i < 2 * pairs implies trimmed(#[trigger] read[i]) == trimmed(
        all[i],
    ) by {
        lemma_trimmed_strip_cr(all[i]);
    }
    lemma_parsed_same(read, all, pairs);
    let pair = slot / 2;
    lemma_parsed_last_wins(all, pairs, pair);
}

/// Where every pair that names a key has one value, the key has that value
/// or none.
pub proof fn lemma_parsed_values(
    all: Seq<Seq<char>>,
    pairs: nat,
    key: Seq<char>,
    value: Seq<char>,
)
    requires
        2 * pairs <= all.len(),
        forall|p: int|
            0 <= p < pairs && key_of(#[trigger] all[2 * p]) == key ==> trimmed(all[2 * p + 1])
                == value,
    ensures
        parsed(all, pairs).contains_key(key) ==> parsed(all, pairs)[key] == value,
    decreases pairs,
{
    if pairs > 0 {
        lemma_parsed_values(all, (pairs - 1) as nat, key, value);
        let last = pairs - 1;
        if key_of(all[2 * last]) == key {
            assert(trimmed(all[2 * last + 1]) == value);
        }
    }
}

/// True when `slot` is where the value of `key` is read from: a key line
/// that names the key, with a line after it, and with no key line after it
/// that names the key again.
pub open spec fn reads_from(all: Seq<Seq<char>>, key: Seq<char>, slot: int) -> bool {
    &&& 0 <= slot
    &&& slot % 2 == 0
    &&& slot + 1 < all.len()
    &&& key_of(all[slot]) == key
    &&& forall|j: int| slot < j < all.len() && j % 2 == 0 ==> key_of(#[trigger] all[j]) != key
}

/// The index of the key line under which an update writes the interface:
/// the last key line that names it, or the one that is added.
pub open spec fn iface_slot(all: Seq<Seq<char>>) -> int {
    match key_slot(all, iface_key()) {
        Some(at) => at,
        None => completed(all).len() as int,
    }
}

/// A pair is added after an even number of lines, and every line before it
/// stays where it was.
pub proof fn lemma_with_pair(all: Seq<Seq<char>>, key_line: Seq<char>, value: Seq<char>)
    ensures
        completed(all).len() % 2 == 0,
        all.len() <= completed(all).len() <= all.len() + 1,
        with_pair(all, key_line, value).len() == completed(all).len() + 2,
        forall|i: int| 0 <= i < all.len() ==> #[trigger] with_pair(all, key_line, value)[i] == all[i],
        all.len() < completed(all).len() ==> with_pair(all, key_line, value)[all.len() as int]
            == ""@,
        with_pair(all, key_line, value)[completed(all).len() as int] == key_line,
        with_pair(all, key_line, value)[completed(all).len() as int + 1] == value,
{
}

/// Setting the interface leaves it where it is read from.
pub proof fn lemma_with_iface(all: Seq<Seq<char>>, iface: Seq<char>)
    ensures
        reads_from(with_iface(all, iface), iface_key(), iface_slot(all)),
        with_iface(all, iface)[iface_slot(all) + 1] == iface,
        all.len() <= with_iface(all, iface).len(),
        forall|i: int|
            0 <= i < all.len() && i != iface_slot(all) + 1 ==> #[trigger] with_iface(all, iface)[i]
                == all[i],
{
    lemma_key_slot(all, iface_key());
    lemma_key_lines();
    lemma_with_pair(all, iface_line(), iface);
    let out = with_iface(all, iface);
    let slot = iface_slot(all);
    assert forall|j: int| slot < j < out.len() && j % 2 == 0 implies key_of(#[trigger] out[j])
        != iface_key() by {
        if j < all.len() {
            assert(out[j] == all[j]);
        }
    }
}

/// Making sure of a key leaves the value of another key where it is read
/// from, and keeps every line where it was.
pub proof fn lemma_with_default_keeps(
    all: Seq<Seq<char>>,
    key: Seq<char>,
    key_line: Seq<char>,
    value: Seq<char>,
    other: Seq<char>,
    slot: int,
)
    requires
        key_of(key_line) != other,
        reads_from(all, other, slot),
    ensures
        reads_from(with_default(all, key, key_line, value), other, slot),
        with_default(all, key, key_line, value)[slot + 1] == all[slot + 1],
{
    lemma_with_pair(all, key_line, value);
    let out = with_default(all, key, key_line, value);
    assert(out[slot] == all[slot]);
    assert forall|j: int| slot < j < out.len() && j % 2 == 0 implies key_of(#[trigger] out[j])
        != other by {
        if j < all.len() {
            assert(out[j] == all[j]);
        }
    }
}

/// Making sure of a key keeps every line where it was.
pub proof fn lemma_with_default_extends(
    all: Seq<Seq<char>>,
    key: Seq<char>,
    key_line: Seq<char>,
    value: Seq<char>,
)
    ensures
        all.len() <= with_default(all, key, key_line, value).len(),
        forall|i: int|
            0 <= i < all.len() ==> #[trigger] with_default(all, key, key_line, value)[i] == all[i],
        forall|i: int|
            all.len() <= i < with_default(all, key, key_line, value).len() ==> {
                ||| #[trigger] with_default(all, key, key_line, value)[i] == ""@
                ||| with_default(all, key, key_line, value)[i] == key_line
                ||| with_default(all, key, key_line, value)[i] == value
            },
{
    lemma_with_pair(all, key_line, value);
}

/// An update leaves the interface where it is read from.
pub proof fn lemma_updated_slot(all: Seq<Seq<char>>, iface: Seq<char>)
    ensures
        reads_from(updated_lines(all, iface), iface_key(), iface_slot(all)),
        updated_lines(all, iface)[iface_slot(all) + 1] == iface,
{
    lemma_key_lines();
    lemma_with_iface(all, iface);
    let slot = iface_slot(all);
    let base = with_iface(all, iface);
    let one = with_default(base, ports_key(), ports_line(), "80, 443"@);
    let two = with_default(one, addrs_key(), addrs_line(), ""@);
    lemma_with_default_keeps(base, ports_key(), ports_line(), "80, 443"@, iface_key(), slot);
    lemma_with_default_keeps(one, addrs_key(), addrs_line(), ""@, iface_key(), slot);
    lemma_with_default_keeps(two, countries_key(), countries_line(), ""@, iface_key(), slot);
}

/// An update keeps every line where it was, but for the value under the
/// interface's key.
pub proof fn lemma_update_keeps_lines(all: Seq<Seq<char>>, iface: Seq<char>)
    ensures
        all.len() <= updated_lines(all, iface).len(),
        forall|i: int|
            0 <= i < all.len() && i != iface_slot(all) + 1 ==> #[trigger] updated_lines(
                all,
                iface,
            )[i] == all[i],
{
    lemma_with_iface(all, iface);
    let base = with_iface(all, iface);
    let one = with_default(base, ports_key(), ports_line(), "80, 443"@);
    let two = with_default(one, addrs_key(), addrs_line(), ""@);
    let out = with_default(two, countries_key(), countries_line(), ""@);
    lemma_with_default_extends(base, ports_key(), ports_line(), "80, 443"@);
    lemma_with_default_extends(one, addrs_key(), addrs_line(), ""@);
    lemma_with_default_extends(two, countries_key(), countries_line(), ""@);
    assert forall|i: int| 0 <= i < all.len() && i != iface_slot(all) + 1 implies #[trigger] out[i]
        == all[i] by {
        assert(out[i] == two[i]);
        assert(two[i] == one[i]);
        assert(one[i] == base[i]);
    }
}

/// The lines of an updated text are on one line each when the interface is.
pub proof fn lemma_updated_lines_single(all: Seq<Seq<char>>, iface: Seq<char>)
    requires
        single_line(iface),
        forall|i: int| 0 <= i < all.len() ==> single_line(#[trigger] all[i]),
    ensures
        updated_lines(all, iface).len() >= 2,
        forall|i: int|
            0 <= i < updated_lines(all, iface).len() ==> single_line(
                #[trigger] updated_lines(all, iface)[i],
            ),
{
    lemma_key_lines();
    lemma_key_slot(all, iface_key());
    lemma_with_pair(all, iface_line(), iface);
    reveal_strlit("80, 443");
    reveal_strlit("");
    let base = with_iface(all, iface);
    let one = with_default(base, ports_key(), ports_line(), "80, 443"@);
    let two = with_default(one, addrs_key(), addrs_line(), ""@);
    let out = with_default(two, countries_key(), countries_line(), ""@);
    lemma_with_default_extends(base, ports_key(), ports_line(), "80, 443"@);
    lemma_with_default_extends(one, addrs_key(), addrs_line(), ""@);
    lemma_with_default_extends(two, countries_key(), countries_line(), ""@);
    assert forall|i: int| 0 <= i < base.len() implies single_line(#[trigger] base[i]) by {
        if i < all.len() && base[i] == all[i] {
            assert(single_line(all[i]));
        }
    }
    assert forall|i: int| 0 <= i < one.len() implies single_line(#[trigger] one[i]) by {
        if i < base.len() {
            assert(one[i] == base[i]);
        }
    }
    assert forall|i: int| 0 <= i < two.len() implies single_line(#[trigger] two[i]) by {
        if i < one.len() {
            assert(two[i] == one[i]);
        }
    }
    assert forall|i: int| 0 <= i < out.len() implies single_line(#[trigger] out[i]) by {
        if i < two.len() {
            assert(out[i] == two[i]);
        }
    }
}

/// Writing an interface and reading the file gives that interface, for
/// every text and every name.
pub proof fn lemma_update_then_read(text: Seq<char>, iface: Seq<char>)
    requires
        is_name(iface),
    ensures
        config_of(updated_text(text, iface)).contains_key(iface_key()),
        config_of(updated_text(text, iface))[iface_key()] == iface,
{
    let all = lines_of(text);
    lemma_lines_are_single(text);
    lemma_updated_lines_single(all, iface);
    lemma_updated_slot(all, iface);
    lemma_pair_is_read(updated_lines(all, iface), iface_slot(all));
}

/// A key has a key line exactly where its count is not zero.
pub proof fn lemma_count_zero(all: Seq<Seq<char>>, key: Seq<char>)
    ensures
        count_keys(all, key) > 0 <==> key_slot(all, key) is Some,
    decreases all.len(),
{
    if all.len() > 0 {
        lemma_count_zero(all.drop_last(), key);
    }
}

/// One more line counts where it stands at an even index and names the key.
pub proof fn lemma_count_push(all: Seq<Seq<char>>, line: Seq<char>, key: Seq<char>)
    ensures
        count_keys(all.push(line), key) == count_keys(all, key) + if all.len() % 2 == 0 && key_of(
            line,
        ) == key {
            1nat
        } else {
            0nat
        },
{
    assert(all.push(line).drop_last() == all);
}

/// Replacing a value, a line at an odd index, changes no count.
pub proof fn lemma_count_update(all: Seq<Seq<char>>, at: int, line: Seq<char>, key: Seq<char>)
    requires
        0 <= at < all.len(),
        at % 2 == 1,
    ensures
        count_keys(all.update(at, line), key) == count_keys(all, key),
    decreases all.len(),
{
    let changed = all.update(at, line);
    if at == all.len() - 1 {
        assert(changed.drop_last() == all.drop_last());
    } else {
        assert(changed.drop_last() == all.drop_last().update(at, line));
        lemma_count_update(all.drop_last(), at, line, key);
    }
}

/// Lines that agree once trimmed hold the same number of key lines.
pub proof fn lemma_count_same(one: Seq<Seq<char>>, other: Seq<Seq<char>>, key: Seq<char>)
    requires
        one.len() == other.len(),
        forall|i: int| 0 <= i < one.len() ==> trimmed(#[trigger] one[i]) == trimmed(other[i]),
    ensures
        count_keys(one, key) == count_keys(other, key),
    decreases one.len(),
{
    if one.len() > 0 {
        let a = one.drop_last();
        let b = other.drop_last();
        assert forall|i: int| 0 <= i < a.len() implies trimmed(#[trigger] a[i]) == trimmed(b[i]) by {
            assert(a[i] == one[i]);
            assert(b[i] == other[i]);
        }
        lemma_count_same(a, b, key);
        assert(trimmed(one[one.len() - 1]) == trimmed(other[one.len() - 1]));
    }
}

/// Writing lines out and reading them again keeps the number of key lines
/// of each of the four keys.
pub proof fn lemma_count_read_again(all: Seq<Seq<char>>, key: Seq<char>)
    requires
        all.len() > 0,
        is_known_key(key),
        forall|i: int| 0 <= i < all.len() ==> single_line(#[trigger] all[i]),
    ensures
        count_keys(lines_of(join_with(all, "\n"@)), key) == count_keys(all, key),
{
    lemma_key_lines();
    reveal_strlit("\n");
    assert("\n"@ == seq!['\n']);
    lemma_lines_of_join(all);
    let read = lines_of(join_with(all, "\n"@));
    let kept = if all.last().len() == 0 {
        all.drop_last()
    } else {
        all
    };
    assert forall|i: int| 0 <= i < read.len() implies trimmed(#[trigger] read[i]) == trimmed(
        kept[i],
    ) by {
        lemma_trimmed_strip_cr(all[i]);
    }
    lemma_count_same(read, kept, key);
    if all.last().len() == 0 {
        assert(key_of(all.last()) == all.last());
    }
}

/// A pair that is added counts for the key that its key line names.
pub proof fn lemma_count_with_pair(
    all: Seq<Seq<char>>,
    key_line: Seq<char>,
    value: Seq<char>,
    key: Seq<char>,
)
    ensures
        count_keys(with_pair(all, key_line, value), key) == count_keys(all, key) + if key_of(
            key_line,
        ) == key {
            1nat
        } else {
            0nat
        },
{
    lemma_count_push(all, ""@, key);
    lemma_count_push(completed(all), key_line, key);
    lemma_count_push(completed(all).push(key_line), value, key);
}

/// Setting the interface adds a key line for it where there was none, and
/// changes no count otherwise.
pub proof fn lemma_count_with_iface(all: Seq<Seq<char>>, iface: Seq<char>, key: Seq<char>)
    ensures
        count_keys(with_iface(all, iface), key) == if key == iface_key() && count_keys(all, key)
            == 0 {
            1nat
        } else {
            count_keys(all, key)
        },
{
    lemma_key_lines();
    lemma_key_slot(all, iface_key());
    lemma_count_zero(all, iface_key());
    match key_slot(all, iface_key()) {
        Some(at) => {
            if at + 1 < all.len() {
                lemma_count_update(all, at + 1, iface, key);
            } else {
                lemma_count_push(all, iface, key);
            }
        },
        None => {
            lemma_count_with_pair(all, iface_line(), iface, key);
        },
    }
}

/// Making sure of a key adds a key line for it where there was none, and
/// changes no count otherwise.
pub proof fn lemma_count_with_default(
    all: Seq<Seq<char>>,
    added: Seq<char>,
    key_line: Seq<char>,
    value: Seq<char>,
    key: Seq<char>,
)
    requires
        key_of(key_line) == added,
    ensures
        count_keys(with_default(all, added, key_line, value), key) == if key == added
            && count_keys(all, key) == 0 {
            1nat
        } else {
            count_keys(all, key)
        },
{
    lemma_count_zero(all, added);
    lemma_count_with_pair(all, key_line, value, key);
}

/// An update adds a key only where it is missing: a key that no key line
/// names has one key line afterwards, and any other key has as many as
/// before.
pub proof fn lemma_update_adds_only_missing(all: Seq<Seq<char>>, iface: Seq<char>, key: Seq<char>)
    requires
        is_known_key(key),
    ensures
        count_keys(updated_lines(all, iface), key) == if count_keys(all, key) == 0 {
            1nat
        } else {
            count_keys(all, key)
        },
{
    lemma_key_lines();
    let base = with_iface(all, iface);
    let one = with_default(base, ports_key(), ports_line(), "80, 443"@);
    let two = with_default(one, addrs_key(), addrs_line(), ""@);
    lemma_count_with_iface(all, iface, key);
    lemma_count_with_default(base, ports_key(), ports_line(), "80, 443"@, key);
    lemma_count_with_default(one, addrs_key(), addrs_line(), ""@, key);
    lemma_count_with_default(two, countries_key(), countries_line(), ""@, key);
}

/// When an updated text is read again, each of the four keys has one key
/// line where the text had none, and as many as the text had otherwise.
pub proof fn lemma_update_backfills(text: Seq<char>, iface: Seq<char>, key: Seq<char>)
    requires
        single_line(iface),
        is_known_key(key),
    ensures
        count_keys(lines_of(updated_text(text, iface)), key) == if count_keys(lines_of(text), key)
            == 0 {
            1nat
        } else {
            count_keys(lines_of(text), key)
        },
{
    let all = lines_of(text);
    lemma_lines_are_single(text);
    lemma_updated_lines_single(all, iface);
    lemma_update_adds_only_missing(all, iface, key);
    lemma_count_read_again(updated_lines(all, iface), key);
}

/// A string has at least as many characters as what is left of it when
/// characters are stripped from its ends.
pub proof fn lemma_strip_len(s: Seq<char>, what: Strip)
    ensures
        strip_start(s, what).len() <= s.len(),
        strip_end(s, what).len() <= s.len(),
    decreases s.len(),
{
    if s.len() > 0 {
        lemma_strip_len(s.drop_first(), what);
        lemma_strip_len(s.drop_last(), what);
    }
}

/// A name does not end with a carriage return.
pub proof fn lemma_name_has_no_cr(name: Seq<char>)
    requires
        is_name(name),
    ensures
        strip_cr(name) == name,
{
    if name.last() == '\r' {
        assert(is_space(name.last()));
        lemma_strip_len(name.drop_last(), Strip::Space);
        lemma_strip_len(strip_end(name, Strip::Space), Strip::Space);
    }
}

/// When an updated text is read again, the last key line that names the
/// interface has the name right after it.
pub proof fn lemma_read_after_update(text: Seq<char>, iface: Seq<char>)
    requires
        is_name(iface),
    ensures
        key_slot(lines_of(updated_text(text, iface)), iface_key()) == Some(
            iface_slot(lines_of(text)),
        ),
        0 <= iface_slot(lines_of(text)),
        iface_slot(lines_of(text)) % 2 == 0,
        iface_slot(lines_of(text)) + 1 < lines_of(updated_text(text, iface)).len(),
        lines_of(updated_text(text, iface))[iface_slot(lines_of(text)) + 1] == iface,
{
    let all = lines_of(text);
    let out = updated_lines(all, iface);
    let read = lines_of(updated_text(text, iface));
    let slot = iface_slot(all);
    lemma_lines_are_single(text);
    lemma_updated_lines_single(all, iface);
    lemma_updated_slot(all, iface);
    lemma_name_has_no_cr(iface);
    reveal_strlit("\n");
    assert("\n"@ == seq!['\n']);
    lemma_lines_of_join(out);
    assert(slot + 2 <= read.len());
    assert forall|i: int| 0 <= i < read.len() implies key_of(#[trigger] read[i]) == key_of(
        out[i],
    ) by {
        lemma_trimmed_strip_cr(out[i]);
    }
    assert(key_of(read[slot]) == iface_key());
    lemma_key_slot(read, iface_key());
    match key_slot(read, iface_key()) {
        Some(at) => {
            if at > slot {
                assert(key_of(read[at]) == key_of(out[at]));
            }
            if at < slot {
                assert(key_of(read[slot]) == iface_key());
            }
        },
        None => {
            assert(key_of(read[slot]) == iface_key());
        },
    }
}

/// A second update writes the lines that it read, with nothing changed but
/// the value under the interface's key: no key is added again, and with the
/// same name the lines stay as they are.
pub proof fn lemma_repeated_update(text: Seq<char>, first: Seq<char>, second: Seq<char>)
    requires
        is_name(first),
    ensures
        updated_lines(lines_of(updated_text(text, first)), second) == lines_of(
            updated_text(text, first),
        ).update(iface_slot(lines_of(text)) + 1, second),
        second == first ==> updated_lines(lines_of(updated_text(text, first)), second) == lines_of(
            updated_text(text, first),
        ),
        second == first ==> updated_text(updated_text(text, first), second) == join_with(
            lines_of(updated_text(text, first)),
            "\n"@,
        ),
{
    let once = updated_text(text, first);
    let read = lines_of(once);
    let slot = iface_slot(lines_of(text));
    lemma_read_after_update(text, first);
    lemma_key_lines();
    let base = with_iface(read, second);
    assert(base == read.update(slot + 1, second));
    lemma_update_backfills(text, first, ports_key());
    lemma_update_backfills(text, first, addrs_key());
    lemma_update_backfills(text, first, countries_key());
    lemma_count_update(read, slot + 1, second, ports_key());
    lemma_count_update(read, slot + 1, second, addrs_key());
    lemma_count_update(read, slot + 1, second, countries_key());
    lemma_count_zero(base, ports_key());
    lemma_count_zero(base, addrs_key());
    lemma_count_zero(base, countries_key());
    if second == first {
        assert(read.update(slot + 1, second) == read);
    }
}

/// A second update leaves the number of key lines of each of the four keys
/// as the first update left it.
pub proof fn lemma_repeated_update_keeps_counts(
    text: Seq<char>,
    first: Seq<char>,
    second: Seq<char>,
    key: Seq<char>,
)
    requires
        single_line(first),
        single_line(second),
        is_known_key(key),
    ensures
        count_keys(lines_of(updated_text(updated_text(text, first), second)), key) == count_keys(
            lines_of(updated_text(text, first)),
            key,
        ),
{
    lemma_update_backfills(text, first, key);
    lemma_update_backfills(updated_text(text, first), second, key);
}

/// Where an update adds the ports, reading the file gives their default,
/// `80, 443`.
pub proof fn lemma_default_ports_are_read(text: Seq<char>, iface: Seq<char>)
    requires
        single_line(iface),
        key_slot(lines_of(text), ports_key()) is None,
    ensures
        config_of(updated_text(text, iface)).contains_key(ports_key()),
        config_of(updated_text(text, iface))[ports_key()] == "80, 443"@,
{
    let all = lines_of(text);
    let base = with_iface(all, iface);
    let one = with_default(base, ports_key(), ports_line(), "80, 443"@);
    let two = with_default(one, addrs_key(), addrs_line(), ""@);
    let out = with_default(two, countries_key(), countries_line(), ""@);
    lemma_key_lines();
    lemma_lines_are_single(text);
    lemma_updated_lines_single(all, iface);
    lemma_count_zero(all, ports_key());
    lemma_count_with_iface(all, iface, ports_key());
    lemma_count_zero(base, ports_key());
    lemma_with_pair(base, ports_line(), "80, 443"@);
    let slot = completed(base).len() as int;
    assert(reads_from(one, ports_key(), slot));
    lemma_with_default_keeps(one, addrs_key(), addrs_line(), ""@, ports_key(), slot);
    lemma_with_default_keeps(two, countries_key(), countries_line(), ""@, ports_key(), slot);
    reveal_strlit("80, 443");
    lemma_trimmed_of_tight("80, 443"@);
    lemma_pair_is_read(out, slot);
}

/// Where a block list has no key line, the only key line that names it
/// after an update is the one that is added, and its value is empty.
pub proof fn lemma_added_list_is_empty(all: Seq<Seq<char>>, iface: Seq<char>, key: Seq<char>)
    requires
        key == addrs_key() || key == countries_key(),
        key_slot(all, key) is None,
    ensures
        forall|j: int|
            0 <= j < updated_lines(all, iface).len() && j % 2 == 0 && key_of(
                #[trigger] updated_lines(all, iface)[j],
            ) == key ==> j + 1 < updated_lines(all, iface).len() && updated_lines(all, iface)[j
                + 1] == ""@,
{
    let base = with_iface(all, iface);
    let one = with_default(base, ports_key(), ports_line(), "80, 443"@);
    let two = with_default(one, addrs_key(), addrs_line(), ""@);
    let out = with_default(two, countries_key(), countries_line(), ""@);
    lemma_key_lines();
    // Neither the interface nor the ports give the list a key line.
    lemma_count_zero(all, key);
    lemma_count_with_iface(all, iface, key);
    lemma_count_with_default(base, ports_key(), ports_line(), "80, 443"@, key);
    lemma_count_zero(one, key);
    lemma_key_slot(one, key);
    // The two block lists are added in turn, each where it is missing.
    lemma_with_pair(one, addrs_line(), ""@);
    lemma_count_with_default(one, addrs_key(), addrs_line(), ""@, key);
    lemma_count_zero(two, key);
    lemma_key_slot(two, key);
    lemma_with_pair(two, countries_line(), ""@);
    assert forall|j: int|
        0 <= j < out.len() && j % 2 == 0 && key_of(#[trigger] out[j]) == key implies j + 1
        < out.len() && out[j + 1] == ""@ by {
        if j < one.len() {
            assert(out[j] == two[j]);
            assert(two[j] == one[j]);
        } else if j < two.len() {
            assert(out[j] == two[j]);
            assert(out[j + 1] == two[j + 1]);
        }
    }
}

/// Where every key line that names a key has one value after it, reading
/// the lines again gives the key that value or none.
pub proof fn lemma_values_are_read(all: Seq<Seq<char>>, key: Seq<char>, value: Seq<char>)
    requires
        all.len() > 0,
        forall|i: int| 0 <= i < all.len() ==> single_line(#[trigger] all[i]),
        forall|j: int|
            0 <= j < all.len() && j % 2 == 0 && key_of(#[trigger] all[j]) == key ==> j + 1
                < all.len() && trimmed(all[j + 1]) == value,
    ensures
        config_of(join_with(all, "\n"@)).contains_key(key) ==> config_of(join_with(all, "\n"@))[key]
            == value,
{
    reveal_strlit("\n");
    assert("\n"@ == seq!['\n']);
    lemma_lines_of_join(all);
    let read = lines_of(join_with(all, "\n"@));
    let pairs = (read.len() / 2) as nat;
    assert forall|i: int| 0 <= i < read.len() implies trimmed(#[trigger] read[i]) == trimmed(
        all[i],
    ) by {
        lemma_trimmed_strip_cr(all[i]);
    }
    lemma_parsed_same(read, all, pairs);
    assert forall|p: int| 0 <= p < pairs && key_of(#[trigger] all[2 * p]) == key implies trimmed(
        all[2 * p + 1],
    ) == value by {
        let j = 2 * p;
        assert(key_of(all[j]) == key);
    }
    lemma_parsed_values(all, pairs, key, value);
}

/// Where an update adds a block list, reading the file gives an empty list
/// for it.
pub proof fn lemma_default_block_list_is_read(text: Seq<char>, iface: Seq<char>, key: Seq<char>)
    requires
        single_line(iface),
        key == addrs_key() || key == countries_key(),
        key_slot(lines_of(text), key) is None,
    ensures
        value_or(config_of(updated_text(text, iface)), key, ""@) == ""@,
{
    let all = lines_of(text);
    let out = updated_lines(all, iface);
    lemma_lines_are_single(text);
    lemma_updated_lines_single(all, iface);
    lemma_added_list_is_empty(all, iface, key);
    reveal_strlit("");
    assert forall|j: int|
        0 <= j < out.len() && j % 2 == 0 && key_of(#[trigger] out[j]) == key implies j + 1
        < out.len() && trimmed(out[j + 1]) == ""@ by {
        assert(out[j + 1] == ""@);
    }
    lemma_values_are_read(out, key, ""@);
}

} // verus!
