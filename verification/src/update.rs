//! Setting the interface in a configuration text.
//!
//! The file is read two lines at a time, a key and its value, so keys
//! stand at the even line indices. An update looks for keys there, as the
//! reader does. It writes the interface under the last key line that names
//! it, or adds key and value where none does, and then adds each list key
//! that is missing, with its default. Before a pair is added, a last key
//! line without a value gets an empty one, so that what is added stands
//! where it is read.

use crate::config::{
    addrs_key, addrs_line, config_of, countries_key, countries_line, iface_key, iface_line, key_of,
    ports_key, ports_line,
};
use crate::reread::{lemma_update_backfills, lemma_update_then_read};
use crate::text::{
    join, join_with, lines, lines_of, single_line, str_equal, trim, trim_matches, trimmed, views,
};
use vstd::prelude::*;

verus! {

/// True for an interface name as the tool stores it: not empty, on one
/// line, and without white space around it.
pub open spec fn is_name(name: Seq<char>) -> bool {
    &&& name.len() > 0
    &&& single_line(name)
    &&& trimmed(name) == name
}

/// The index of the last key line that names `key`: the greatest even index
/// whose line names it, if there is one.
pub open spec fn key_slot(all: Seq<Seq<char>>, key: Seq<char>) -> Option<int>
    decreases all.len(),
{
    if all.len() == 0 {
        None
    } else if (all.len() - 1) % 2 == 0 && key_of(all.last()) == key {
        Some(all.len() - 1)
    } else {
        key_slot(all.drop_last(), key)
    }
}

/// `key_slot` is an even index whose line names the key, with no such index
/// after it; it is `None` only where no even index has a line that names the
/// key.
pub proof fn lemma_key_slot(all: Seq<Seq<char>>, key: Seq<char>)
    ensures
        match key_slot(all, key) {
            Some(at) => {
                &&& 0 <= at < all.len()
                &&& at % 2 == 0
                &&& key_of(all[at]) == key
                &&& forall|j: int|
                    at < j < all.len() && j % 2 == 0 ==> key_of(#[trigger] all[j]) != key
            },
            None => forall|j: int|
                0 <= j < all.len() && j % 2 == 0 ==> key_of(#[trigger] all[j]) != key,
        },
    decreases all.len(),
{
    if all.len() > 0 && !((all.len() - 1) % 2 == 0 && key_of(all.last()) == key) {
        let front = all.drop_last();
        lemma_key_slot(front, key);
        match key_slot(front, key) {
            Some(at) => {
                assert(front[at] == all[at]);
                assert forall|j: int| at < j < all.len() && j % 2 == 0 implies key_of(
                    #[trigger] all[j],
                ) != key by {
                    if j < front.len() {
                        assert(front[j] == all[j]);
                    }
                }
            },
            None => {
                assert forall|j: int| 0 <= j < all.len() && j % 2 == 0 implies key_of(
                    #[trigger] all[j],
                ) != key by {
                    if j < front.len() {
                        assert(front[j] == all[j]);
                    }
                }
            },
        }
    }
}

/// The number of key lines that name `key`: of even indices whose line
/// names it.
pub open spec fn count_keys(all: Seq<Seq<char>>, key: Seq<char>) -> nat
    decreases all.len(),
{
    if all.len() == 0 {
        0
    } else {
        count_keys(all.drop_last(), key) + if (all.len() - 1) % 2 == 0 && key_of(all.last())
            == key {
            1nat
        } else {
            0nat
        }
    }
}

/// True for the four keys of the file.
pub open spec fn is_known_key(key: Seq<char>) -> bool {
    ||| key == iface_key()
    ||| key == ports_key()
    ||| key == addrs_key()
    ||| key == countries_key()
}

/// The lines with a last key line that has no value given an empty one, so
/// that their number is even.
pub open spec fn completed(all: Seq<Seq<char>>) -> Seq<Seq<char>> {
    if all.len() % 2 == 1 {
        all.push(""@)
    } else {
        all
    }
}

/// The lines with a key line and its value added at the end, where a key is
/// read.
pub open spec fn with_pair(
    all: Seq<Seq<char>>,
    key_line: Seq<char>,
    value: Seq<char>,
) -> Seq<Seq<char>> {
    completed(all).push(key_line).push(value)
}

/// The lines with the interface set. Where a key line names the interface,
/// the interface becomes the value of the last such line: it replaces the
/// line after it, or is added where that key line is the last line. Where no
/// key line names the interface, key line and interface are added.
pub open spec fn with_iface(all: Seq<Seq<char>>, iface: Seq<char>) -> Seq<Seq<char>> {
    match key_slot(all, iface_key()) {
        Some(at) => if at + 1 < all.len() {
            all.update(at + 1, iface)
        } else {
            all.push(iface)
        },
        None => with_pair(all, iface_line(), iface),
    }
}

/// The lines with a key made sure of: where no key line names `key`, the
/// key line and `value` are added.
pub open spec fn with_default(
    all: Seq<Seq<char>>,
    key: Seq<char>,
    key_line: Seq<char>,
    value: Seq<char>,
) -> Seq<Seq<char>> {
    if key_slot(all, key) is Some {
        all
    } else {
        with_pair(all, key_line, value)
    }
}

/// The lines after an update of the interface: the interface is set, then
/// each missing list key is added with its default, `80, 443` for the ports
/// and nothing for the two block lists.
pub open spec fn updated_lines(all: Seq<Seq<char>>, iface: Seq<char>) -> Seq<Seq<char>> {
    with_default(
        with_default(
            with_default(with_iface(all, iface), ports_key(), ports_line(), "80, 443"@),
            addrs_key(),
            addrs_line(),
            ""@,
        ),
        countries_key(),
        countries_line(),
        ""@,
    )
}

/// The text after an update of the interface: the updated lines, with a line
/// feed between each two.
pub open spec fn updated_text(text: Seq<char>, iface: Seq<char>) -> Seq<char> {
    join_with(updated_lines(lines_of(text), iface), "\n"@)
}

/// Finds the last key line that names `key`.
fn find_key(all: &Vec<String>, key: &str) -> (at: Option<usize>)
    ensures
        at is Some <==> key_slot(views(all@), key@) is Some,
        at matches Some(i) ==> key_slot(views(all@), key@) == Some(i as int),
{
    let mut found: Option<usize> = None;
    let mut i: usize = 0;
    assert(views(all@).take(0) == Seq::<Seq<char>>::empty());
    while i < all.len()
        invariant
            i <= all@.len(),
            found is Some <==> key_slot(views(all@).take(i as int), key@) is Some,
            found matches Some(k) ==> key_slot(views(all@).take(i as int), key@) == Some(k as int),
        decreases all@.len() - i,
    {
        proof {
            let next = views(all@).take(i + 1);
            assert(next.drop_last() == views(all@).take(i as int));
            assert(next.last() == all@[i as int]@);
        }
        if i % 2 == 0 && str_equal(trim_matches(trim(all[i].as_str()), '"'), key) {
            found = Some(i);
        }
        i += 1;
    }
    assert(views(all@).take(i as int) == views(all@));
    found
}

/// Adds a key line and its value, after giving a last key line without a
/// value an empty one.
fn add_pair(all: &mut Vec<String>, key_line: &str, value: &str)
    ensures
        views(final(all)@) == with_pair(views(old(all)@), key_line@, value@),
{
    let ghost before = views(all@);
    if all.len() % 2 == 1 {
        all.push("".to_owned());
    }
    assert(views(all@) == completed(before));
    all.push(key_line.to_owned());
    all.push(value.to_owned());
}

/// Adds the key line and its value where no key line names the key.
fn backfill(all: &mut Vec<String>, key: &str, key_line: &str, value: &str)
    ensures
        views(final(all)@) == with_default(views(old(all)@), key@, key_line@, value@),
{
    if find_key(all, key).is_none() {
        add_pair(all, key_line, value);
    }
}

/// Sets the interface in a configuration text and adds each missing list
/// key with its default: ports `80, 443` and empty block lists.
///
/// A name that is not empty, stands on one line and has no white space
/// around it is the interface that is read from the updated text. With a
/// name on one line, each of the four keys has one key line in the updated
/// text where it had none, and as many as it had otherwise.
pub fn update_config_iface(content: &str, new_iface: &str) -> (updated: String)
    ensures
        updated@ == updated_text(content@, new_iface@),
        is_name(new_iface@) ==> config_of(updated@).contains_key(iface_key()) && config_of(
            updated@,
        )[iface_key()] == new_iface@,
        single_line(new_iface@) ==> forall|key: Seq<char>|
            is_known_key(key) ==> #[trigger] count_keys(lines_of(updated@), key) == if count_keys(
                lines_of(content@),
                key,
            ) == 0 {
                1nat
            } else {
                count_keys(lines_of(content@), key)
            },
{
    let mut all = lines(content);
    let ghost before = views(all@);
    match find_key(&all, "iface") {
        Some(at) => {
            proof {
                lemma_key_slot(before, iface_key());
            }
            if at + 1 < all.len() {
                all.set(at + 1, new_iface.to_owned());
                assert(views(all@) == before.update(at + 1, new_iface@));
            } else {
                all.push(new_iface.to_owned());
                assert(views(all@) == before.push(new_iface@));
            }
        },
        None => {
            add_pair(&mut all, "\"iface\"", new_iface);
        },
    }
    assert(views(all@) == with_iface(before, new_iface@));
    backfill(&mut all, "allowed-ports", "\"allowed-ports\"", "80, 443");
    backfill(&mut all, "blocked-ips", "\"blocked-ips\"", "");
    backfill(&mut all, "blocked-countries", "\"blocked-countries\"", "");
    let updated = join(&all, "\n");
    proof {
        if is_name(new_iface@) {
            lemma_update_then_read(content@, new_iface@);
        }
        if single_line(new_iface@) {
            assert forall|key: Seq<char>| is_known_key(key) implies #[trigger] count_keys(
                lines_of(updated@),
                key,
            ) == if count_keys(lines_of(content@), key) == 0 {
                1nat
            } else {
                count_keys(lines_of(content@), key)
            } by {
                lemma_update_backfills(content@, new_iface@, key);
            }
        }
    }
    updated
}

} // verus!
