//! The decisions of the interactive configuration tool: what a menu choice
//! leads to, how a failed prompt is reported, and which interface an answer
//! selects. Showing the menu and reading the answer are left to the caller.

use crate::text::{contains, occurs_in, parse_usize, str_equal, usize_of, views};
use vstd::prelude::*;

verus! {

/// What the tool does next.
#[derive(Clone, Copy, Debug, PartialEq, Eq, Structural)]
pub enum MenuAction {
    /// Start the filter with the configured policy.
    RunFirewall,
    /// Open the configuration file in an editor.
    ConfigureFile,
    /// Ask for the interface to filter on.
    ChooseInterface,
    /// Leave the tool.
    Exit,
    /// Show the menu again.
    Stay,
}

/// The action behind each menu entry, counted from 0: start the filter,
/// edit the configuration, choose the interface, exit. Any other number
/// leaves the menu as it is.
pub open spec fn action_of(choice: usize) -> MenuAction {
    if choice == 0 {
        MenuAction::RunFirewall
    } else if choice == 1 {
        MenuAction::ConfigureFile
    } else if choice == 2 {
        MenuAction::ChooseInterface
    } else if choice == 3 {
        MenuAction::Exit
    } else {
        MenuAction::Stay
    }
}

/// The action behind a menu entry.
pub fn menu_action(choice: usize) -> (action: MenuAction)
    ensures
        action == action_of(choice),
{
    match choice {
        0 => MenuAction::RunFirewall,
        1 => MenuAction::ConfigureFile,
        2 => MenuAction::ChooseInterface,
        3 => MenuAction::Exit,
        _ => MenuAction::Stay,
    }
}

impl MenuAction {
    /// Tells whether the menu is shown again after this action: after every
    /// one but `Exit`.
    pub fn keeps_running(self) -> (again: bool)
        ensures
            again == (self != MenuAction::Exit),
    {
        match self {
            MenuAction::Exit => false,
            _ => true,
        }
    }
}

/// Why a prompt gave no answer.
#[derive(Clone, Copy, Debug, PartialEq, Eq, Structural)]
pub enum PromptFault {
    /// The user interrupted the prompt.
    Interrupted,
    /// The prompt failed for another reason.
    Failed,
}

/// Tells an interrupted prompt from a failed one by the error's message: it
/// was interrupted where the message holds the word `interrupted`.
pub fn classify_fault(message: &str) -> (fault: PromptFault)
    ensures
        fault == if occurs_in(message@, "interrupted"@) {
            PromptFault::Interrupted
        } else {
            PromptFault::Failed
        },
{
    if contains(message, "interrupted") {
        PromptFault::Interrupted
    } else {
        PromptFault::Failed
    }
}

/// The names without the loopback interface `lo`, in their order.
pub open spec fn without_loopback(names: Seq<Seq<char>>) -> Seq<Seq<char>> {
    names.filter(|name: Seq<char>| name != "lo"@)
}

/// One more name is added to the names without loopback, unless it is `lo`.
pub proof fn lemma_without_loopback_push(names: Seq<Seq<char>>, name: Seq<char>)
    ensures
        without_loopback(names.push(name)) == if name != "lo"@ {
            without_loopback(names).push(name)
        } else {
            without_loopback(names)
        },
{
    reveal(Seq::filter);
    assert(names.push(name).drop_last() == names);
}

/// The interfaces that are offered for selection: all but the loopback
/// interface `lo`.
pub fn selectable_interfaces(names: &Vec<String>) -> (offered: Vec<String>)
    ensures
        views(offered@) == without_loopback(views(names@)),
{
    let mut offered: Vec<String> = Vec::new();
    let mut i: usize = 0;
    proof {
        reveal(Seq::filter);
    }
    while i < names.len()
        invariant
            i <= names@.len(),
            views(offered@) == without_loopback(views(names@).take(i as int)),
        decreases names@.len() - i,
    {
        proof {
            let done = views(names@).take(i as int);
            assert(views(names@).take(i + 1) == done.push(names@[i as int]@));
            lemma_without_loopback_push(done, names@[i as int]@);
        }
        if !str_equal(names[i].as_str(), "lo") {
            offered.push(names[i].clone());
        }
        i += 1;
    }
    assert(views(names@).take(names@.len() as int) == views(names@));
    offered
}

/// The interface that an answer selects. An answer that is a number picks
/// from the offered names, counted from 1, and picks nothing where the
/// number is 0 or greater than their count. Any other answer is taken as
/// the name itself.
pub open spec fn selection_of(offered: Seq<Seq<char>>, answer: Seq<char>) -> Option<Seq<char>> {
    match usize_of(answer) {
        Some(number) => if 1 <= number <= offered.len() {
            Some(offered[number - 1])
        } else {
            None
        },
        None => Some(answer),
    }
}

/// Selects an interface by the user's answer: its number in the list, or
/// its name.
pub fn select_interface(offered: &Vec<String>, answer: &str) -> (selected: Option<String>)
    ensures
        selected is Some <==> selection_of(views(offered@), answer@) is Some,
        selected matches Some(name) ==> Some(name@) == selection_of(views(offered@), answer@),
{
    match parse_usize(answer) {
        Some(number) => {
            if 1 <= number && number <= offered.len() {
                Some(offered[number - 1].clone())
            } else {
                None
            }
        },
        None => Some(answer.to_owned()),
    }
}

} // verus!
