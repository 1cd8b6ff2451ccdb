//! Classes that come and go with a reactive condition.

use vstd::prelude::*;
use vstd::string::*;

verus! {

/// What has to be done to an element's class list.
#[derive(Clone, Copy, PartialEq, Eq, Structural, Debug)]
pub enum ClassChange {
    Add,
    Remove,
    Keep,
}

/// What a toggled class asks of the class list, given whether the class
/// was wanted at the last run, if there was one, and whether it is wanted
/// now.
///
/// The list is only touched when the answer has changed; the first run
/// always touches it.
pub fn class_change(previous: Option<bool>, wanted: bool) -> (change: ClassChange)
    ensures
        change == (if previous == Some(wanted) {
            ClassChange::Keep
        } else if wanted {
            ClassChange::Add
        } else {
            ClassChange::Remove
        }),
{
    let same = match previous {
        Some(before) => before == wanted,
        None => false,
    };
    if same {
        ClassChange::Keep
    } else if wanted {
        ClassChange::Add
    } else {
        ClassChange::Remove
    }
}

/// What a toggled class contributes to the class attribute of a rendered
/// page: its name, or nothing.
pub open spec fn class_markup(class: Seq<char>, name: Seq<char>, wanted: bool) -> Seq<char> {
    if wanted {
        class + name
    } else {
        class
    }
}

/// Appends a toggled class to the class attribute of a rendered page.
pub fn toggled_class_to_html(name: &'static str, wanted: bool, class: &mut String)
    ensures
        final(class)@ == class_markup(old(class)@, name@, wanted),
{
    if wanted {
        class.append(name);
    }
}

} // verus!
