//! Which file names a search term finds.
//!
//! A search term finds a file when the term occurs somewhere in the file's
//! name. Walking the directories is left to the caller: this module only
//! judges a name.

use vstd::prelude::*;
use vstd::std_specs::iter::IteratorSpec;
use vstd::string::*;

verus! {

/// Whether `part` stands in `text` at position `at`.
pub open spec fn occurs_at(text: Seq<char>, part: Seq<char>, at: int) -> bool {
    &&& 0 <= at
    &&& at + part.len() <= text.len()
    &&& text.subrange(at, at + part.len()) == part
}

/// Whether `part` stands somewhere in `text`.
pub open spec fn occurs_in(text: Seq<char>, part: Seq<char>) -> bool {
    exists|at: int| occurs_at(text, part, at)
}

/// The text of a file name: the name itself, or nothing where the name is
/// not text.
pub open spec fn name_text(name: Option<&str>) -> Seq<char> {
    match name {
        Some(name) => name@,
        None => Seq::empty(),
    }
}

fn characters(text: &str) -> (listed: Vec<char>)
    ensures
        listed@ == text@,
{
    let mut listed: Vec<char> = Vec::new();
    for character in walk: text.chars()
        invariant
            walk.seq() == text@,
            listed@ == walk.seq().take(walk.index()),
    {
        listed.push(character);
        assert(listed@ =~= walk.seq().take(walk.index() + 1));
    }
    assert(listed@ =~= text@);
    listed
}

fn stands_at(text: &Vec<char>, part: &Vec<char>, at: usize) -> (found: bool)
    requires
        at + part@.len() <= text@.len(),
    ensures
        found == occurs_at(text@, part@, at as int),
{
    let length = text.len();
    let mut matched: usize = 0;
    while matched < part.len()
        invariant
            at + part@.len() <= text@.len() == length,
            matched <= part@.len(),
            forall|i: int| 0 <= i < matched ==> text@[at + i] == part@[i],
        decreases part@.len() - matched,
    {
        if text[at + matched] != part[matched] {
            assert(text@.subrange(at as int, at + part@.len())[matched as int] != part@[matched as int]);
            return false;
        }
        matched = matched + 1;
    }
    assert(text@.subrange(at as int, at + part@.len()) =~= part@);
    true
}

/// Whether `part` stands somewhere in `text`.
pub fn contains_text(text: &str, part: &str) -> (found: bool)
    ensures
        found == occurs_in(text@, part@),
{
    let whole = characters(text);
    let sought = characters(part);
    if sought.len() > whole.len() {
        return false;
    }
    let last = whole.len() - sought.len();
    let mut at: usize = 0;
    loop
        invariant
            whole@ == text@,
            sought@ == part@,
            last + sought@.len() == whole@.len(),
            at <= last,
            forall|before: int| 0 <= before < at ==> !occurs_at(whole@, sought@, before),
        decreases last - at,
    {
        if stands_at(&whole, &sought, at) {
            assert(occurs_at(text@, part@, at as int));
            return true;
        }
        if at == last {
            return false;
        }
        at = at + 1;
    }
}

/// Whether a file's name contains `file_name`. A file name that is not text
/// counts as an empty name.
pub fn os_str_contains_name(os_file_name: Option<&str>, file_name: &str) -> (found: bool)
    ensures
        found == occurs_in(name_text(os_file_name), file_name@),
{
    match os_file_name {
        Some(name) => contains_text(name, file_name),
        None => {
            proof {
                reveal_strlit("");
                assert(""@ =~= Seq::<char>::empty());
            }
            contains_text("", file_name)
        },
    }
}

} // verus!
