//! The search path for commands: its entries, what counts as a bare command
//! name, and which entry a command is found in.

use crate::text::{chars_of, find_char, first_index_from};
use vstd::prelude::*;
use vstd::string::{StrSliceExecFns, StringExecFns};

verus! {

/// A command name is bare where it holds no path separator.
pub fn is_bare_command(command: &str) -> (r: bool)
    ensures
        r == !command@.contains('/'),
{
    let chars = chars_of(command);
    let at = find_char(&chars, '/', 0);
    if at < chars.len() {
        assert(chars@[at as int] == '/');
        false
    } else {
        assert forall|i: int| 0 <= i < chars@.len() implies chars@[i] != '/' by {}
        true
    }
}

/// The entries of a search path from position `from` on: the texts between
/// its colons, in order, without the empty ones.
pub open spec fn path_entries_from(path: Seq<char>, from: int) -> Seq<Seq<char>>
    recommends
        0 <= from,
    decreases path.len() - from,
{
    if from >= path.len() {
        Seq::empty()
    } else {
        let colon = first_index_from(path, ':', from);
        if from < colon < path.len() {
            seq![path.subrange(from, colon)] + path_entries_from(path, colon + 1)
        } else if colon == from {
            path_entries_from(path, colon + 1)
        } else {
            seq![path.subrange(from, path.len() as int)]
        }
    }
}

/// The entries of a search path.
pub open spec fn path_entries_of(path: Seq<char>) -> Seq<Seq<char>> {
    path_entries_from(path, 0)
}

/// Splits a search path into its entries.
pub fn path_entries(path: &str) -> (out: Vec<String>)
    ensures
        crate::text::text_views(out@) == path_entries_of(path@),
{
    let chars = chars_of(path);
    let mut out: Vec<String> = Vec::new();
    let mut from: usize = 0;
    assert(crate::text::text_views(out@) =~= Seq::<Seq<char>>::empty());
    assert(Seq::<Seq<char>>::empty() + path_entries_from(chars@, 0) =~= path_entries_from(
        chars@,
        0,
    ));
    while from < chars.len()
        invariant
            from <= chars.len(),
            chars@ == path@,
            crate::text::text_views(out@) + path_entries_from(chars@, from as int)
                == path_entries_of(chars@),
        decreases chars.len() - from,
    {
        let colon = find_char(&chars, ':', from);
        let ghost before = crate::text::text_views(out@);
        let ghost rest = if colon < chars.len() {
            path_entries_from(chars@, colon + 1)
        } else {
            Seq::<Seq<char>>::empty()
        };
        if colon > from {
            let entry = String::from_str(path.substring_char(from, colon));
            let ghost held = out@;
            out.push(entry);
            assert(crate::text::text_views(held.push(entry)) =~= before.push(entry@));
            assert(before.push(entry@) + rest =~= before + (seq![entry@] + rest));
            assert(seq![entry@] + Seq::<Seq<char>>::empty() =~= seq![entry@]);
        }
        if colon == chars.len() {
            from = colon;
        } else {
            from = colon + 1;
        }
    }
    assert(crate::text::text_views(out@) + Seq::<Seq<char>>::empty() =~= crate::text::text_views(
        out@,
    ));
    out
}

/// Whether a file with these permission bits can be run: it is a regular
/// file and one of its three execute bits is set.
pub open spec fn runs(is_file: bool, mode: u32) -> bool {
    is_file && (mode & 0o111u32) != 0
}

/// Whether a file with these permission bits can be run.
pub fn is_executable(is_file: bool, mode: u32) -> (r: bool)
    ensures
        r == runs(is_file, mode),
{
    is_file && (mode & 0o111u32) != 0
}

/// The entry that a command resolves to: the first one in which it can be
/// run. `runnable` says for each entry, in order, whether the command can be
/// run there.
pub fn select_entry(runnable: &Vec<bool>) -> (r: Option<usize>)
    ensures
        match r {
            Some(i) => i < runnable@.len() && runnable@[i as int] && forall|j: int|
                0 <= j < i ==> !runnable@[j],
            None => forall|j: int| 0 <= j < runnable@.len() ==> !runnable@[j],
        },
{
    let mut i: usize = 0;
    while i < runnable.len()
        invariant
            i <= runnable.len(),
            forall|j: int| 0 <= j < i ==> !runnable@[j],
        decreases runnable.len() - i,
    {
        if runnable[i] {
            return Some(i);
        }
        i += 1;
    }
    None
}

} // verus!
