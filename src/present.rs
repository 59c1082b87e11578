//! One output line per sampled file: its readable size and its name.
use crate::size_format::{format_size, size_text};
use crate::walk::FileCandidate;
use vstd::prelude::*;

verus! {

pub open spec fn separator() -> Seq<char> {
    seq![' ', '\u{2551}', ' ']
}

/// The line for a file of `size` bytes named `name`.
pub open spec fn line_text(size: nat, name: Seq<char>) -> Seq<char> {
    seq![' '] + size_text(size) + separator() + name
}

/// The size shown for a candidate: the one found by the walk, else the one
/// looked up for the listing, else zero.
pub open spec fn shown_size(known: Option<u64>, looked_up: Option<u64>) -> nat {
    match known {
        Some(l) => l as nat,
        None => match looked_up {
            Some(l) => l as nat,
            None => 0,
        },
    }
}

/// A candidate's file name: its last path segment (empty for an empty path).
pub open spec fn name_of(c: FileCandidate) -> Seq<char> {
    if c@.0.len() == 0 {
        Seq::empty()
    } else {
        c@.0.last()
    }
}

/// The line for a file of `size` bytes named `name`.
pub fn format_line(size: u64, name: &str) -> (r: String)
    ensures
        r@ == line_text(size as nat, name@),
{
    proof {
        reveal_strlit(" ");
        reveal_strlit(" \u{2551} ");
    }
    let mut r = String::from_str(" ");
    let s = format_size(size);
    r.append(s.as_str());
    r.append(" \u{2551} ");
    r.append(name);
    assert(r@ =~= line_text(size as nat, name@));
    r
}

/// The lines for a sample, in its order. `looked_up[i]` is the size found for
/// the `i`-th file at listing time, used where the walk did not record one.
pub fn present(sample: &Vec<FileCandidate>, looked_up: &Vec<Option<u64>>) -> (r: Vec<String>)
    requires
        looked_up@.len() == sample@.len(),
    ensures
        r@.len() == sample@.len(),
        forall|i: int| 0 <= i < r@.len() ==> (#[trigger] r@[i])@ == line_text(shown_size(sample@[i].len, looked_up@[i]), name_of(sample@[i])),
{
    let mut r: Vec<String> = Vec::new();
    let mut i: usize = 0;
    while i < sample.len()
        invariant
            i <= sample@.len(),
            looked_up@.len() == sample@.len(),
            r@.len() == i,
            forall|j: int| 0 <= j < i ==> (#[trigger] r@[j])@ == line_text(shown_size(sample@[j].len, looked_up@[j]), name_of(sample@[j])),
        decreases sample@.len() - i,
    {
        let c = &sample[i];
        let size: u64 = match c.len {
            Some(l) => l,
            None => match looked_up[i] {
                Some(l) => l,
                None => 0,
            },
        };
        let line = if c.path.len() == 0 {
            format_line(size, "")
        } else {
            format_line(size, c.file_name().as_str())
        };
        proof {
            reveal_strlit("");
        }
        r.push(line);
        i = i + 1;
    }
    r
}

} // verus!
