//! The memory use of a process, as Linux reports it.

use crate::text::{
    has_prefix, nth_word, number, pieces, read_number, split_text, starts_with, texts, word,
};
use vstd::prelude::*;

verus! {

/// The first of `lines`, from number `i` on, that starts with `label`.
pub open spec fn labelled_line(lines: Seq<Seq<char>>, label: Seq<char>, i: int) -> Option<Seq<char>>
    decreases lines.len() - i,
{
    if i >= lines.len() {
        None
    } else if starts_with(lines[i], label) {
        Some(lines[i])
    } else {
        labelled_line(lines, label, i + 1)
    }
}

/// The resident set size in KiB that the text of `/proc/self/status` states: the second word,
/// if it spells a number, of the first line that is labelled `VmRSS:`. Zero where the text is
/// missing or does not state it.
pub open spec fn rss_stated(status: Option<Seq<char>>) -> int {
    match status {
        Some(text) => match labelled_line(pieces(text, '\n', 0), "VmRSS:"@, 0) {
            Some(line) => match word(line, 0, 1) {
                Some(w) => match number(w, u64::MAX as int) {
                    Some(v) => v,
                    None => 0,
                },
                None => 0,
            },
            None => 0,
        },
        None => 0,
    }
}

/// Finds the first of `lines` that starts with `label`.
fn find_line(lines: &Vec<String>, label: &str) -> (res: Option<usize>)
    ensures
        match res {
            Some(i) => i < lines@.len() && labelled_line(texts(lines@), label@, 0) == Some(
                lines@[i as int]@,
            ),
            None => labelled_line(texts(lines@), label@, 0) is None,
        },
{
    let mut i: usize = 0;
    while i < lines.len()
        invariant
            i <= lines@.len(),
            labelled_line(texts(lines@), label@, 0) == labelled_line(texts(lines@), label@, i as int),
        decreases lines@.len() - i,
    {
        assert(texts(lines@)[i as int] == lines@[i as int]@);
        if has_prefix(lines[i].as_str(), label) {
            return Some(i);
        }
        i = i + 1;
    }
    None
}

/// The resident set size in KiB, out of the text of `/proc/self/status`.
pub fn rss_kb(status: Option<String>) -> (kb: u64)
    ensures
        kb == rss_stated(
            match status {
                Some(text) => Some(text@),
                None => None,
            },
        ),
{
    let text: String = match status {
        Some(text) => text,
        None => return 0,
    };
    let lines: Vec<String> = split_text(text.as_str(), '\n');
    let i: usize = match find_line(&lines, "VmRSS:") {
        Some(i) => i,
        None => return 0,
    };
    match nth_word(lines[i].as_str(), 1) {
        Some(w) => match read_number(w.as_str(), u64::MAX) {
            Some(v) => v,
            None => 0,
        },
        None => 0,
    }
}

} // verus!
