//! Deciding whether a file's bytes are binary, and what of its content a
//! pattern matches.

use crate::entry::{ResultView, SearchResult};
use crate::pattern::{decode_lossy, lossy_text, regex_finds, Pattern};
use vstd::prelude::*;
use vstd::slice::slice_subrange;

verus! {

/// How many leading bytes of a file are looked at to tell whether it is binary.
pub const BINARY_PREFIX: usize = 1024;

/// A file is binary when a zero byte stands among its first 1024 bytes.
pub open spec fn is_binary(bytes: Seq<u8>) -> bool {
    exists|i: int| 0 <= i < bytes.len() && i < BINARY_PREFIX && bytes[i] == 0
}

/// The bytes of the line from `start` to `end`; when a newline ends it at
/// `end`, a carriage return just before that newline is no part of it.
pub open spec fn line_at(b: Seq<u8>, start: int, end: int, terminated: bool) -> Seq<u8> {
    let raw = b.subrange(start, end);
    if terminated && raw.len() > 0 && raw.last() == 13u8 {
        raw.drop_last()
    } else {
        raw
    }
}

/// The lines of `b` from the line that starts at `start`, scanning on from `i`.
pub open spec fn split_from(b: Seq<u8>, start: int, i: int) -> Seq<Seq<u8>>
    decreases b.len() - i,
{
    if i >= b.len() {
        if start < b.len() {
            seq![line_at(b, start, b.len() as int, false)]
        } else {
            seq![]
        }
    } else if b[i] == 10u8 {
        seq![line_at(b, start, i, true)] + split_from(b, i + 1, i + 1)
    } else {
        split_from(b, start, i + 1)
    }
}

/// The lines of `b`: split at each newline, a final newline optional, and a
/// carriage return that precedes a newline removed.
pub open spec fn byte_lines(b: Seq<u8>) -> Seq<Seq<u8>> {
    split_from(b, 0, 0)
}

/// The decoded text of the first of `lines` that `p` matches.
pub open spec fn first_matching(lines: Seq<Seq<u8>>, p: Seq<char>) -> Option<Seq<char>>
    decreases lines.len(),
{
    if lines.len() == 0 {
        None
    } else if regex_finds(p, lossy_text(lines[0])) {
        Some(lossy_text(lines[0]))
    } else {
        first_matching(lines.drop_first(), p)
    }
}

/// What a content match on `b` reports: the first matching line when
/// `verbose`, else the word "Matched" when `p` matches anywhere in the text.
pub open spec fn matched_payload(b: Seq<u8>, p: Seq<char>, verbose: bool) -> Option<Seq<char>> {
    if verbose {
        first_matching(byte_lines(b), p)
    } else if regex_finds(p, lossy_text(b)) {
        Some("Matched"@)
    } else {
        None
    }
}

/// The result a content search gives for the file at `path` holding `b`.
pub open spec fn content_hit(path: Seq<char>, b: Seq<u8>, p: Seq<char>, verbose: bool) -> Option<
    ResultView,
> {
    if is_binary(b) {
        None
    } else {
        match matched_payload(b, p, verbose) {
            Some(line) => if verbose {
                Some(ResultView::Verbose(path, line))
            } else {
                Some(ResultView::Simple(path))
            },
            None => None,
        }
    }
}

/// Whether a zero byte stands among the first 1024 bytes of `head`.
pub fn binary_checker(head: &[u8]) -> (r: bool)
    ensures
        r == is_binary(head@),
{
    let n = if head.len() < BINARY_PREFIX {
        head.len()
    } else {
        BINARY_PREFIX
    };
    let mut i: usize = 0;
    while i < n
        invariant
            n <= head@.len(),
            n <= BINARY_PREFIX,
            n == head@.len() || n == BINARY_PREFIX,
            i <= n,
            forall|j: int| 0 <= j < i ==> head@[j] != 0,
        decreases n - i,
    {
        if head[i] == 0 {
            return true;
        }
        i = i + 1;
    }
    false
}

/// The decoded text of the line from `start` to `end` of `content`.
fn line_text(content: &[u8], start: usize, end: usize, terminated: bool) -> (r: String)
    requires
        start <= end <= content@.len(),
    ensures
        r@ == lossy_text(line_at(content@, start as int, end as int, terminated)),
{
    let last = if terminated && end > start && content[end - 1] == 13 {
        end - 1
    } else {
        end
    };
    let bytes = slice_subrange(content, start, last);
    proof {
        let raw = content@.subrange(start as int, end as int);
        if terminated && end > start && content@[end - 1] == 13u8 {
            assert(raw.last() == 13u8);
            assert(bytes@ =~= raw.drop_last());
        } else {
            assert(bytes@ =~= raw);
        }
    }
    decode_lossy(bytes)
}

/// The first line of `content` that `expression` matches when `verbose`;
/// otherwise "Matched" when it matches anywhere in the whole text.
pub fn first_line_matched(content: &[u8], expression: &Pattern, verbose: bool) -> (r: Option<
    String,
>)
    ensures
        r is Some <==> matched_payload(content@, expression@, verbose) is Some,
        r is Some ==> r->0@ == matched_payload(content@, expression@, verbose)->0,
{
    if !verbose {
        let text = decode_lossy(content);
        if expression.is_match(text.as_str()) {
            return Some("Matched".to_owned());
        }
        return None;
    }
    let ghost b = content@;
    let ghost p = expression@;
    let n = content.len();
    let mut start: usize = 0;
    let mut i: usize = 0;
    while i < n
        invariant
            b == content@,
            p == expression@,
            n == b.len(),
            start <= i <= n,
            verbose,
            first_matching(byte_lines(b), p) == first_matching(split_from(b, start as int, i as int), p),
        decreases n - i,
    {
        if content[i] == 10 {
            let line = line_text(content, start, i, true);
            let ghost rest = split_from(b, i + 1, i + 1);
            let ghost ls = seq![line_at(b, start as int, i as int, true)] + rest;
            assert(split_from(b, start as int, i as int) == ls);
            assert(ls[0] == line_at(b, start as int, i as int, true));
            if expression.is_match(line.as_str()) {
                return Some(line);
            }
            assert(ls.drop_first() =~= rest);
            start = i + 1;
        }
        i = i + 1;
    }
    if start < n {
        let line = line_text(content, start, n, false);
        let ghost ls = seq![line_at(b, start as int, n as int, false)];
        assert(split_from(b, start as int, n as int) == ls);
        if expression.is_match(line.as_str()) {
            return Some(line);
        }
        assert(ls.drop_first() =~= Seq::<Seq<u8>>::empty());
        assert(first_matching(ls.drop_first(), p) is None);
    } else {
        assert(split_from(b, start as int, n as int) =~= Seq::<Seq<u8>>::empty());
        assert(first_matching(Seq::<Seq<u8>>::empty(), p) is None);
    }
    None
}

/// The result a content search gives for the file at `path` holding
/// `content`: none for a binary file, else the matched payload.
pub fn content_match(path: &String, content: &[u8], expression: &Pattern, verbose: bool) -> (r: Option<
    SearchResult,
>)
    ensures
        r is Some <==> content_hit(path@, content@, expression@, verbose) is Some,
        r is Some ==> r->0@ == content_hit(path@, content@, expression@, verbose)->0,
{
    if binary_checker(content) {
        return None;
    }
    match first_line_matched(content, expression, verbose) {
        Some(line) => if verbose {
            Some(SearchResult::Verbose { path: path.clone(), line })
        } else {
            Some(SearchResult::Simple(path.clone()))
        },
        None => None,
    }
}

} // verus!
