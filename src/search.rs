//! The three search strategies over walked entries.

use crate::content::{content_hit, content_match};
use crate::entry::{Entry, EntryKind, ResultView, SearchResult, SearchType};
use crate::pattern::{name_matches, regex_finds, Pattern};
use vstd::prelude::*;

verus! {

/// The entries of `es` that lie at most `depth` levels below their root, in order.
pub open spec fn kept(es: Seq<Entry>, depth: int) -> Seq<Entry>
    decreases es.len(),
{
    if es.len() == 0 {
        seq![]
    } else if es.last().depth <= depth {
        kept(es.drop_last(), depth).push(es.last())
    } else {
        kept(es.drop_last(), depth)
    }
}

/// The entries of all walks, one root after another, that lie within `depth`.
pub open spec fn walked(walks: Seq<Vec<Entry>>, depth: int) -> Seq<Entry>
    decreases walks.len(),
{
    if walks.len() == 0 {
        seq![]
    } else {
        walked(walks.drop_last(), depth) + kept(walks.last()@, depth)
    }
}

/// The values of a sequence of results.
pub open spec fn views(rs: Seq<SearchResult>) -> Seq<ResultView> {
    rs.map_values(|r: SearchResult| r@)
}

/// A sequence of the value an option holds, if any.
pub open spec fn opt_seq(o: Option<ResultView>) -> Seq<ResultView> {
    match o {
        Some(v) => seq![v],
        None => seq![],
    }
}

/// The result a name search for entries of `kind` gives for `e`.
pub open spec fn name_hit(e: Entry, kind: EntryKind, p: Seq<char>) -> Option<ResultView> {
    if e.kind == kind && regex_finds(p, e.name@) {
        Some(ResultView::Simple(e.path@))
    } else {
        None
    }
}

/// The results of a name search for entries of `kind`, in entry order.
pub open spec fn name_hits(es: Seq<Entry>, kind: EntryKind, p: Seq<char>) -> Seq<ResultView>
    decreases es.len(),
{
    if es.len() == 0 {
        seq![]
    } else {
        name_hits(es.drop_last(), kind, p) + opt_seq(name_hit(es.last(), kind, p))
    }
}

/// The result a content search gives for `e`, whose bytes are `c` when they
/// could be read.
pub open spec fn file_content_hit(e: Entry, c: Option<Vec<u8>>, p: Seq<char>, verbose: bool) -> Option<
    ResultView,
> {
    if e.kind == EntryKind::File && c is Some {
        content_hit(e.path@, c->0@, p, verbose)
    } else {
        None
    }
}

/// The results of a content search, in entry order.
pub open spec fn content_hits(
    es: Seq<Entry>,
    cs: Seq<Option<Vec<u8>>>,
    p: Seq<char>,
    verbose: bool,
) -> Seq<ResultView>
    decreases es.len(),
{
    if es.len() == 0 {
        seq![]
    } else {
        content_hits(es.drop_last(), cs.drop_last(), p, verbose) + opt_seq(
            file_content_hit(es.last(), cs.last(), p, verbose),
        )
    }
}

/// The results of a search of type `t`.
pub open spec fn search_hits(
    t: SearchType,
    es: Seq<Entry>,
    cs: Seq<Option<Vec<u8>>>,
    p: Seq<char>,
    verbose: bool,
) -> Seq<ResultView> {
    match t {
        SearchType::Dir => name_hits(es, EntryKind::Dir, p),
        SearchType::File => name_hits(es, EntryKind::File, p),
        SearchType::Content => content_hits(es, cs, p, verbose),
    }
}

/// The entries of all walks, root after root, that lie at most `depth`
/// levels below their root.
pub fn entry_builder(walks: &Vec<Vec<Entry>>, depth: usize) -> (r: Vec<Entry>)
    ensures
        r@ == walked(walks@, depth as int),
{
    let mut out: Vec<Entry> = Vec::new();
    let mut w: usize = 0;
    while w < walks.len()
        invariant
            w <= walks@.len(),
            out@ == walked(walks@.take(w as int), depth as int),
        decreases walks@.len() - w,
    {
        let walk = &walks[w];
        let mut k: usize = 0;
        while k < walk.len()
            invariant
                w < walks@.len(),
                *walk == walks@[w as int],
                k <= walk@.len(),
                out@ == walked(walks@.take(w as int), depth as int) + kept(
                    walk@.take(k as int),
                    depth as int,
                ),
            decreases walk@.len() - k,
        {
            let ghost before = walk@.take(k as int);
            assert(walk@.take(k + 1).drop_last() =~= before);
            if walk[k].depth <= depth {
                out.push(walk[k].duplicate());
            }
            k = k + 1;
        }
        assert(walk@.take(k as int) =~= walk@);
        assert(walks@.take(w + 1).drop_last() =~= walks@.take(w as int));
        w = w + 1;
    }
    assert(walks@.take(w as int) =~= walks@);
    out
}

/// Runs a name search: each entry of `kind` whose base name `expression`
/// matches gives a simple result, in entry order.
fn name_finder(entries: &[Entry], expression: &Pattern, kind: EntryKind) -> (r: Vec<SearchResult>)
    ensures
        views(r@) == name_hits(entries@, kind, expression@),
{
    let mut out: Vec<SearchResult> = Vec::new();
    let mut i: usize = 0;
    while i < entries.len()
        invariant
            i <= entries@.len(),
            views(out@) == name_hits(entries@.take(i as int), kind, expression@),
        decreases entries@.len() - i,
    {
        let e = &entries[i];
        assert(entries@.take(i + 1).drop_last() =~= entries@.take(i as int));
        let ghost prev = out@;
        if e.kind == kind && name_matches(expression, e.name.as_str()) {
            out.push(SearchResult::Simple(e.path.clone()));
            assert(views(out@) =~= views(prev) + seq![ResultView::Simple(e.path@)]);
        } else {
            assert(views(out@) =~= views(prev) + Seq::<ResultView>::empty());
        }
        i = i + 1;
    }
    assert(entries@.take(i as int) =~= entries@);
    out
}

/// The directories among `entries` whose base name `expression` matches.
pub fn dir_finder(entries: &[Entry], expression: &Pattern) -> (r: Vec<SearchResult>)
    ensures
        views(r@) == name_hits(entries@, EntryKind::Dir, expression@),
{
    name_finder(entries, expression, EntryKind::Dir)
}

/// The files among `entries` whose base name `expression` matches.
pub fn file_finder(entries: &[Entry], expression: &Pattern) -> (r: Vec<SearchResult>)
    ensures
        views(r@) == name_hits(entries@, EntryKind::File, expression@),
{
    name_finder(entries, expression, EntryKind::File)
}

/// The files among `entries` whose content `expression` matches;
/// `contents[i]` holds the bytes of `entries[i]` when they could be read.
pub fn content_finder(
    entries: &[Entry],
    contents: &[Option<Vec<u8>>],
    expression: &Pattern,
    verbose: bool,
) -> (r: Vec<SearchResult>)
    requires
        contents@.len() == entries@.len(),
    ensures
        views(r@) == content_hits(entries@, contents@, expression@, verbose),
{
    let mut out: Vec<SearchResult> = Vec::new();
    let mut i: usize = 0;
    while i < entries.len()
        invariant
            i <= entries@.len(),
            contents@.len() == entries@.len(),
            views(out@) == content_hits(
                entries@.take(i as int),
                contents@.take(i as int),
                expression@,
                verbose,
            ),
        decreases entries@.len() - i,
    {
        let e = &entries[i];
        assert(entries@.take(i + 1).drop_last() =~= entries@.take(i as int));
        assert(contents@.take(i + 1).drop_last() =~= contents@.take(i as int));
        let ghost prev = out@;
        let ghost hit = file_content_hit(entries@[i as int], contents@[i as int], expression@, verbose);
        let found = if e.kind == EntryKind::File {
            match &contents[i] {
                Some(bytes) => content_match(&e.path, bytes.as_slice(), expression, verbose),
                None => None,
            }
        } else {
            None
        };
        match found {
            Some(res) => {
                out.push(res);
                assert(views(out@) =~= views(prev) + opt_seq(hit));
            },
            None => {
                assert(views(out@) =~= views(prev) + opt_seq(hit));
            },
        }
        i = i + 1;
    }
    assert(entries@.take(i as int) =~= entries@);
    assert(contents@.take(i as int) =~= contents@);
    out
}

/// Runs the search of type `search_type` over `entries`; a content search
/// reads `contents[i]` as the bytes of `entries[i]`.
pub fn finder(
    entries: &[Entry],
    contents: &[Option<Vec<u8>>],
    expression: &Pattern,
    search_type: SearchType,
    verbose: bool,
) -> (r: Vec<SearchResult>)
    requires
        search_type == SearchType::Content ==> contents@.len() == entries@.len(),
    ensures
        views(r@) == search_hits(search_type, entries@, contents@, expression@, verbose),
{
    match search_type {
        SearchType::Dir => dir_finder(entries, expression),
        SearchType::File => file_finder(entries, expression),
        SearchType::Content => content_finder(entries, contents, expression, verbose),
    }
}

} // verus!
