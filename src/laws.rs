//! What holds of every search, stated over the spec functions that the
//! finders' contracts use, and proved.

use crate::content::{byte_lines, content_hit, first_matching, is_binary, line_at, split_from};
use crate::entry::{Entry, EntryKind, ResultView, SearchType};
use crate::pattern::{lossy_text, regex_finds};
use crate::search::{
    content_hits, file_content_hit, kept, name_hit, name_hits, opt_seq, search_hits, walked,
};
use vstd::prelude::*;

verus! {

/// The path a result names.
pub open spec fn result_path(v: ResultView) -> Seq<char> {
    match v {
        ResultView::Simple(p) => p,
        ResultView::Verbose(p, _) => p,
    }
}

/// How many times `v` stands in `rs`.
pub open spec fn occurrences(rs: Seq<ResultView>, v: ResultView) -> nat
    decreases rs.len(),
{
    if rs.len() == 0 {
        0
    } else {
        occurrences(rs.drop_last(), v) + if rs.last() == v {
            1nat
        } else {
            0nat
        }
    }
}

/// Whether `e` is entry `k` of walk `w`.
pub open spec fn in_walks(walks: Seq<Vec<Entry>>, e: Entry) -> bool {
    exists|w: int, k: int| 0 <= w < walks.len() && 0 <= k < walks[w]@.len() && #[trigger] walks[w]@[k] == e
}

proof fn lemma_kept_contains(es: Seq<Entry>, depth: int, e: Entry)
    ensures
        kept(es, depth).contains(e) <==> (es.contains(e) && e.depth <= depth),
    decreases es.len(),
{
    if es.len() > 0 {
        lemma_kept_contains(es.drop_last(), depth, e);
        assert(es =~= es.drop_last().push(es.last()));
        if es.contains(e) && e != es.last() {
            let i = choose|i: int| 0 <= i < es.len() && es[i] == e;
            assert(es.drop_last()[i] == e);
        }
        if es.drop_last().contains(e) {
            let i = choose|i: int| 0 <= i < es.drop_last().len() && es.drop_last()[i] == e;
            assert(es[i] == e);
        }
        if es.last().depth <= depth {
            let r = kept(es.drop_last(), depth);
            if r.push(es.last()).contains(e) && e != es.last() {
                let i = choose|i: int| 0 <= i < r.push(es.last()).len() && r.push(es.last())[i] == e;
                assert(r[i] == e);
            }
            if r.contains(e) {
                let i = choose|i: int| 0 <= i < r.len() && r[i] == e;
                assert(r.push(es.last())[i] == e);
            }
            assert(r.push(es.last())[r.len() as int] == es.last());
        }
        if e == es.last() {
            assert(es[es.len() - 1] == e);
        }
    }
}

proof fn lemma_walked_contains(walks: Seq<Vec<Entry>>, depth: int, e: Entry)
    ensures
        walked(walks, depth).contains(e) <==> (in_walks(walks, e) && e.depth <= depth),
    decreases walks.len(),
{
    if walks.len() > 0 {
        let init = walks.drop_last();
        let a = walked(init, depth);
        let b = kept(walks.last()@, depth);
        lemma_walked_contains(init, depth, e);
        lemma_kept_contains(walks.last()@, depth, e);
        if (a + b).contains(e) {
            let i = choose|i: int| 0 <= i < (a + b).len() && (a + b)[i] == e;
            if i < a.len() {
                assert(a[i] == e);
                let (w, k) = choose|w: int, k: int|
                    0 <= w < init.len() && 0 <= k < init[w]@.len() && #[trigger] init[w]@[k] == e;
                assert(walks[w]@[k] == e);
            } else {
                assert(b[i - a.len()] == e);
                let j = choose|j: int| 0 <= j < walks.last()@.len() && walks.last()@[j] == e;
                assert(walks[walks.len() - 1]@[j] == e);
            }
        }
        if in_walks(walks, e) && e.depth <= depth {
            let (w, k) = choose|w: int, k: int|
                0 <= w < walks.len() && 0 <= k < walks[w]@.len() && #[trigger] walks[w]@[k] == e;
            if w < init.len() {
                assert(init[w]@[k] == e);
                let i = choose|i: int| 0 <= i < a.len() && a[i] == e;
                assert((a + b)[i] == e);
            } else {
                assert(walks.last()@[k] == e);
                let i = choose|i: int| 0 <= i < b.len() && b[i] == e;
                assert((a + b)[a.len() + i] == e);
            }
        }
    }
}

proof fn lemma_seq_opt_contains(a: Seq<ResultView>, o: Option<ResultView>, v: ResultView)
    ensures
        (a + opt_seq(o)).contains(v) <==> (a.contains(v) || o == Some(v)),
{
    let s = a + opt_seq(o);
    if s.contains(v) {
        let i = choose|i: int| 0 <= i < s.len() && s[i] == v;
        if i < a.len() {
            assert(a[i] == v);
        }
    }
    if a.contains(v) {
        let i = choose|i: int| 0 <= i < a.len() && a[i] == v;
        assert(s[i] == v);
    }
    if o == Some(v) {
        assert(s[a.len() as int] == v);
    }
}

proof fn lemma_name_hits_contains(es: Seq<Entry>, kind: EntryKind, p: Seq<char>, v: ResultView)
    ensures
        name_hits(es, kind, p).contains(v) <==> exists|i: int|
            0 <= i < es.len() && #[trigger] name_hit(es[i], kind, p) == Some(v),
    decreases es.len(),
{
    if es.len() > 0 {
        let init = es.drop_last();
        lemma_name_hits_contains(init, kind, p, v);
        lemma_seq_opt_contains(name_hits(init, kind, p), name_hit(es.last(), kind, p), v);
        if exists|i: int| 0 <= i < es.len() && #[trigger] name_hit(es[i], kind, p) == Some(v) {
            let i = choose|i: int| 0 <= i < es.len() && #[trigger] name_hit(es[i], kind, p) == Some(v);
            if i < init.len() {
                assert(name_hit(init[i], kind, p) == Some(v));
            }
        }
        if exists|i: int| 0 <= i < init.len() && #[trigger] name_hit(init[i], kind, p) == Some(v) {
            let i = choose|i: int| 0 <= i < init.len() && #[trigger] name_hit(init[i], kind, p) == Some(v);
            assert(name_hit(es[i], kind, p) == Some(v));
        }
    }
}

/// A name search over the walks of some roots, cut at `depth`, gives
/// exactly the entries of the sought kind within `depth` whose base name
/// the pattern matches.
pub proof fn name_search_exact(walks: Seq<Vec<Entry>>, depth: int, kind: EntryKind, p: Seq<char>)
    ensures
        forall|v: ResultView|
            #![trigger name_hits(walked(walks, depth), kind, p).contains(v)]
            name_hits(walked(walks, depth), kind, p).contains(v) <==> exists|e: Entry|
                #![trigger in_walks(walks, e)]
                in_walks(walks, e) && e.depth <= depth && e.kind == kind && regex_finds(p, e.name@)
                    && v == ResultView::Simple(e.path@),
{
    let es = walked(walks, depth);
    assert forall|v: ResultView|
        #![trigger name_hits(walked(walks, depth), kind, p).contains(v)]
        name_hits(es, kind, p).contains(v) <==> exists|e: Entry|
            #![trigger in_walks(walks, e)]
            in_walks(walks, e) && e.depth <= depth && e.kind == kind && regex_finds(p, e.name@) && v
                == ResultView::Simple(e.path@) by {
        lemma_name_hits_contains(es, kind, p, v);
        if name_hits(es, kind, p).contains(v) {
            let i = choose|i: int| 0 <= i < es.len() && #[trigger] name_hit(es[i], kind, p) == Some(v);
            lemma_walked_contains(walks, depth, es[i]);
            assert(es.contains(es[i]));
        }
        if exists|e: Entry|
            #![trigger in_walks(walks, e)]
            in_walks(walks, e) && e.depth <= depth && e.kind == kind && regex_finds(p, e.name@) && v
                == ResultView::Simple(e.path@) {
            let e = choose|e: Entry|
                #![trigger in_walks(walks, e)]
                in_walks(walks, e) && e.depth <= depth && e.kind == kind && regex_finds(p, e.name@)
                    && v == ResultView::Simple(e.path@);
            lemma_walked_contains(walks, depth, e);
            let i = choose|i: int| 0 <= i < es.len() && es[i] == e;
            assert(name_hit(es[i], kind, p) == Some(v));
        }
    }
}

/// A directory search gives exactly the directories within `depth` whose
/// base name the pattern matches.
pub proof fn dir_search_exact(walks: Seq<Vec<Entry>>, depth: int, p: Seq<char>)
    ensures
        forall|v: ResultView|
            #![trigger name_hits(walked(walks, depth), EntryKind::Dir, p).contains(v)]
            name_hits(walked(walks, depth), EntryKind::Dir, p).contains(v) <==> exists|e: Entry|
                #![trigger in_walks(walks, e)]
                in_walks(walks, e) && e.depth <= depth && e.kind == EntryKind::Dir && regex_finds(
                    p,
                    e.name@,
                ) && v == ResultView::Simple(e.path@),
{
    name_search_exact(walks, depth, EntryKind::Dir, p);
}

/// A file-name search gives exactly the files within `depth` whose base
/// name the pattern matches.
pub proof fn file_search_exact(walks: Seq<Vec<Entry>>, depth: int, p: Seq<char>)
    ensures
        forall|v: ResultView|
            #![trigger name_hits(walked(walks, depth), EntryKind::File, p).contains(v)]
            name_hits(walked(walks, depth), EntryKind::File, p).contains(v) <==> exists|e: Entry|
                #![trigger in_walks(walks, e)]
                in_walks(walks, e) && e.depth <= depth && e.kind == EntryKind::File && regex_finds(
                    p,
                    e.name@,
                ) && v == ResultView::Simple(e.path@),
{
    name_search_exact(walks, depth, EntryKind::File, p);
}

proof fn lemma_content_hits_contains(
    es: Seq<Entry>,
    cs: Seq<Option<Vec<u8>>>,
    p: Seq<char>,
    verbose: bool,
    v: ResultView,
)
    requires
        cs.len() == es.len(),
    ensures
        content_hits(es, cs, p, verbose).contains(v) ==> exists|i: int|
            0 <= i < es.len() && #[trigger] file_content_hit(es[i], cs[i], p, verbose) == Some(v),
    decreases es.len(),
{
    if es.len() > 0 {
        let init = es.drop_last();
        lemma_content_hits_contains(init, cs.drop_last(), p, verbose, v);
        lemma_seq_opt_contains(
            content_hits(init, cs.drop_last(), p, verbose),
            file_content_hit(es.last(), cs.last(), p, verbose),
            v,
        );
        if content_hits(init, cs.drop_last(), p, verbose).contains(v) {
            let i = choose|i: int|
                0 <= i < init.len() && #[trigger] file_content_hit(
                    init[i],
                    cs.drop_last()[i],
                    p,
                    verbose,
                ) == Some(v);
            assert(file_content_hit(es[i], cs[i], p, verbose) == Some(v));
        }
        if file_content_hit(es.last(), cs.last(), p, verbose) == Some(v) {
            assert(file_content_hit(es[es.len() - 1], cs[es.len() - 1], p, verbose) == Some(v));
        }
    }
}

proof fn lemma_hit_path(e: Entry, c: Option<Vec<u8>>, p: Seq<char>, verbose: bool)
    ensures
        file_content_hit(e, c, p, verbose) is Some ==> result_path(
            file_content_hit(e, c, p, verbose)->0,
        ) == e.path@,
{
}

proof fn lemma_occurrences_push(a: Seq<ResultView>, o: Option<ResultView>, v: ResultView)
    ensures
        occurrences(a + opt_seq(o), v) == occurrences(a, v) + if o == Some(v) {
            1nat
        } else {
            0nat
        },
{
    match o {
        Some(x) => {
            assert((a + opt_seq(o)).drop_last() =~= a);
        },
        None => {
            assert(a + opt_seq(o) =~= a);
        },
    }
}

proof fn lemma_occurrences_absent(
    es: Seq<Entry>,
    cs: Seq<Option<Vec<u8>>>,
    p: Seq<char>,
    verbose: bool,
    v: ResultView,
)
    requires
        cs.len() == es.len(),
        forall|j: int| 0 <= j < es.len() ==> #[trigger] es[j].path@ != result_path(v),
    ensures
        occurrences(content_hits(es, cs, p, verbose), v) == 0,
    decreases es.len(),
{
    if es.len() > 0 {
        let init = es.drop_last();
        assert forall|j: int| 0 <= j < init.len() implies #[trigger] init[j].path@ != result_path(v) by {
            assert(init[j] == es[j]);
        }
        lemma_occurrences_absent(init, cs.drop_last(), p, verbose, v);
        lemma_hit_path(es.last(), cs.last(), p, verbose);
        assert(es.last() == es[es.len() - 1]);
        lemma_occurrences_push(
            content_hits(init, cs.drop_last(), p, verbose),
            file_content_hit(es.last(), cs.last(), p, verbose),
            v,
        );
    }
}

proof fn lemma_occurrences_single(
    es: Seq<Entry>,
    cs: Seq<Option<Vec<u8>>>,
    p: Seq<char>,
    verbose: bool,
    i: int,
    v: ResultView,
)
    requires
        cs.len() == es.len(),
        0 <= i < es.len(),
        result_path(v) == es[i].path@,
        forall|j: int| 0 <= j < es.len() && j != i ==> #[trigger] es[j].path@ != es[i].path@,
    ensures
        occurrences(content_hits(es, cs, p, verbose), v) == if file_content_hit(
            es[i],
            cs[i],
            p,
            verbose,
        ) == Some(v) {
            1nat
        } else {
            0nat
        },
    decreases es.len(),
{
    let init = es.drop_last();
    let last = es.len() - 1;
    assert(es.last() == es[last]);
    assert(cs.last() == cs[last]);
    lemma_occurrences_push(
        content_hits(init, cs.drop_last(), p, verbose),
        file_content_hit(es.last(), cs.last(), p, verbose),
        v,
    );
    if i == last {
        assert forall|j: int| 0 <= j < init.len() implies #[trigger] init[j].path@ != result_path(
            v,
        ) by {
            assert(init[j] == es[j]);
        }
        lemma_occurrences_absent(init, cs.drop_last(), p, verbose, v);
    } else {
        assert forall|j: int| 0 <= j < init.len() && j != i implies #[trigger] init[j].path@
            != init[i].path@ by {
            assert(init[j] == es[j]);
        }
        assert(init[i] == es[i]);
        assert(cs.drop_last()[i] == cs[i]);
        lemma_occurrences_single(init, cs.drop_last(), p, verbose, i, v);
        lemma_hit_path(es.last(), cs.last(), p, verbose);
    }
}

/// Whether some line of `b`, decoded, is matched by `p`.
pub open spec fn some_line_matches(b: Seq<u8>, p: Seq<char>) -> bool {
    exists|j: int| 0 <= j < byte_lines(b).len() && regex_finds(p, lossy_text(#[trigger] byte_lines(b)[j]))
}

/// A readable text file that some line of which the pattern matches is
/// reported exactly once by a plain content search, and a file with no
/// matching line not at all. Whole-text matching and line matching agree
/// only where the pattern cannot match across a line break, so the law is
/// stated for such files.
pub proof fn content_reports_matching_file_once(
    es: Seq<Entry>,
    cs: Seq<Option<Vec<u8>>>,
    p: Seq<char>,
    i: int,
)
    requires
        cs.len() == es.len(),
        0 <= i < es.len(),
        forall|j: int| 0 <= j < es.len() && j != i ==> #[trigger] es[j].path@ != es[i].path@,
        es[i].kind == EntryKind::File,
        cs[i] is Some,
        !is_binary(cs[i]->0@),
        some_line_matches(cs[i]->0@, p) == regex_finds(p, lossy_text(cs[i]->0@)),
    ensures
        occurrences(content_hits(es, cs, p, false), ResultView::Simple(es[i].path@)) == if some_line_matches(
            cs[i]->0@,
            p,
        ) {
            1nat
        } else {
            0nat
        },
{
    lemma_occurrences_single(es, cs, p, false, i, ResultView::Simple(es[i].path@));
}

/// A binary file never stands in the results of a content search, verbose
/// or not, whatever its text holds.
pub proof fn binary_files_never_reported(
    es: Seq<Entry>,
    cs: Seq<Option<Vec<u8>>>,
    p: Seq<char>,
    verbose: bool,
    i: int,
)
    requires
        cs.len() == es.len(),
        0 <= i < es.len(),
        forall|j: int| 0 <= j < es.len() && j != i ==> #[trigger] es[j].path@ != es[i].path@,
        cs[i] is Some,
        is_binary(cs[i]->0@),
    ensures
        forall|v: ResultView|
            #[trigger] content_hits(es, cs, p, verbose).contains(v) ==> result_path(v) != es[i].path@,
{
    assert forall|v: ResultView|
        #[trigger] content_hits(es, cs, p, verbose).contains(v) implies result_path(v)
        != es[i].path@ by {
        lemma_content_hits_contains(es, cs, p, verbose, v);
        let j = choose|j: int|
            0 <= j < es.len() && #[trigger] file_content_hit(es[j], cs[j], p, verbose) == Some(v);
        lemma_hit_path(es[j], cs[j], p, verbose);
    }
}

/// The first matching line is the first line, in document order, that the
/// pattern matches: every line before it fails to match, and there is none
/// when no line matches.
pub proof fn first_matching_is_first(lines: Seq<Seq<u8>>, p: Seq<char>)
    ensures
        first_matching(lines, p) is None <==> forall|j: int|
            0 <= j < lines.len() ==> !regex_finds(p, lossy_text(#[trigger] lines[j])),
        first_matching(lines, p) is Some ==> exists|j: int|
            0 <= j < lines.len() && first_matching(lines, p) == Some(lossy_text(#[trigger] lines[j]))
                && regex_finds(p, lossy_text(lines[j])) && forall|k: int|
                0 <= k < j ==> !regex_finds(p, lossy_text(#[trigger] lines[k])),
    decreases lines.len(),
{
    if lines.len() > 0 {
        let rest = lines.drop_first();
        first_matching_is_first(rest, p);
        if !regex_finds(p, lossy_text(lines[0])) {
            assert forall|j: int| 0 < j < lines.len() implies #[trigger] lines[j] == rest[j - 1] by {}
            if first_matching(rest, p) is Some {
                let j = choose|j: int|
                    0 <= j < rest.len() && first_matching(rest, p) == Some(lossy_text(#[trigger] rest[j]))
                        && regex_finds(p, lossy_text(rest[j])) && forall|k: int|
                        0 <= k < j ==> !regex_finds(p, lossy_text(#[trigger] rest[k]));
                assert(lines[j + 1] == rest[j]);
                assert forall|k: int| 0 <= k < j + 1 implies !regex_finds(p, lossy_text(#[trigger] lines[k])) by {
                    if k > 0 {
                        assert(lines[k] == rest[k - 1]);
                    }
                }
            } else {
                assert forall|j: int| 0 <= j < lines.len() implies !regex_finds(p, lossy_text(#[trigger] lines[j])) by {
                    if j > 0 {
                        assert(lines[j] == rest[j - 1]);
                    }
                }
            }
        }
    }
}

proof fn lemma_split_has_no_newline(b: Seq<u8>, s: int, i: int)
    requires
        0 <= s <= i,
        forall|k: int| s <= k < i && k < b.len() ==> b[k] != 10u8,
    ensures
        forall|j: int, k: int|
            0 <= j < split_from(b, s, i).len() && 0 <= k < split_from(b, s, i)[j].len() ==> #[trigger] split_from(
                b,
                s,
                i,
            )[j][k] != 10u8,
    decreases b.len() - i,
{
    if i >= b.len() {
        if s < b.len() {
            let l = line_at(b, s, b.len() as int, false);
            assert forall|k: int| 0 <= k < l.len() implies l[k] != 10u8 by {
                assert(l[k] == b[s + k]);
            }
            assert(split_from(b, s, i) == seq![l]);
        } else {
            assert(split_from(b, s, i).len() == 0);
        }
    } else if b[i] == 10u8 {
        lemma_split_has_no_newline(b, i + 1, i + 1);
        let l = line_at(b, s, i, true);
        let rest = split_from(b, i + 1, i + 1);
        assert forall|k: int| 0 <= k < l.len() implies l[k] != 10u8 by {
            assert(l[k] == b[s + k]);
        }
        let all = split_from(b, s, i);
        assert(all == seq![l] + rest);
        assert forall|j: int, k: int| 0 <= j < all.len() && 0 <= k < all[j].len() implies #[trigger] all[j][k]
            != 10u8 by {
            if j == 0 {
                assert(all[j] == l);
            } else {
                assert(all[j] == rest[j - 1]);
            }
        }
    } else {
        lemma_split_has_no_newline(b, s, i + 1);
        assert(split_from(b, s, i) == split_from(b, s, i + 1));
    }
}

/// No line of a file's content holds a newline byte: a reported line is the
/// text between two line breaks, without the break itself.
pub proof fn lines_hold_no_newline(b: Seq<u8>)
    ensures
        forall|j: int, k: int|
            0 <= j < byte_lines(b).len() && 0 <= k < byte_lines(b)[j].len() ==> #[trigger] byte_lines(
                b,
            )[j][k] != 10u8,
{
    lemma_split_has_no_newline(b, 0, 0);
}

/// A verbose content search reports, for a readable text file, the first
/// line of its content that the pattern matches.
pub proof fn verbose_reports_first_matching_line(path: Seq<char>, b: Seq<u8>, p: Seq<char>)
    requires
        !is_binary(b),
    ensures
        content_hit(path, b, p, true) is Some <==> some_line_matches(b, p),
        content_hit(path, b, p, true) is Some ==> exists|j: int|
            0 <= j < byte_lines(b).len() && content_hit(path, b, p, true) == Some(
                ResultView::Verbose(path, lossy_text(#[trigger] byte_lines(b)[j])),
            ) && regex_finds(p, lossy_text(byte_lines(b)[j])) && forall|k: int|
                0 <= k < j ==> !regex_finds(p, lossy_text(#[trigger] byte_lines(b)[k])),
{
    first_matching_is_first(byte_lines(b), p);
}

/// With a depth of zero, every result of any search names an entry that
/// stands directly at its root.
pub proof fn depth_zero_stays_at_root(
    walks: Seq<Vec<Entry>>,
    t: SearchType,
    cs: Seq<Option<Vec<u8>>>,
    p: Seq<char>,
    verbose: bool,
)
    requires
        t == SearchType::Content ==> cs.len() == walked(walks, 0).len(),
    ensures
        forall|v: ResultView|
            #[trigger] search_hits(t, walked(walks, 0), cs, p, verbose).contains(v) ==> exists|e: Entry|
                #![trigger in_walks(walks, e)]
                in_walks(walks, e) && e.depth == 0 && result_path(v) == e.path@,
{
    let es = walked(walks, 0);
    assert forall|v: ResultView|
        #[trigger] search_hits(t, es, cs, p, verbose).contains(v) implies exists|e: Entry|
            #![trigger in_walks(walks, e)]
            in_walks(walks, e) && e.depth == 0 && result_path(v) == e.path@ by {
        let i = if t == SearchType::Content {
            lemma_content_hits_contains(es, cs, p, verbose, v);
            let i = choose|i: int|
                0 <= i < es.len() && #[trigger] file_content_hit(es[i], cs[i], p, verbose) == Some(v);
            lemma_hit_path(es[i], cs[i], p, verbose);
            i
        } else {
            let kind = if t == SearchType::Dir {
                EntryKind::Dir
            } else {
                EntryKind::File
            };
            lemma_name_hits_contains(es, kind, p, v);
            choose|i: int| 0 <= i < es.len() && #[trigger] name_hit(es[i], kind, p) == Some(v)
        };
        assert(es.contains(es[i]));
        lemma_walked_contains(walks, 0, es[i]);
    }
}

/// A content search over two runs of entries, one after the other, gives
/// the results of each run in turn; so the entries may be searched in
/// pieces, side by side, and the results joined.
pub proof fn content_hits_split(
    es1: Seq<Entry>,
    cs1: Seq<Option<Vec<u8>>>,
    es2: Seq<Entry>,
    cs2: Seq<Option<Vec<u8>>>,
    p: Seq<char>,
    verbose: bool,
)
    requires
        cs1.len() == es1.len(),
        cs2.len() == es2.len(),
    ensures
        content_hits(es1 + es2, cs1 + cs2, p, verbose) == content_hits(es1, cs1, p, verbose)
            + content_hits(es2, cs2, p, verbose),
    decreases es2.len(),
{
    if es2.len() == 0 {
        assert(es1 + es2 =~= es1);
        assert(cs1 + cs2 =~= cs1);
        assert(content_hits(es1, cs1, p, verbose) + content_hits(es2, cs2, p, verbose)
            =~= content_hits(es1, cs1, p, verbose));
    } else {
        content_hits_split(es1, cs1, es2.drop_last(), cs2.drop_last(), p, verbose);
        assert((es1 + es2).drop_last() =~= es1 + es2.drop_last());
        assert((cs1 + cs2).drop_last() =~= cs1 + cs2.drop_last());
        assert((es1 + es2).last() == es2.last());
        assert((cs1 + cs2).last() == cs2.last());
        let h = file_content_hit(es2.last(), cs2.last(), p, verbose);
        assert(content_hits(es1, cs1, p, verbose) + content_hits(es2.drop_last(), cs2.drop_last(), p, verbose)
            + opt_seq(h) =~= content_hits(es1, cs1, p, verbose) + (content_hits(
            es2.drop_last(),
            cs2.drop_last(),
            p,
            verbose,
        ) + opt_seq(h)));
    }
}

/// A search is a function of what it is given: the same entries, contents,
/// pattern and options give the same results, whichever order the results
/// of separately searched pieces are joined in.
pub proof fn search_is_repeatable(
    t: SearchType,
    es: Seq<Entry>,
    cs: Seq<Option<Vec<u8>>>,
    p: Seq<char>,
    verbose: bool,
    first: Seq<ResultView>,
    second: Seq<ResultView>,
)
    requires
        first == search_hits(t, es, cs, p, verbose),
        second == search_hits(t, es, cs, p, verbose),
    ensures
        first.to_set() == second.to_set(),
{
}

/// A plain content search leaves out a readable text file whose text the
/// pattern does not match: no result names it.
pub proof fn content_omits_unmatched_file(
    es: Seq<Entry>,
    cs: Seq<Option<Vec<u8>>>,
    p: Seq<char>,
    i: int,
)
    requires
        cs.len() == es.len(),
        0 <= i < es.len(),
        forall|j: int| 0 <= j < es.len() && j != i ==> #[trigger] es[j].path@ != es[i].path@,
        cs[i] is Some,
        !regex_finds(p, lossy_text(cs[i]->0@)),
    ensures
        forall|v: ResultView|
            #[trigger] content_hits(es, cs, p, false).contains(v) ==> result_path(v) != es[i].path@,
{
    assert forall|v: ResultView|
        #[trigger] content_hits(es, cs, p, false).contains(v) implies result_path(v)
        != es[i].path@ by {
        lemma_content_hits_contains(es, cs, p, false, v);
        let j = choose|j: int|
            0 <= j < es.len() && #[trigger] file_content_hit(es[j], cs[j], p, false) == Some(v);
        lemma_hit_path(es[j], cs[j], p, false);
    }
}

/// A verbose content search reports a readable text file with a matching
/// line exactly once, together with the first line of its content that the
/// pattern matches, and gives no other result for that file.
pub proof fn verbose_search_reports_first_line(
    es: Seq<Entry>,
    cs: Seq<Option<Vec<u8>>>,
    p: Seq<char>,
    i: int,
)
    requires
        cs.len() == es.len(),
        0 <= i < es.len(),
        forall|j: int| 0 <= j < es.len() && j != i ==> #[trigger] es[j].path@ != es[i].path@,
        es[i].kind == EntryKind::File,
        cs[i] is Some,
        !is_binary(cs[i]->0@),
        some_line_matches(cs[i]->0@, p),
    ensures
        exists|j: int|
            0 <= j < byte_lines(cs[i]->0@).len() && regex_finds(
                p,
                lossy_text(#[trigger] byte_lines(cs[i]->0@)[j]),
            ) && (forall|k: int|
                0 <= k < j ==> !regex_finds(p, lossy_text(#[trigger] byte_lines(cs[i]->0@)[k])))
                && occurrences(
                content_hits(es, cs, p, true),
                ResultView::Verbose(es[i].path@, lossy_text(byte_lines(cs[i]->0@)[j])),
            ) == 1 && forall|v: ResultView|
                #[trigger] content_hits(es, cs, p, true).contains(v) && result_path(v)
                    == es[i].path@ ==> v == ResultView::Verbose(
                    es[i].path@,
                    lossy_text(byte_lines(cs[i]->0@)[j]),
                ),
{
    let b = cs[i]->0@;
    let path = es[i].path@;
    verbose_reports_first_matching_line(path, b, p);
    let j = choose|j: int|
        0 <= j < byte_lines(b).len() && content_hit(path, b, p, true) == Some(
            ResultView::Verbose(path, lossy_text(#[trigger] byte_lines(b)[j])),
        ) && regex_finds(p, lossy_text(byte_lines(b)[j])) && forall|k: int|
            0 <= k < j ==> !regex_finds(p, lossy_text(#[trigger] byte_lines(b)[k]));
    let w = ResultView::Verbose(path, lossy_text(byte_lines(b)[j]));
    assert(file_content_hit(es[i], cs[i], p, true) == Some(w));
    lemma_occurrences_single(es, cs, p, true, i, w);
    assert forall|v: ResultView|
        #[trigger] content_hits(es, cs, p, true).contains(v) && result_path(v) == path implies v
        == w by {
        lemma_content_hits_contains(es, cs, p, true, v);
        let k = choose|k: int|
            0 <= k < es.len() && #[trigger] file_content_hit(es[k], cs[k], p, true) == Some(v);
        lemma_hit_path(es[k], cs[k], p, true);
    }
}

} // verus!
