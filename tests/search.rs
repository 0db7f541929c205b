use fsfind::content::{binary_checker, content_match, first_line_matched};
use fsfind::entry::{Entry, EntryKind, SearchResult, SearchType};
use fsfind::pattern::{name_matches, Pattern};
use fsfind::search::{content_finder, dir_finder, entry_builder, file_finder, finder};

fn entry(path: &str, name: &str, kind: EntryKind, depth: usize) -> Entry {
    Entry { path: path.to_string(), name: name.to_string(), kind, depth }
}

fn pattern(src: &str) -> Pattern {
    match Pattern::new(src) {
        Ok(p) => p,
        Err(e) => panic!("bad pattern {}: {}", src, e.message),
    }
}

fn simple(path: &str) -> SearchResult {
    SearchResult::Simple(path.to_string())
}

fn paths(rs: &[SearchResult]) -> Vec<String> {
    rs.iter().map(|r| r.path().clone()).collect()
}

/// The tree under /r: a/b.txt holding "hello\nworld" and a/img.bin holding a zero byte.
fn sample_tree() -> (Vec<Entry>, Vec<Option<Vec<u8>>>) {
    let entries = vec![
        entry("/r", "r", EntryKind::Dir, 0),
        entry("/r/a", "a", EntryKind::Dir, 1),
        entry("/r/a/b.txt", "b.txt", EntryKind::File, 2),
        entry("/r/a/img.bin", "img.bin", EntryKind::File, 2),
    ];
    let contents = vec![
        None,
        None,
        Some(b"hello\nworld".to_vec()),
        Some(vec![b'w', b'o', b'r', 0, b'l', b'd']),
    ];
    (entries, contents)
}

#[test]
fn content_search_finds_text_file_only() {
    let (entries, contents) = sample_tree();
    let r = content_finder(&entries, &contents, &pattern("wor"), false);
    assert_eq!(paths(&r), vec!["/r/a/b.txt".to_string()]);
    assert!(matches!(&r[0], SearchResult::Simple(_)));
}

#[test]
fn verbose_content_search_reports_line() {
    let (entries, contents) = sample_tree();
    let r = content_finder(&entries, &contents, &pattern("wor"), true);
    assert_eq!(r.len(), 1);
    match &r[0] {
        SearchResult::Verbose { path, line } => {
            assert_eq!(path, "/r/a/b.txt");
            assert_eq!(line, "world");
        }
        SearchResult::Simple(_) => panic!("expected a verbose result"),
    }
}

#[test]
fn file_name_search_by_extension() {
    let (entries, _) = sample_tree();
    let r = file_finder(&entries, &pattern(r"\.txt$"));
    assert_eq!(paths(&r), vec!["/r/a/b.txt".to_string()]);
}

#[test]
fn depth_one_keeps_shallow_directory() {
    let walks = vec![vec![
        entry("/r", "r", EntryKind::Dir, 0),
        entry("/r/x", "x", EntryKind::Dir, 1),
        entry("/r/x/y", "y", EntryKind::Dir, 2),
        entry("/r/x/y/z.txt", "z.txt", EntryKind::File, 3),
    ]];
    let entries = entry_builder(&walks, 1);
    assert_eq!(entries.len(), 2);
    let dirs = dir_finder(&entries, &pattern("x"));
    assert_eq!(paths(&dirs), vec!["/r/x".to_string()]);
    let files = file_finder(&entries, &pattern("z"));
    assert!(files.is_empty());
}

#[test]
fn depth_zero_keeps_roots_only() {
    let walks = vec![
        vec![entry("/r", "r", EntryKind::Dir, 0), entry("/r/s", "s", EntryKind::Dir, 1)],
        vec![entry("/q", "q", EntryKind::Dir, 0), entry("/q/f", "f", EntryKind::File, 1)],
    ];
    let entries = entry_builder(&walks, 0);
    assert_eq!(paths_of(&entries), vec!["/r".to_string(), "/q".to_string()]);
    assert!(dir_finder(&entries, &pattern("s")).is_empty());
    assert_eq!(paths(&dir_finder(&entries, &pattern("."))), vec!["/r".to_string(), "/q".to_string()]);
}

fn paths_of(es: &[Entry]) -> Vec<String> {
    es.iter().map(|e| e.path.clone()).collect()
}

#[test]
fn entry_builder_keeps_root_order() {
    let walks = vec![
        vec![entry("/b", "b", EntryKind::Dir, 0), entry("/b/1", "1", EntryKind::File, 1)],
        vec![],
        vec![entry("/a", "a", EntryKind::Dir, 0)],
    ];
    let entries = entry_builder(&walks, 10);
    assert_eq!(paths_of(&entries), vec!["/b".to_string(), "/b/1".to_string(), "/a".to_string()]);
}

#[test]
fn dir_search_matches_base_name_only() {
    let entries = vec![
        entry("/src/x", "x", EntryKind::Dir, 1),
        entry("/src/y", "y", EntryKind::Dir, 1),
        entry("/src/y/src.txt", "src.txt", EntryKind::File, 2),
    ];
    let r = dir_finder(&entries, &pattern("src"));
    assert!(r.is_empty());
    let r = dir_finder(&entries, &pattern("^y$"));
    assert_eq!(paths(&r), vec!["/src/y".to_string()]);
}

#[test]
fn name_search_ignores_other_kinds() {
    let entries = vec![entry("/r/link", "link", EntryKind::Other, 1)];
    assert!(dir_finder(&entries, &pattern("link")).is_empty());
    assert!(file_finder(&entries, &pattern("link")).is_empty());
}

#[test]
fn binary_detection_looks_at_first_kilobyte() {
    assert!(!binary_checker(&[]));
    assert!(!binary_checker(b"plain text"));
    let mut early = vec![b'a'; 2000];
    early[1023] = 0;
    assert!(binary_checker(&early));
    let mut late = vec![b'a'; 2000];
    late[1024] = 0;
    assert!(!binary_checker(&late));
}

#[test]
fn late_zero_byte_is_still_text() {
    let mut bytes = vec![b'a'; 1500];
    bytes[1400] = 0;
    bytes.extend_from_slice(b"\nneedle");
    let r = content_match(&"/f".to_string(), &bytes, &pattern("needle"), true);
    match r {
        Some(SearchResult::Verbose { line, .. }) => assert_eq!(line, "needle"),
        _ => panic!("expected a verbose result"),
    }
}

#[test]
fn binary_file_is_skipped_even_when_text_matches() {
    let r = content_match(&"/f".to_string(), b"needle\0", &pattern("needle"), false);
    assert!(r.is_none());
}

#[test]
fn first_line_stops_at_first_match() {
    let p = pattern("o");
    let r = first_line_matched(b"abc\nfoo\nboo\n", &p, true);
    assert_eq!(r, Some("foo".to_string()));
}

#[test]
fn crlf_endings_are_removed() {
    let r = first_line_matched(b"one\r\ntwo\r\n", &pattern("tw"), true);
    assert_eq!(r, Some("two".to_string()));
}

#[test]
fn final_carriage_return_without_newline_stays() {
    let r = first_line_matched(b"one\ntwo\r", &pattern("tw"), true);
    assert_eq!(r, Some("two\r".to_string()));
}

#[test]
fn empty_lines_are_lines() {
    let r = first_line_matched(b"a\n\nb", &pattern("^$"), true);
    assert_eq!(r, Some(String::new()));
    let r = first_line_matched(b"a\n", &pattern("^$"), true);
    assert_eq!(r, None);
    let r = first_line_matched(b"", &pattern(""), true);
    assert_eq!(r, None);
}

#[test]
fn plain_match_reports_matched() {
    let r = first_line_matched(b"hello\nworld", &pattern("wor"), false);
    assert_eq!(r, Some("Matched".to_string()));
    let r = first_line_matched(b"hello\nworld", &pattern("xyz"), false);
    assert_eq!(r, None);
}

#[test]
fn match_across_lines_only_in_plain_mode() {
    let p = pattern(r"(?s)a.b");
    assert_eq!(first_line_matched(b"a\nb", &p, false), Some("Matched".to_string()));
    assert_eq!(first_line_matched(b"a\nb", &p, true), None);
}

#[test]
fn invalid_utf8_is_replaced() {
    let r = first_line_matched(&[b'x', 0xff, b'y'], &pattern("x\u{FFFD}y"), true);
    assert_eq!(r, Some("x\u{FFFD}y".to_string()));
}

#[test]
fn unreadable_file_gives_no_result() {
    let entries = vec![entry("/r/locked", "locked", EntryKind::File, 1)];
    let contents = vec![None];
    assert!(content_finder(&entries, &contents, &pattern(""), false).is_empty());
}

#[test]
fn content_search_skips_directories() {
    let entries = vec![entry("/r/d", "d", EntryKind::Dir, 1)];
    let contents = vec![Some(b"match".to_vec())];
    assert!(content_finder(&entries, &contents, &pattern("match"), false).is_empty());
}

#[test]
fn searching_in_pieces_joins_to_whole() {
    let (entries, contents) = sample_tree();
    let p = pattern("o");
    let whole = content_finder(&entries, &contents, &p, true);
    let mut pieces = content_finder(&entries[..3], &contents[..3], &p, true);
    pieces.extend(content_finder(&entries[3..], &contents[3..], &p, true));
    assert_eq!(paths(&whole), paths(&pieces));
}

#[test]
fn repeated_search_gives_same_results() {
    let (entries, contents) = sample_tree();
    let p = pattern("l");
    let first = finder(&entries, &contents, &p, SearchType::Content, false);
    let second = finder(&entries, &contents, &p, SearchType::Content, false);
    assert_eq!(paths(&first), paths(&second));
}

#[test]
fn finder_dispatches_on_type() {
    let (entries, contents) = sample_tree();
    let p = pattern("a");
    assert_eq!(paths(&finder(&entries, &[], &p, SearchType::Dir, false)), vec!["/r/a".to_string()]);
    assert_eq!(
        paths(&finder(&entries, &[], &pattern("i"), SearchType::File, false)),
        vec!["/r/a/img.bin".to_string()]
    );
    assert_eq!(
        paths(&finder(&entries, &contents, &pattern("hello"), SearchType::Content, false)),
        vec!["/r/a/b.txt".to_string()]
    );
}

#[test]
fn search_type_names() {
    assert_eq!(SearchType::parse("dir"), Some(SearchType::Dir));
    assert_eq!(SearchType::parse("file"), Some(SearchType::File));
    assert_eq!(SearchType::parse("content"), Some(SearchType::Content));
    assert_eq!(SearchType::parse("Dir"), None);
    assert_eq!(SearchType::parse(""), None);
    assert_eq!("content".parse::<SearchType>(), Ok(SearchType::Content));
    assert_eq!("files".parse::<SearchType>(), Err("no match"));
}

#[test]
fn invalid_pattern_is_rejected() {
    assert!(Pattern::new("foo(bar").is_err());
    let p = pattern("fo+");
    assert_eq!(p.as_str(), "fo+");
    assert!(name_matches(&p, "xfooo"));
    assert!(!name_matches(&p, "f"));
}

#[test]
fn result_accessors() {
    let v = SearchResult::Verbose { path: "/p".to_string(), line: "l".to_string() };
    assert_eq!(v.path(), "/p");
    assert_eq!(v.line().map(|s| s.as_str()), Some("l"));
    assert!(simple("/q").line().is_none());
}

#[test]
fn unmatched_text_file_is_absent() {
    let (entries, contents) = sample_tree();
    assert!(content_finder(&entries, &contents, &pattern("^world"), false).is_empty());
    assert!(content_finder(&entries, &contents, &pattern("planet"), true).is_empty());
}
