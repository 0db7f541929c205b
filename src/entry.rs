//! The values a search works on and produces.

use vstd::prelude::*;

verus! {

/// What kind of filesystem object a walked entry is.
#[derive(Clone, Copy, Debug, PartialEq, Eq, Structural)]
pub enum EntryKind {
    Dir,
    File,
    Other,
}

/// One entry found by walking a root: its full path, its base name, its kind
/// and how many levels below the root it lies (the root itself is at 0).
pub struct Entry {
    pub path: String,
    pub name: String,
    pub kind: EntryKind,
    pub depth: usize,
}

impl Entry {
    /// A copy of the entry.
    pub fn duplicate(&self) -> (r: Entry)
        ensures
            r == *self,
    {
        Entry { path: self.path.clone(), name: self.name.clone(), kind: self.kind, depth: self.depth }
    }
}

/// Which strategy a search runs.
#[derive(Clone, Copy, Debug, PartialEq, Eq, Structural)]
pub enum SearchType {
    Dir,
    File,
    Content,
}

/// Whether two strings hold the same characters.
fn same_text(a: &str, b: &str) -> (r: bool)
    ensures
        r == (a@ == b@),
{
    let n = a.unicode_len();
    if n != b.unicode_len() {
        return false;
    }
    let mut i: usize = 0;
    while i < n
        invariant
            n == a@.len(),
            n == b@.len(),
            i <= n,
            forall|j: int| 0 <= j < i ==> a@[j] == b@[j],
        decreases n - i,
    {
        if a.get_char(i) != b.get_char(i) {
            return false;
        }
        i = i + 1;
    }
    assert(a@ =~= b@);
    true
}

impl SearchType {
    /// Reads a search type from its name: "dir", "file" or "content".
    pub fn parse(s: &str) -> (r: Option<SearchType>)
        ensures
            r == Some(SearchType::Dir) <==> s@ == "dir"@,
            r == Some(SearchType::File) <==> s@ == "file"@,
            r == Some(SearchType::Content) <==> s@ == "content"@,
    {
        proof {
            reveal_strlit("dir");
            reveal_strlit("file");
            reveal_strlit("content");
            assert("dir"@.len() == 3 && "file"@.len() == 4 && "content"@.len() == 7);
        }
        if same_text(s, "dir") {
            Some(SearchType::Dir)
        } else if same_text(s, "file") {
            Some(SearchType::File)
        } else if same_text(s, "content") {
            Some(SearchType::Content)
        } else {
            None
        }
    }
}

impl std::str::FromStr for SearchType {
    type Err = &'static str;

    fn from_str(s: &str) -> Result<SearchType, &'static str> {
        match SearchType::parse(s) {
            Some(t) => Ok(t),
            None => Err("no match"),
        }
    }
}

/// What a search result is, as values.
pub enum ResultView {
    Simple(Seq<char>),
    Verbose(Seq<char>, Seq<char>),
}

/// A path that satisfied the search, with the first matching line of its
/// content in a verbose content search.
pub enum SearchResult {
    Verbose { path: String, line: String },
    Simple(String),
}

impl View for SearchResult {
    type V = ResultView;

    open spec fn view(&self) -> ResultView {
        match self {
            SearchResult::Verbose { path, line } => ResultView::Verbose(path@, line@),
            SearchResult::Simple(path) => ResultView::Simple(path@),
        }
    }
}

impl SearchResult {
    /// The path of the result.
    pub fn path(&self) -> (r: &String)
        ensures
            r@ == match self@ {
                ResultView::Simple(p) => p,
                ResultView::Verbose(p, _) => p,
            },
    {
        match self {
            SearchResult::Verbose { path, .. } => path,
            SearchResult::Simple(path) => path,
        }
    }

    /// The matching line of a verbose result.
    pub fn line(&self) -> (r: Option<&String>)
        ensures
            self is Verbose <==> r is Some,
            self is Verbose ==> r->0@ == self->line@,
    {
        match self {
            SearchResult::Verbose { line, .. } => Some(line),
            SearchResult::Simple(_) => None,
        }
    }
}

} // verus!
