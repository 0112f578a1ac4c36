//! Finding the translation files of a source tree.
//!
//! The walk keeps the files whose name matches a pattern and stays out of
//! every directory whose name is on a skip list, at whatever level the
//! directory stands. Listing a directory is the caller's part. A `Search`
//! holds what is known so far: it names the directory whose listing it needs
//! next, takes that listing, and sorts its entries into directories still to
//! be listed and files that were found. When no directory is left the search
//! is complete.
//!
//! A directory that is reached over a chain of more than `MAX_DEPTH`
//! directories below the root is not entered, so that a tree that loops back
//! into itself cannot keep a search going for ever.

use vstd::prelude::*;
use vstd::string::*;

verus! {

/// How many levels of directories below the root a search enters.
pub const MAX_DEPTH: usize = 256;

/// Why a search for translation files failed.
#[derive(Debug)]
pub enum SearchAllTranslationsFilesError {
    /// The directory could not be listed.
    UnableToReadPath(String, std::io::Error),
    /// The pattern for file names is no regular expression; with the pattern
    /// comes what is wrong with it.
    InvalidRegexPattern(String, String),
}

impl SearchAllTranslationsFilesError {
    /// The error in words.
    pub open spec fn spec_message(&self) -> Seq<char> {
        match self {
            SearchAllTranslationsFilesError::UnableToReadPath(path, _) => "Unable to read path: "@ + path@,
            SearchAllTranslationsFilesError::InvalidRegexPattern(pattern, reason) => "Invalid regex pattern: "@
                + pattern@ + " - "@ + reason@,
        }
    }

    /// The error in words.
    pub fn message(&self) -> (message: String)
        ensures
            message@ == self.spec_message(),
    {
        match self {
            SearchAllTranslationsFilesError::UnableToReadPath(path, _) => String::from_str(
                "Unable to read path: ",
            ).concat(path.as_str()),
            SearchAllTranslationsFilesError::InvalidRegexPattern(pattern, reason) => String::from_str(
                "Invalid regex pattern: ",
            ).concat(pattern.as_str()).concat(" - ").concat(reason.as_str()),
        }
    }
}

/// What listing a directory tells of one of its entries.
#[derive(Debug, Clone)]
pub enum Entry {
    /// A directory, with its path and its name, where it has one.
    Directory { path: String, name: Option<String> },
    /// A regular file, with its path and its name.
    File { path: String, file_name: String },
    /// Anything else.
    Other,
}

/// An entry as the contracts see it.
pub enum EntryView {
    Directory { path: Seq<char>, name: Option<Seq<char>> },
    File { path: Seq<char>, file_name: Seq<char> },
    Other,
}

impl View for Entry {
    type V = EntryView;

    open spec fn view(&self) -> EntryView {
        match self {
            Entry::Directory { path, name } => EntryView::Directory {
                path: path@,
                name: match name {
                    Some(n) => Some(n@),
                    None => None,
                },
            },
            Entry::File { path, file_name } => EntryView::File { path: path@, file_name: file_name@ },
            Entry::Other => EntryView::Other,
        }
    }
}

impl DeepView for Entry {
    type V = EntryView;

    open spec fn deep_view(&self) -> EntryView {
        self@
    }
}

/// What `regex::Regex::new` says against a pattern: `None` where the pattern
/// compiles, and else the text of the error.
pub uninterp spec fn regex_error(pattern: Seq<char>) -> Option<Seq<char>>;

/// Whether the regular expression `pattern` matches somewhere in `text`, as
/// `regex::Regex::is_match` tells it for the compiled pattern.
pub uninterp spec fn regex_is_match(pattern: Seq<char>, text: Seq<char>) -> bool;

/// Compiles `pattern` with `regex::Regex::new` and hands out the error's
/// text where that fails. The contract gives the outcome its name and claims
/// no more: that it depends on the pattern alone.
#[verifier::external_body]
fn pattern_error(pattern: &str) -> (error: Option<String>)
    ensures
        match error {
            Some(text) => regex_error(pattern@) == Some(text@),
            None => regex_error(pattern@) is None,
        },
{
    regex::Regex::new(pattern).err().map(|e| e.to_string())
}

/// Compiles `pattern` with `regex::Regex::new` and asks the result, with
/// `regex::Regex::is_match`, whether it matches somewhere in `text`. The
/// answer is `None` exactly where the pattern does not compile; a pattern
/// that compiles gives the answer that bears the name `regex_is_match`.
#[verifier::external_body]
fn is_match(pattern: &str, text: &str) -> (matched: Option<bool>)
    ensures
        matched == if regex_error(pattern@) is None {
            Some(regex_is_match(pattern@, text@))
        } else {
            None
        },
{
    regex::Regex::new(pattern).ok().map(|re| re.is_match(text))
}

/// A directory with this name is skipped: it has a name, and the name
/// stands on the skip list.
pub open spec fn should_skip(name: Option<Seq<char>>, paths_to_skip: Seq<Seq<char>>) -> bool {
    name matches Some(n) && paths_to_skip.contains(n)
}

/// The search enters this entry: a directory that is not skipped.
pub open spec fn enters(paths_to_skip: Seq<Seq<char>>, entry: EntryView) -> bool {
    entry matches EntryView::Directory { name, .. } && !should_skip(name, paths_to_skip)
}

/// The search keeps this entry: a file whose name matches the pattern. A
/// pattern that does not compile matches nothing.
pub open spec fn keeps(pattern: Seq<char>, entry: EntryView) -> bool {
    &&& entry matches EntryView::File { file_name, .. }
    &&& regex_error(pattern) is None
    &&& regex_is_match(pattern, file_name)
}

/// The path of an entry that has one.
pub open spec fn entry_path(entry: EntryView) -> Seq<char> {
    match entry {
        EntryView::Directory { path, .. } => path,
        EntryView::File { path, .. } => path,
        EntryView::Other => Seq::empty(),
    }
}

/// A search as the contracts see it.
pub struct SearchView {
    /// The pattern that a file's name must match.
    pub pattern: Seq<char>,
    /// The names of the directories that are not entered.
    pub paths_to_skip: Seq<Seq<char>>,
    /// The directories still to be listed, the next one last, each with the
    /// number of levels below it that may still be entered.
    pub pending: Seq<(Seq<char>, nat)>,
    /// The files found so far.
    pub results: Seq<Seq<char>>,
}

impl SearchView {
    /// The search after it has seen one entry of a directory below which
    /// `depth` levels may be entered.
    pub open spec fn saw(self, entry: EntryView, depth: nat) -> SearchView {
        if enters(self.paths_to_skip, entry) && depth > 0 {
            SearchView { pending: self.pending.push((entry_path(entry), (depth - 1) as nat)), ..self }
        } else if keeps(self.pattern, entry) {
            SearchView { results: self.results.push(entry_path(entry)), ..self }
        } else {
            self
        }
    }

    /// The search after it has seen the first `n` entries of a listing.
    pub open spec fn saw_all(self, listing: Seq<EntryView>, depth: nat, n: nat) -> SearchView
        decreases n,
    {
        if n == 0 {
            self
        } else {
            self.saw_all(listing, depth, (n - 1) as nat).saw(listing[n - 1], depth)
        }
    }

    /// The search after it has taken the listing of its next directory.
    pub open spec fn listed(self, listing: Seq<EntryView>) -> SearchView {
        SearchView { pending: self.pending.drop_last(), ..self }.saw_all(
            listing,
            self.pending.last().1,
            listing.len(),
        )
    }
}

/// A directory that waits to be listed.
#[derive(Debug)]
struct PendingDirectory {
    path: String,
    /// How many levels below this directory may still be entered.
    depth: usize,
}

/// A search for translation files, as far as it has come.
#[derive(Debug)]
pub struct Search {
    regex_pattern: String,
    paths_to_skip: Vec<String>,
    /// The directories still to be listed; the last one is listed next.
    pending: Vec<PendingDirectory>,
    results: Vec<String>,
}

impl View for Search {
    type V = SearchView;

    closed spec fn view(&self) -> SearchView {
        SearchView {
            pattern: self.regex_pattern@,
            paths_to_skip: self.paths_to_skip.deep_view(),
            pending: Seq::new(
                self.pending.len() as nat,
                |i: int| (self.pending[i].path@, self.pending[i].depth as nat),
            ),
            results: self.results.deep_view(),
        }
    }
}

/// The name as the contracts see it.
pub open spec fn name_view(name: Option<&str>) -> Option<Seq<char>> {
    match name {
        Some(n) => Some(n@),
        None => None,
    }
}

/// Whether a directory with this name is skipped: it is where it has a name
/// and the name stands on the skip list.
pub fn should_skip_directory(name: Option<&str>, paths_to_skip: &[String]) -> (skip: bool)
    ensures
        skip == should_skip(name_view(name), paths_to_skip.deep_view()),
{
    match name {
        None => false,
        Some(text) => {
            let wanted = String::from_str(text);
            let mut i: usize = 0;
            while i < paths_to_skip.len()
                invariant
                    i <= paths_to_skip.len(),
                    wanted@ == text@,
                    name == Some(text),
                    forall|j: int| 0 <= j < i ==> paths_to_skip.deep_view()[j] != text@,
                decreases paths_to_skip.len() - i,
            {
                if paths_to_skip[i] == wanted {
                    assert(paths_to_skip.deep_view()[i as int] == text@);
                    return true;
                }
                i += 1;
            }
            false
        },
    }
}

/// Begins a search below `root_path` for the files whose name matches
/// `regex_pattern`, staying out of the directories named in
/// `paths_to_skip`.
///
/// Fails with `InvalidRegexPattern` exactly where the pattern does not
/// compile. A search that begins has found nothing yet and waits for the
/// listing of the root.
pub fn search_recursive_regex(root_path: &str, regex_pattern: &str, paths_to_skip: &[String]) -> (search: Result<
    Search,
    SearchAllTranslationsFilesError,
>)
    ensures
        match search {
            Ok(s) => regex_error(regex_pattern@) is None && s@ == (SearchView {
                pattern: regex_pattern@,
                paths_to_skip: paths_to_skip.deep_view(),
                pending: seq![(root_path@, MAX_DEPTH as nat)],
                results: Seq::empty(),
            }),
            Err(SearchAllTranslationsFilesError::InvalidRegexPattern(pattern, reason)) => pattern@ == regex_pattern@
                && regex_error(regex_pattern@) == Some(reason@),
            Err(_) => false,
        },
{
    match pattern_error(regex_pattern) {
        Some(reason) => Err(
            SearchAllTranslationsFilesError::InvalidRegexPattern(String::from_str(regex_pattern), reason),
        ),
        None => {
            let mut skip: Vec<String> = Vec::new();
            let mut i: usize = 0;
            while i < paths_to_skip.len()
                invariant
                    i <= paths_to_skip.len(),
                    skip.len() == i,
                    forall|j: int| 0 <= j < i ==> (#[trigger] skip[j])@ == paths_to_skip[j]@,
                decreases paths_to_skip.len() - i,
            {
                skip.push(paths_to_skip[i].clone());
                i += 1;
            }
            let mut pending: Vec<PendingDirectory> = Vec::new();
            pending.push(PendingDirectory { path: String::from_str(root_path), depth: MAX_DEPTH });
            let search = Search {
                regex_pattern: String::from_str(regex_pattern),
                paths_to_skip: skip,
                pending,
                results: Vec::new(),
            };
            proof {
                assert(search@.paths_to_skip =~= paths_to_skip.deep_view());
                assert(search@.pending =~= seq![(root_path@, MAX_DEPTH as nat)]);
                assert(search@.results =~= Seq::empty());
            }
            Ok(search)
        },
    }
}

impl Search {
    /// The directory whose listing the search needs next; `None` when the
    /// search is complete.
    pub fn next_directory(&self) -> (directory: Option<&str>)
        ensures
            match directory {
                Some(path) => self@.pending.len() > 0 && path@ == self@.pending.last().0,
                None => self@.pending.len() == 0,
            },
    {
        if self.pending.len() > 0 {
            Some(self.pending[self.pending.len() - 1].path.as_str())
        } else {
            None
        }
    }

    /// The files found so far, in the order in which they were found.
    pub fn results(&self) -> (results: &Vec<String>)
        ensures
            results.deep_view() == self@.results,
    {
        &self.results
    }

    /// Gives up the search for the files that it found.
    pub fn into_results(self) -> (results: Vec<String>)
        ensures
            results.deep_view() == self@.results,
    {
        self.results
    }

    /// Sorts one entry of a directory below which `depth` levels may still
    /// be entered: a directory is queued unless it is skipped or lies too
    /// deep, a file is kept where its name matches the pattern, and anything
    /// else is passed over.
    fn process_entry(&mut self, entry: Entry, depth: usize)
        ensures
            final(self)@ == old(self)@.saw(entry@, depth as nat),
    {
        match entry {
            Entry::Directory { path, name } => {
                let skipped = match &name {
                    Some(n) => should_skip_directory(Some(n.as_str()), self.paths_to_skip.as_slice()),
                    None => should_skip_directory(None, self.paths_to_skip.as_slice()),
                };
                assert(skipped == should_skip(entry@->Directory_name, self@.paths_to_skip));
                if !skipped && depth > 0 {
                    let ghost before = self@;
                    self.pending.push(PendingDirectory { path, depth: depth - 1 });
                    assert(self@.pending =~= before.pending.push((path@, (depth - 1) as nat)));
                }
            },
            Entry::File { path, file_name } => {
                let matched = is_match(self.regex_pattern.as_str(), file_name.as_str());
                if matched == Some(true) {
                    let ghost before = self@;
                    self.results.push(path);
                    assert(self@.results =~= before.results.push(path@));
                    assert(self@.pending =~= before.pending);
                }
            },
            Entry::Other => {},
        }
    }

    /// Takes what listing the next directory gave.
    ///
    /// A listing that failed fails the search with `UnableToReadPath` for
    /// that directory and leaves it as it was. A listing that came is sorted
    /// entry by entry, in its order: the directory itself is done, the
    /// directories to enter wait to be listed, and the files to keep join the
    /// results.
    pub fn search_directory(&mut self, listing: Result<Vec<Entry>, std::io::Error>) -> (outcome: Result<
        (),
        SearchAllTranslationsFilesError,
    >)
        requires
            old(self)@.pending.len() > 0,
        ensures
            match listing {
                Ok(entries) => outcome is Ok && final(self)@ == old(self)@.listed(entries.deep_view()),
                Err(cause) => {
                    &&& final(self)@ == old(self)@
                    &&& outcome matches Err(SearchAllTranslationsFilesError::UnableToReadPath(path, source))
                    &&& path@ == old(self)@.pending.last().0
                    &&& source == cause
                },
            },
    {
        let last: usize = self.pending.len() - 1;
        match listing {
            Err(cause) => Err(
                SearchAllTranslationsFilesError::UnableToReadPath(self.pending[last].path.clone(), cause),
            ),
            Ok(entries) => {
                let ghost start = old(self)@;
                let ghost all = entries.deep_view();
                let ghost raw = entries@;
                let depth: usize = self.pending[last].depth;
                self.pending.truncate(last);
                proof {
                    assert(self@.pending =~= start.pending.drop_last());
                    assert(self@ == (SearchView { pending: start.pending.drop_last(), ..start }));
                }
                for entry in it: entries
                    invariant
                        it.seq() == raw,
                        all.len() == raw.len(),
                        forall|i: int| 0 <= i < raw.len() ==> all[i] == (#[trigger] raw[i])@,
                        self@ == (SearchView { pending: start.pending.drop_last(), ..start }).saw_all(
                            all,
                            depth as nat,
                            it.index() as nat,
                        ),
                {
                    proof {
                        assert(all[it.index() as int] == entry@);
                    }
                    self.process_entry(entry, depth);
                }
                Ok(())
            },
        }
    }
}

/// A tree of directories as a search meets it: for the path of each
/// directory that can be listed, what listing it gives.
pub type Tree = Map<Seq<char>, Seq<EntryView>>;

/// The files that a walk of the directory `directory` keeps when it may
/// enter `depth` levels below it: the files of its listing whose name
/// matches, and what the walks of the directories that it enters keep.
pub open spec fn tree_matches(
    tree: Tree,
    pattern: Seq<char>,
    paths_to_skip: Seq<Seq<char>>,
    directory: Seq<char>,
    depth: nat,
) -> Set<Seq<char>>
    decreases depth, 1nat, 0nat,
{
    if tree.contains_key(directory) {
        listing_matches(tree, pattern, paths_to_skip, tree[directory], depth, tree[directory].len())
    } else {
        Set::empty()
    }
}

/// What the first `n` entries of a listing give to the walk of their
/// directory.
pub open spec fn listing_matches(
    tree: Tree,
    pattern: Seq<char>,
    paths_to_skip: Seq<Seq<char>>,
    listing: Seq<EntryView>,
    depth: nat,
    n: nat,
) -> Set<Seq<char>>
    decreases depth, 0nat, n,
{
    if n == 0 {
        Set::empty()
    } else {
        listing_matches(tree, pattern, paths_to_skip, listing, depth, (n - 1) as nat).union(
            entry_matches(tree, pattern, paths_to_skip, listing[n - 1], depth),
        )
    }
}

/// What one entry gives to the walk of its directory.
pub open spec fn entry_matches(
    tree: Tree,
    pattern: Seq<char>,
    paths_to_skip: Seq<Seq<char>>,
    entry: EntryView,
    depth: nat,
) -> Set<Seq<char>>
    decreases depth, 0nat, 0nat,
{
    if enters(paths_to_skip, entry) && depth > 0 {
        tree_matches(tree, pattern, paths_to_skip, entry_path(entry), (depth - 1) as nat)
    } else if keeps(pattern, entry) {
        set![entry_path(entry)]
    } else {
        Set::empty()
    }
}

/// What the walks of the first `n` pending directories keep.
pub open spec fn pending_matches(tree: Tree, search: SearchView, n: nat) -> Set<Seq<char>>
    decreases n,
{
    if n == 0 {
        Set::empty()
    } else {
        pending_matches(tree, search, (n - 1) as nat).union(
            tree_matches(
                tree,
                search.pattern,
                search.paths_to_skip,
                search.pending[n - 1].0,
                search.pending[n - 1].1,
            ),
        )
    }
}

impl SearchView {
    /// The files that the search will have found when it is complete, if the
    /// listings it takes are those of `tree`: the files it has found, and
    /// what the walks of its pending directories keep.
    pub open spec fn outcome(self, tree: Tree) -> Set<Seq<char>> {
        self.results.to_set().union(pending_matches(tree, self, self.pending.len()))
    }

    /// The search as it begins below `root`.
    pub open spec fn begun(root: Seq<char>, pattern: Seq<char>, paths_to_skip: Seq<Seq<char>>) -> SearchView {
        SearchView { pattern, paths_to_skip, pending: seq![(root, MAX_DEPTH as nat)], results: Seq::empty() }
    }
}

/// A search is run against `tree`: `steps` holds the search as it begins
/// below `root` and then after each listing, every listing is the one that
/// `tree` has for the directory that was next, and at the end no directory
/// is left.
pub open spec fn is_complete_run(
    tree: Tree,
    root: Seq<char>,
    pattern: Seq<char>,
    paths_to_skip: Seq<Seq<char>>,
    steps: Seq<SearchView>,
) -> bool {
    &&& steps.len() > 0
    &&& steps[0] == SearchView::begun(root, pattern, paths_to_skip)
    &&& forall|k: int|
        0 <= k < steps.len() - 1 ==> {
            &&& (#[trigger] steps[k]).pending.len() > 0
            &&& tree.contains_key(steps[k].pending.last().0)
            &&& steps[k + 1] == steps[k].listed(tree[steps[k].pending.last().0])
        }
    &&& steps.last().pending.len() == 0
}

/// The pending directories that stood before the last keep what they gave.
proof fn lemma_pending_matches_prefix(tree: Tree, a: SearchView, b: SearchView, n: nat)
    requires
        a.pattern == b.pattern,
        a.paths_to_skip == b.paths_to_skip,
        n <= a.pending.len(),
        n <= b.pending.len(),
        forall|i: int| 0 <= i < n ==> a.pending[i] == b.pending[i],
    ensures
        pending_matches(tree, a, n) == pending_matches(tree, b, n),
    decreases n,
{
    if n > 0 {
        lemma_pending_matches_prefix(tree, a, b, (n - 1) as nat);
    }
}

/// Seeing an entry adds to the outcome what the entry gives.
proof fn lemma_saw_adds_entry(tree: Tree, search: SearchView, entry: EntryView, depth: nat)
    ensures
        search.saw(entry, depth).outcome(tree) == search.outcome(tree).union(
            entry_matches(tree, search.pattern, search.paths_to_skip, entry, depth),
        ),
        search.saw(entry, depth).pattern == search.pattern,
        search.saw(entry, depth).paths_to_skip == search.paths_to_skip,
{
    let after = search.saw(entry, depth);
    let n = search.pending.len();
    if enters(search.paths_to_skip, entry) && depth > 0 {
        lemma_pending_matches_prefix(tree, search, after, n);
        assert(after.pending[n as int] == (entry_path(entry), (depth - 1) as nat));
        assert(after.outcome(tree) =~= search.outcome(tree).union(
            entry_matches(tree, search.pattern, search.paths_to_skip, entry, depth),
        ));
    } else if keeps(search.pattern, entry) {
        lemma_pending_matches_prefix(tree, search, after, n);
        let path = entry_path(entry);
        assert(after.results.to_set() =~= search.results.to_set().insert(path)) by {
            assert forall|p: Seq<char>| after.results.to_set().contains(p) <==> search.results.to_set().insert(
                path,
            ).contains(p) by {
                if after.results.contains(p) {
                    let i = choose|i: int| 0 <= i < after.results.len() && after.results[i] == p;
                    if i < search.results.len() {
                        assert(search.results[i] == p);
                    }
                }
                if search.results.contains(p) {
                    let i = choose|i: int| 0 <= i < search.results.len() && search.results[i] == p;
                    assert(after.results[i] == p);
                }
                if p == path {
                    assert(after.results[search.results.len() as int] == p);
                }
            }
        }
        assert(after.outcome(tree) =~= search.outcome(tree).union(
            entry_matches(tree, search.pattern, search.paths_to_skip, entry, depth),
        ));
    } else {
        assert(after.outcome(tree) =~= search.outcome(tree).union(
            entry_matches(tree, search.pattern, search.paths_to_skip, entry, depth),
        ));
    }
}

/// Seeing the first `n` entries of a listing adds to the outcome what they
/// give.
proof fn lemma_saw_all_adds_listing(tree: Tree, search: SearchView, listing: Seq<EntryView>, depth: nat, n: nat)
    requires
        n <= listing.len(),
    ensures
        search.saw_all(listing, depth, n).outcome(tree) == search.outcome(tree).union(
            listing_matches(tree, search.pattern, search.paths_to_skip, listing, depth, n),
        ),
        search.saw_all(listing, depth, n).pattern == search.pattern,
        search.saw_all(listing, depth, n).paths_to_skip == search.paths_to_skip,
    decreases n,
{
    if n == 0 {
        assert(search.outcome(tree) =~= search.outcome(tree).union(Set::empty()));
    } else {
        let before = search.saw_all(listing, depth, (n - 1) as nat);
        lemma_saw_all_adds_listing(tree, search, listing, depth, (n - 1) as nat);
        lemma_saw_adds_entry(tree, before, listing[n - 1], depth);
        assert(search.saw_all(listing, depth, n).outcome(tree) =~= search.outcome(tree).union(
            listing_matches(tree, search.pattern, search.paths_to_skip, listing, depth, n),
        ));
    }
}

/// Taking the listing that the tree has for the next directory leaves the
/// outcome of the search as it was: what the search will have found does not
/// depend on how far it has come.
pub proof fn lemma_listing_keeps_outcome(tree: Tree, search: SearchView)
    requires
        search.pending.len() > 0,
        tree.contains_key(search.pending.last().0),
    ensures
        search.listed(tree[search.pending.last().0]).outcome(tree) == search.outcome(tree),
        search.listed(tree[search.pending.last().0]).pattern == search.pattern,
        search.listed(tree[search.pending.last().0]).paths_to_skip == search.paths_to_skip,
{
    let (directory, depth) = search.pending.last();
    let listing = tree[directory];
    let popped = SearchView { pending: search.pending.drop_last(), ..search };
    let n = popped.pending.len();
    lemma_pending_matches_prefix(tree, popped, search, n);
    lemma_saw_all_adds_listing(tree, popped, listing, depth, listing.len());
    assert(search.pending[n as int] == (directory, depth));
    assert(search.listed(listing).outcome(tree) =~= search.outcome(tree));
}

/// Along a run against a tree the outcome stays what it was at the
/// beginning.
proof fn lemma_run_keeps_outcome(
    tree: Tree,
    root: Seq<char>,
    pattern: Seq<char>,
    paths_to_skip: Seq<Seq<char>>,
    steps: Seq<SearchView>,
    k: int,
)
    requires
        is_complete_run(tree, root, pattern, paths_to_skip, steps),
        0 <= k < steps.len(),
    ensures
        steps[k].outcome(tree) == steps[0].outcome(tree),
        steps[k].pattern == pattern,
        steps[k].paths_to_skip == paths_to_skip,
    decreases k,
{
    if k > 0 {
        lemma_run_keeps_outcome(tree, root, pattern, paths_to_skip, steps, k - 1);
        lemma_listing_keeps_outcome(tree, steps[k - 1]);
    }
}

/// A search that is run to its end against a tree finds the files that the
/// walk of the tree keeps, neither more nor less. The files found are thus
/// the same for every run against the same tree.
pub proof fn lemma_complete_run_finds_tree_matches(
    tree: Tree,
    root: Seq<char>,
    pattern: Seq<char>,
    paths_to_skip: Seq<Seq<char>>,
    steps: Seq<SearchView>,
)
    requires
        is_complete_run(tree, root, pattern, paths_to_skip, steps),
    ensures
        steps.last().results.to_set() == tree_matches(tree, pattern, paths_to_skip, root, MAX_DEPTH as nat),
{
    let first = steps[0];
    let last = steps.last();
    lemma_run_keeps_outcome(tree, root, pattern, paths_to_skip, steps, steps.len() - 1);
    assert(first.results.to_set() =~= Set::empty());
    assert(pending_matches(tree, first, 0) =~= Set::empty());
    assert(first.outcome(tree) =~= tree_matches(tree, pattern, paths_to_skip, root, MAX_DEPTH as nat)) by {
        assert(first.pending[0] == (root, MAX_DEPTH as nat));
        assert(pending_matches(tree, first, 1) == pending_matches(tree, first, 0).union(
            tree_matches(tree, pattern, paths_to_skip, root, MAX_DEPTH as nat),
        ));
    }
    assert(last.outcome(tree) =~= last.results.to_set());
}

/// A directory whose name stands on the skip list changes nothing: it is
/// not entered and nothing is kept for it, at whatever depth it is met.
pub proof fn lemma_skipped_directory_is_passed_over(
    tree: Tree,
    search: SearchView,
    path: Seq<char>,
    name: Seq<char>,
    depth: nat,
)
    requires
        search.paths_to_skip.contains(name),
    ensures
        search.saw(EntryView::Directory { path, name: Some(name) }, depth) == search,
        entry_matches(
            tree,
            search.pattern,
            search.paths_to_skip,
            EntryView::Directory { path, name: Some(name) },
            depth,
        ) == Set::<Seq<char>>::empty(),
{
}

/// The directory in which entry `i` of a chain that leads down from `root`
/// is listed: the root for the first entry, and for every other the entry
/// before it. For `i` the length of the chain it is the directory that the
/// chain leads to.
pub open spec fn chain_directory(root: Seq<char>, chain: Seq<EntryView>, i: int) -> Seq<char> {
    if i == 0 {
        root
    } else {
        entry_path(chain[i - 1])
    }
}

/// `chain` leads down from `root` over directories that the search enters:
/// each is listed in the directory before it, and none is skipped.
pub open spec fn is_entered_chain(
    tree: Tree,
    paths_to_skip: Seq<Seq<char>>,
    root: Seq<char>,
    chain: Seq<EntryView>,
) -> bool {
    forall|i: int|
        0 <= i < chain.len() ==> {
            &&& enters(paths_to_skip, #[trigger] chain[i])
            &&& tree.contains_key(chain_directory(root, chain, i))
            &&& tree[chain_directory(root, chain, i)].contains(chain[i])
        }
}

/// `file` is a file that the search keeps, listed in the directory that
/// `chain` leads to.
pub open spec fn is_kept_at_end_of(
    tree: Tree,
    pattern: Seq<char>,
    paths_to_skip: Seq<Seq<char>>,
    root: Seq<char>,
    chain: Seq<EntryView>,
    file: EntryView,
) -> bool {
    &&& is_entered_chain(tree, paths_to_skip, root, chain)
    &&& tree.contains_key(chain_directory(root, chain, chain.len() as int))
    &&& tree[chain_directory(root, chain, chain.len() as int)].contains(file)
    &&& keeps(pattern, file)
}

/// A chain that leads down from an entry which the search enters, with
/// that entry put before it, leads down from the directory that lists the
/// entry, and to the same file.
proof fn lemma_chain_extends(
    tree: Tree,
    pattern: Seq<char>,
    paths_to_skip: Seq<Seq<char>>,
    directory: Seq<char>,
    entry: EntryView,
    below: Seq<EntryView>,
    file: EntryView,
)
    requires
        tree.contains_key(directory),
        tree[directory].contains(entry),
        enters(paths_to_skip, entry),
        is_kept_at_end_of(tree, pattern, paths_to_skip, entry_path(entry), below, file),
    ensures
        is_kept_at_end_of(tree, pattern, paths_to_skip, directory, seq![entry] + below, file),
{
    let chain = seq![entry] + below;
    assert(chain.len() == below.len() + 1);
    assert(chain[0] == entry);
    assert forall|i: int| 0 <= i < chain.len() implies {
        &&& enters(paths_to_skip, #[trigger] chain[i])
        &&& tree.contains_key(chain_directory(directory, chain, i))
        &&& tree[chain_directory(directory, chain, i)].contains(chain[i])
    } by {
        if i > 0 {
            assert(chain[i] == below[i - 1]);
            assert(enters(paths_to_skip, below[i - 1]));
            if i > 1 {
                assert(chain[i - 1] == below[i - 2]);
            }
            assert(chain_directory(directory, chain, i) == chain_directory(entry_path(entry), below, i - 1));
        }
    }
    if below.len() > 0 {
        assert(chain[chain.len() - 1] == below[below.len() - 1]);
    }
    assert(chain_directory(directory, chain, chain.len() as int) == chain_directory(
        entry_path(entry),
        below,
        below.len() as int,
    ));
}

/// A chain of entered directories that leads to a file of the walk.
proof fn chain_to_match(
    tree: Tree,
    pattern: Seq<char>,
    paths_to_skip: Seq<Seq<char>>,
    directory: Seq<char>,
    depth: nat,
    path: Seq<char>,
) -> (found: (Seq<EntryView>, EntryView))
    requires
        tree_matches(tree, pattern, paths_to_skip, directory, depth).contains(path),
    ensures
        found.0.len() <= depth,
        is_kept_at_end_of(tree, pattern, paths_to_skip, directory, found.0, found.1),
        entry_path(found.1) == path,
    decreases depth, 1nat, 0nat,
{
    chain_to_listed_match(tree, pattern, paths_to_skip, directory, depth, tree[directory].len(), path)
}

/// A chain of entered directories that leads to a file which the first `n`
/// entries of a directory's listing give to the walk.
proof fn chain_to_listed_match(
    tree: Tree,
    pattern: Seq<char>,
    paths_to_skip: Seq<Seq<char>>,
    directory: Seq<char>,
    depth: nat,
    n: nat,
    path: Seq<char>,
) -> (found: (Seq<EntryView>, EntryView))
    requires
        tree.contains_key(directory),
        n <= tree[directory].len(),
        listing_matches(tree, pattern, paths_to_skip, tree[directory], depth, n).contains(path),
    ensures
        found.0.len() <= depth,
        is_kept_at_end_of(tree, pattern, paths_to_skip, directory, found.0, found.1),
        entry_path(found.1) == path,
    decreases depth, 0nat, n,
{
    let listing = tree[directory];
    let entry = listing[n - 1];
    assert(n > 0);
    assert(listing_matches(tree, pattern, paths_to_skip, listing, depth, n) == listing_matches(
        tree,
        pattern,
        paths_to_skip,
        listing,
        depth,
        (n - 1) as nat,
    ).union(entry_matches(tree, pattern, paths_to_skip, entry, depth)));
    if listing_matches(tree, pattern, paths_to_skip, listing, depth, (n - 1) as nat).contains(path) {
        chain_to_listed_match(tree, pattern, paths_to_skip, directory, depth, (n - 1) as nat, path)
    } else if enters(paths_to_skip, entry) && depth > 0 {
        let below = chain_to_match(tree, pattern, paths_to_skip, entry_path(entry), (depth - 1) as nat, path);
        assert(listing[n - 1] == entry);
        lemma_chain_extends(tree, pattern, paths_to_skip, directory, entry, below.0, below.1);
        (seq![entry] + below.0, below.1)
    } else {
        assert(listing[n - 1] == entry);
        (Seq::empty(), entry)
    }
}

/// Every file of a walk is listed in a directory that is reached from the
/// root over directories that the search enters. A directory on the skip
/// list is never entered, so nothing that is reached only through one is
/// ever found, however deep it lies.
pub proof fn lemma_match_is_reached_over_entered_directories(
    tree: Tree,
    pattern: Seq<char>,
    paths_to_skip: Seq<Seq<char>>,
    root: Seq<char>,
    depth: nat,
    path: Seq<char>,
)
    requires
        tree_matches(tree, pattern, paths_to_skip, root, depth).contains(path),
    ensures
        exists|chain: Seq<EntryView>, file: EntryView|
            {
                &&& chain.len() <= depth
                &&& #[trigger] is_kept_at_end_of(tree, pattern, paths_to_skip, root, chain, file)
                &&& entry_path(file) == path
            },
{
    let found = chain_to_match(tree, pattern, paths_to_skip, root, depth, path);
    assert(is_kept_at_end_of(tree, pattern, paths_to_skip, root, found.0, found.1));
}

/// Two trees list the same directories, and each directory with the same
/// entries, in whatever order and however often.
pub open spec fn same_listings(tree: Tree, other: Tree) -> bool {
    forall|directory: Seq<char>|
        {
            &&& tree.contains_key(directory) == other.contains_key(directory)
            &&& tree.contains_key(directory) ==> (#[trigger] tree[directory]).to_set() == other[directory].to_set()
        }
}

/// A file is among what the first `n` entries of a listing give exactly
/// when one of these entries gives it.
proof fn lemma_listing_matches_by_entry(
    tree: Tree,
    pattern: Seq<char>,
    paths_to_skip: Seq<Seq<char>>,
    listing: Seq<EntryView>,
    depth: nat,
    n: nat,
    path: Seq<char>,
)
    requires
        n <= listing.len(),
    ensures
        listing_matches(tree, pattern, paths_to_skip, listing, depth, n).contains(path) <==> exists|i: int|
            0 <= i < n && entry_matches(tree, pattern, paths_to_skip, #[trigger] listing[i], depth).contains(path),
    decreases n,
{
    if n > 0 {
        lemma_listing_matches_by_entry(tree, pattern, paths_to_skip, listing, depth, (n - 1) as nat, path);
        assert(listing_matches(tree, pattern, paths_to_skip, listing, depth, n) == listing_matches(
            tree,
            pattern,
            paths_to_skip,
            listing,
            depth,
            (n - 1) as nat,
        ).union(entry_matches(tree, pattern, paths_to_skip, listing[n - 1], depth)));
        if exists|i: int|
            0 <= i < n && entry_matches(tree, pattern, paths_to_skip, #[trigger] listing[i], depth).contains(path) {
            let i = choose|i: int|
                0 <= i < n && entry_matches(tree, pattern, paths_to_skip, #[trigger] listing[i], depth).contains(path);
            if i < n - 1 {
                assert(entry_matches(tree, pattern, paths_to_skip, listing[i], depth).contains(path));
            }
        }
    }
}

/// In what order a directory's entries are listed plays no part in what a
/// walk keeps: two trees with the same listings give the same files.
pub proof fn lemma_order_of_listings_is_irrelevant(
    tree: Tree,
    other: Tree,
    pattern: Seq<char>,
    paths_to_skip: Seq<Seq<char>>,
    directory: Seq<char>,
    depth: nat,
)
    requires
        same_listings(tree, other),
    ensures
        tree_matches(tree, pattern, paths_to_skip, directory, depth) == tree_matches(
            other,
            pattern,
            paths_to_skip,
            directory,
            depth,
        ),
    decreases depth,
{
    let here = tree_matches(tree, pattern, paths_to_skip, directory, depth);
    let there = tree_matches(other, pattern, paths_to_skip, directory, depth);
    assert(tree.contains_key(directory) == other.contains_key(directory));
    if tree.contains_key(directory) {
        let listing = tree[directory];
        let shuffled = other[directory];
        assert(listing.to_set() == shuffled.to_set());
        assert forall|entry: EntryView|
            entry_matches(tree, pattern, paths_to_skip, entry, depth) == entry_matches(
                other,
                pattern,
                paths_to_skip,
                entry,
                depth,
            ) by {
            if enters(paths_to_skip, entry) && depth > 0 {
                lemma_order_of_listings_is_irrelevant(
                    tree,
                    other,
                    pattern,
                    paths_to_skip,
                    entry_path(entry),
                    (depth - 1) as nat,
                );
            }
        }
        assert forall|path: Seq<char>| here.contains(path) <==> there.contains(path) by {
            lemma_listing_matches_by_entry(tree, pattern, paths_to_skip, listing, depth, listing.len(), path);
            lemma_listing_matches_by_entry(other, pattern, paths_to_skip, shuffled, depth, shuffled.len(), path);
            if here.contains(path) {
                let i = choose|i: int|
                    0 <= i < listing.len() && entry_matches(tree, pattern, paths_to_skip, #[trigger] listing[i], depth).contains(
                        path,
                    );
                assert(listing.to_set().contains(listing[i]));
                assert(shuffled.contains(listing[i]));
                let j = choose|j: int| 0 <= j < shuffled.len() && shuffled[j] == listing[i];
                assert(entry_matches(other, pattern, paths_to_skip, shuffled[j], depth).contains(path));
            }
            if there.contains(path) {
                let j = choose|j: int|
                    0 <= j < shuffled.len() && entry_matches(
                        other,
                        pattern,
                        paths_to_skip,
                        #[trigger] shuffled[j],
                        depth,
                    ).contains(path);
                assert(shuffled.to_set().contains(shuffled[j]));
                assert(listing.contains(shuffled[j]));
                let i = choose|i: int| 0 <= i < listing.len() && listing[i] == shuffled[j];
                assert(entry_matches(tree, pattern, paths_to_skip, listing[i], depth).contains(path));
            }
        }
        assert(here =~= there);
    }
}

} // verus!
