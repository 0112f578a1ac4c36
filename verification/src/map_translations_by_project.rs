//! Which package a file belongs to, read off its path.
//!
//! A package path is the first stretch of a path that reads
//! `packages/manager/apps/<name>` or `packages/manager/modules/<name>`, where
//! `<name>` is one or more characters other than `/`, as many as there are.

use vstd::prelude::*;
use vstd::string::*;

use crate::entities::{PackageType, Translation, TranslationView};
use crate::index::{first_keys, grouped_by, KeyOf, TranslationIndex};
use crate::text::{chars_occur_at, chars_of};

verus! {

/// The text that a package path of the given kind begins with, up to and
/// including the `/` before the package's name.
pub open spec fn package_root(kind: PackageType) -> Seq<char> {
    "packages/manager/"@ + kind.segment() + "/"@
}

/// A package path of the given kind begins at position `i` of `path`: the
/// root stands there and at least one character of a name follows it.
pub open spec fn package_starts_at(path: Seq<char>, i: int, kind: PackageType) -> bool {
    let root = package_root(kind);
    &&& 0 <= i
    &&& i + root.len() < path.len()
    &&& path.subrange(i, i + root.len()) == root
    &&& path[i + root.len()] != '/'
}

/// A package path of either kind begins at position `i` of `path`.
pub open spec fn package_starts(path: Seq<char>, i: int) -> bool {
    package_starts_at(path, i, PackageType::Apps) || package_starts_at(path, i, PackageType::Modules)
}

/// Position `i` is the leftmost one at which a package path begins.
pub open spec fn is_first_package_start(path: Seq<char>, i: int) -> bool {
    &&& package_starts(path, i)
    &&& forall|j: int| 0 <= j < i ==> !package_starts(path, j)
}

/// The leftmost position at which a package path begins, if there is one.
pub open spec fn first_package_start(path: Seq<char>) -> Option<int> {
    if exists|i: int| package_starts(path, i) {
        Some(choose|i: int| is_first_package_start(path, i))
    } else {
        None
    }
}

/// The kind of the package path that begins at position `i`.
pub open spec fn package_kind_at(path: Seq<char>, i: int) -> PackageType {
    if package_starts_at(path, i, PackageType::Apps) {
        PackageType::Apps
    } else {
        PackageType::Modules
    }
}

/// The first position at or after `from` that holds a `/`, or the length of
/// `path` where none does.
pub open spec fn segment_end(path: Seq<char>, from: int) -> int
    decreases path.len() - from,
{
    if from < 0 || from >= path.len() || path[from] == '/' {
        from
    } else {
        segment_end(path, from + 1)
    }
}

/// The package that `path` lies in, with its kind: the leftmost package path
/// in it, taken up to the end of the package's name.
pub open spec fn project_path_and_type(path: Seq<char>) -> Option<(PackageType, Seq<char>)> {
    match first_package_start(path) {
        Some(i) => {
            let kind = package_kind_at(path, i);
            Some((kind, path.subrange(i, segment_end(path, i + package_root(kind).len()))))
        },
        None => None,
    }
}

/// The package path of `path`, or `unknown` where it lies in no package.
pub open spec fn package_path_of(path: Seq<char>) -> Seq<char> {
    match project_path_and_type(path) {
        Some((_, identifier)) => identifier,
        None => "unknown"@,
    }
}

/// The characters of `package_root(kind)`.
fn package_root_chars(kind: PackageType) -> (root: Vec<char>)
    ensures
        root@ == package_root(kind),
{
    let segment = match kind {
        PackageType::Apps => "apps",
        PackageType::Modules => "modules",
    };
    let text = String::from_str("packages/manager/").concat(segment).concat("/");
    chars_of(text.as_str())
}

/// Whether a package path whose root is `root` begins at position `i`.
fn package_root_follows(path: &Vec<char>, i: usize, root: &Vec<char>, Ghost(kind): Ghost<PackageType>) -> (found: bool)
    requires
        root@ == package_root(kind),
    ensures
        found == package_starts_at(path@, i as int, kind),
{
    if !chars_occur_at(root, path, i) {
        return false;
    }
    assert(i + root.len() <= path.len());
    let after: usize = i + root.len();
    after < path.len() && path[after] != '/'
}

/// The end of the run of characters other than `/` that begins at `from`.
fn find_segment_end(path: &Vec<char>, from: usize) -> (end: usize)
    requires
        from <= path.len(),
    ensures
        end == segment_end(path@, from as int),
        from <= end <= path.len(),
{
    let mut end: usize = from;
    while end < path.len() && path[end] != '/'
        invariant
            from <= end <= path.len(),
            segment_end(path@, from as int) == segment_end(path@, end as int),
        decreases path.len() - end,
    {
        end += 1;
    }
    end
}

/// Finds the package that a file belongs to, and the package's kind.
///
/// The answer is the leftmost package path in `path`, cut off at the end of
/// the package's name; `None` where `path` holds no package path at all.
pub fn determinate_project_path_and_type(path: &str) -> (found: Option<(PackageType, String)>)
    ensures
        match found {
            Some((kind, identifier)) => project_path_and_type(path@) == Some((kind, identifier@)),
            None => project_path_and_type(path@) is None,
        },
{
    let chars = chars_of(path);
    let apps = package_root_chars(PackageType::Apps);
    let modules = package_root_chars(PackageType::Modules);
    let mut i: usize = 0;
    while i < chars.len()
        invariant
            i <= chars.len(),
            chars@ == path@,
            apps@ == package_root(PackageType::Apps),
            modules@ == package_root(PackageType::Modules),
            forall|j: int| 0 <= j < i ==> !package_starts(path@, j),
        decreases chars.len() - i,
    {
        let kind = if package_root_follows(&chars, i, &apps, Ghost(PackageType::Apps)) {
            Some((PackageType::Apps, apps.len()))
        } else if package_root_follows(&chars, i, &modules, Ghost(PackageType::Modules)) {
            Some((PackageType::Modules, modules.len()))
        } else {
            None
        };
        if let Some((kind, root_len)) = kind {
            let end = find_segment_end(&chars, i + root_len);
            let identifier = String::from_str(path.substring_char(i, end));
            proof {
                assert(is_first_package_start(path@, i as int));
                let first = choose|k: int| is_first_package_start(path@, k);
                assert(first == i);
                assert(kind == package_kind_at(path@, i as int));
            }
            return Some((kind, identifier));
        }
        i += 1;
    }
    proof {
        assert forall|j: int| !package_starts(path@, j) by {
            if 0 <= j < chars.len() {
            }
        }
    }
    None
}

/// The package path of a file, or `unknown` where the file lies in no
/// package.
pub fn get_package_path(path: &str) -> (package: String)
    ensures
        package@ == package_path_of(path@),
{
    match determinate_project_path_and_type(path) {
        Some((_, identifier)) => identifier,
        None => String::from_str("unknown"),
    }
}

/// The package path of the file a record came from: the key of the package
/// index.
pub open spec fn by_package() -> KeyOf {
    |t: TranslationView| package_path_of(t.path)
}

/// The package index of `records`: under each package path that occurs, the
/// records whose file lies in that package, in the order of `records`.
pub open spec fn package_index(records: Seq<TranslationView>) -> Map<Seq<char>, Seq<TranslationView>> {
    grouped_by(records, by_package())
}

/// Files every record under the package that its file lies in; records of
/// files that lie in no package stand under `unknown`. The keys of the index
/// stand in the order in which the packages first occur.
pub fn map_translations_by_project<'a>(translation: &'a [Translation]) -> (index: TranslationIndex<'a>)
    ensures
        index@ == package_index(translation.deep_view()),
        index.spec_keys() == first_keys(translation.deep_view(), by_package()),
{
    let mut keys: Vec<String> = Vec::new();
    let mut i: usize = 0;
    while i < translation.len()
        invariant
            i <= translation.len(),
            keys.len() == i,
            forall|j: int| 0 <= j < i ==> (#[trigger] keys[j])@ == by_package()(translation[j]@),
        decreases translation.len() - i,
    {
        keys.push(get_package_path(translation[i].path.as_str()));
        i += 1;
    }
    TranslationIndex::group_by_keys(translation, keys, Ghost(by_package()))
}

/// The end of a segment lies at or after its beginning and within the path,
/// no `/` stands before it, and it is the end of the path or holds a `/`.
pub proof fn lemma_segment_end(path: Seq<char>, from: int)
    requires
        0 <= from <= path.len(),
    ensures
        from <= segment_end(path, from) <= path.len(),
        forall|k: int| from <= k < segment_end(path, from) ==> path[k] != '/',
        segment_end(path, from) == path.len() || path[segment_end(path, from)] == '/',
    decreases path.len() - from,
{
    if from < path.len() && path[from] != '/' {
        lemma_segment_end(path, from + 1);
    }
}

/// A segment that holds no `/` ends where the path ends.
proof fn lemma_segment_without_slash(path: Seq<char>, from: int)
    requires
        0 <= from <= path.len(),
        forall|k: int| from <= k < path.len() ==> path[k] != '/',
    ensures
        segment_end(path, from) == path.len(),
    decreases path.len() - from,
{
    if from < path.len() {
        lemma_segment_without_slash(path, from + 1);
    }
}

/// No package path begins in the word `unknown`.
proof fn lemma_unknown_is_no_package()
    ensures
        project_path_and_type("unknown"@) is None,
{
    reveal_strlit("unknown");
    reveal_strlit("packages/manager/");
    assert("unknown"@.len() == 7);
    assert("packages/manager/"@.len() == 17);
    assert forall|i: int| !package_starts("unknown"@, i) by {
        assert(package_root(PackageType::Apps).len() >= 17);
        assert(package_root(PackageType::Modules).len() >= 17);
    }
}

/// The package path of a package path is that package path: to ask a
/// second time changes nothing.
pub proof fn lemma_package_path_is_idempotent(path: Seq<char>)
    ensures
        package_path_of(package_path_of(path)) == package_path_of(path),
{
    match first_package_start(path) {
        None => {
            lemma_unknown_is_no_package();
        },
        Some(i) => {
            let witness = choose|k: int| package_starts(path, k);
            lemma_first_start_exists(path, witness);
            assert(is_first_package_start(path, i));
            let kind = package_kind_at(path, i);
            let root = package_root(kind);
            let from = i + root.len();
            let end = segment_end(path, from);
            lemma_segment_end(path, from);
            let identifier = path.subrange(i, end);
            assert(package_starts_at(path, i, kind));
            assert(identifier.subrange(0, root.len() as int) =~= path.subrange(i, i + root.len()));
            assert(identifier[root.len() as int] == path[from]);
            assert(package_starts_at(identifier, 0, kind));
            assert(package_starts(identifier, 0));
            assert(is_first_package_start(identifier, 0));
            let first = choose|k: int| is_first_package_start(identifier, k);
            assert(first == 0) by {
                if first > 0 {
                    assert(!package_starts(identifier, 0));
                }
            }
            assert(first_package_start(identifier) == Some(0int));
            assert(package_kind_at(identifier, 0) == kind) by {
                let apps = package_root(PackageType::Apps);
                if package_starts_at(identifier, 0, PackageType::Apps) {
                    assert(identifier.subrange(0, apps.len() as int) =~= path.subrange(i, i + apps.len()));
                    assert(identifier[apps.len() as int] == path[i + apps.len()]);
                    assert(package_starts_at(path, i, PackageType::Apps));
                }
                if package_starts_at(path, i, PackageType::Apps) {
                    assert(kind == PackageType::Apps);
                }
            }
            assert forall|k: int| root.len() <= k < identifier.len() implies identifier[k] != '/' by {
                assert(identifier[k] == path[i + k]);
            }
            lemma_segment_without_slash(identifier, root.len() as int);
            assert(identifier.subrange(0, identifier.len() as int) =~= identifier);
        },
    }
}

/// Where a package path begins somewhere, it begins somewhere first.
proof fn lemma_first_start_exists(path: Seq<char>, at: int)
    requires
        package_starts(path, at),
    ensures
        exists|i: int| is_first_package_start(path, i),
    decreases at,
{
    if exists|j: int| 0 <= j < at && package_starts(path, j) {
        let j = choose|j: int| 0 <= j < at && package_starts(path, j);
        lemma_first_start_exists(path, j);
    } else {
        assert(is_first_package_start(path, at));
    }
}

} // verus!
