//! Which records of a package duplicate other records, and how.
//!
//! A record is a duplicate when the value index files another record under
//! its value. What kind of duplicate it is follows from where the records of
//! that value live, by three rules tried in this order:
//!
//! 1. one of them lies under a shared-translations location: the value is
//!    shared on purpose;
//! 2. more than one of them lies under the analysed package: the package
//!    repeats itself;
//! 3. otherwise the value is repeated in unrelated packages.
//!
//! A path lies under a location when the location stands in the path as a
//! run of whole segments: `apps/a/Messages.json` lies under `apps/a`, and
//! `apps/ab/Messages.json` does not.

use vstd::prelude::*;
use vstd::string::*;

use crate::entities::{Translation, TranslationView};
use crate::index::{keyed, TranslationIndex};
use crate::map_translations_by_key::{by_value, value_index};
use crate::text::{chars_occur_at, chars_of, occurs_at};

verus! {

/// How a record duplicates others.
#[derive(Debug, Clone, Copy, PartialEq, Eq, Structural)]
pub enum DuplicationType {
    /// The value occurs more than once within the analysed package.
    InterPackage,
    /// The value also lives under a shared-translations location.
    CommonTranslation,
    /// The value is repeated only in other, unrelated packages.
    ExternalProjects,
}

/// One duplicated record of the analysed package, with the kind of its
/// duplication.
#[derive(Debug, Clone, Copy)]
pub struct DuplicationReport<'a> {
    pub translation: &'a Translation,
    pub duplication_type: DuplicationType,
}

/// A report as the contracts see it.
pub struct DuplicationReportView {
    pub translation: TranslationView,
    pub duplication_type: DuplicationType,
}

impl<'a> View for DuplicationReport<'a> {
    type V = DuplicationReportView;

    open spec fn view(&self) -> DuplicationReportView {
        DuplicationReportView { translation: self.translation@, duplication_type: self.duplication_type }
    }
}

impl<'a> DeepView for DuplicationReport<'a> {
    type V = DuplicationReportView;

    open spec fn deep_view(&self) -> DuplicationReportView {
        self@
    }
}

/// How many duplicates of each kind a package has.
#[derive(Debug, Clone, Copy, PartialEq, Eq, Structural)]
pub struct DuplicationCounts {
    pub inter_package: usize,
    pub common_translation: usize,
    pub external_projects: usize,
    pub total: usize,
}

/// `location` stands in `path` at position `i` as a run of whole segments:
/// its text stands there, it begins at the beginning of the path or behind
/// a `/`, and it ends at the end of the path or before a `/`.
pub open spec fn lies_under_at(path: Seq<char>, location: Seq<char>, i: int) -> bool {
    &&& occurs_at(location, path, i)
    &&& (i == 0 || path[i - 1] == '/')
    &&& (i + location.len() == path.len() || path[i + location.len()] == '/')
}

/// `path` lies under `location`: the location stands somewhere in the path
/// as a run of whole segments.
pub open spec fn lies_under(path: Seq<char>, location: Seq<char>) -> bool {
    exists|i: int| lies_under_at(path, location, i)
}

/// `path` lies under one of `locations`.
pub open spec fn lies_under_any(path: Seq<char>, locations: Seq<Seq<char>>) -> bool {
    exists|i: int| 0 <= i < locations.len() && lies_under(path, #[trigger] locations[i])
}

/// The test "this record's file lies under `location`".
pub open spec fn under(location: Seq<char>) -> spec_fn(TranslationView) -> bool {
    |t: TranslationView| lies_under(t.path, location)
}

/// One of the records lies under a shared-translations location.
pub open spec fn touches_shared(group: Seq<TranslationView>, shared: Seq<Seq<char>>) -> bool {
    exists|i: int| 0 <= i < group.len() && lies_under_any(#[trigger] group[i].path, shared)
}

/// How many of the records lie under `project`.
pub open spec fn count_under(group: Seq<TranslationView>, project: Seq<char>) -> nat {
    group.filter(under(project)).len()
}

/// The kind of duplication that the records of one value stand for, seen
/// from the package `project`.
pub open spec fn classify(group: Seq<TranslationView>, shared: Seq<Seq<char>>, project: Seq<char>) -> DuplicationType {
    if touches_shared(group, shared) {
        DuplicationType::CommonTranslation
    } else if count_under(group, project) > 1 {
        DuplicationType::InterPackage
    } else {
        DuplicationType::ExternalProjects
    }
}

/// The test "the index files this record's value more or less than once".
pub open spec fn duplicated_in(index: Map<Seq<char>, Seq<TranslationView>>) -> spec_fn(TranslationView) -> bool {
    |t: TranslationView| index[t.translations].len() != 1
}

/// The report on one duplicated record.
pub open spec fn report_on(
    index: Map<Seq<char>, Seq<TranslationView>>,
    shared: Seq<Seq<char>>,
    project: Seq<char>,
) -> spec_fn(TranslationView) -> DuplicationReportView {
    |t: TranslationView|
        DuplicationReportView { translation: t, duplication_type: classify(index[t.translations], shared, project) }
}

/// The reports on `candidates`: one for each candidate that is a duplicate,
/// in the candidates' order.
pub open spec fn duplication_reports(
    project: Seq<char>,
    shared: Seq<Seq<char>>,
    candidates: Seq<TranslationView>,
    index: Map<Seq<char>, Seq<TranslationView>>,
) -> Seq<DuplicationReportView> {
    candidates.filter(duplicated_in(index)).map_values(report_on(index, shared, project))
}

/// The index knows the value of every candidate.
pub open spec fn index_covers(index: Map<Seq<char>, Seq<TranslationView>>, candidates: Seq<TranslationView>) -> bool {
    forall|i: int| 0 <= i < candidates.len() ==> index.contains_key(#[trigger] candidates[i].translations)
}

/// The test "this report is of kind `kind`".
pub open spec fn of_kind(kind: DuplicationType) -> spec_fn(DuplicationReportView) -> bool {
    |r: DuplicationReportView| r.duplication_type == kind
}

/// How many of the reports are of kind `kind`.
pub open spec fn count_of(reports: Seq<DuplicationReportView>, kind: DuplicationType) -> nat {
    reports.filter(of_kind(kind)).len()
}

/// The texts that the vectors of characters hold.
spec fn texts(chars: &Vec<Vec<char>>) -> Seq<Seq<char>> {
    Seq::new(chars.len() as nat, |i: int| chars[i]@)
}

/// The characters of each location.
fn location_chars(locations: &[String]) -> (chars: Vec<Vec<char>>)
    ensures
        texts(&chars) == locations.deep_view(),
{
    let mut chars: Vec<Vec<char>> = Vec::new();
    let mut i: usize = 0;
    while i < locations.len()
        invariant
            i <= locations.len(),
            chars.len() == i,
            forall|j: int| 0 <= j < i ==> (#[trigger] chars[j])@ == locations[j]@,
        decreases locations.len() - i,
    {
        chars.push(chars_of(locations[i].as_str()));
        i += 1;
    }
    assert(texts(&chars) =~= locations.deep_view());
    chars
}

/// Whether `location` stands in `path` at position `i` as a run of whole
/// segments.
fn chars_lie_under_at(path: &Vec<char>, location: &Vec<char>, i: usize) -> (found: bool)
    ensures
        found == lies_under_at(path@, location@, i as int),
{
    if !chars_occur_at(location, path, i) {
        return false;
    }
    assert(i + location.len() <= path.len());
    let end: usize = i + location.len();
    (i == 0 || path[i - 1] == '/') && (end == path.len() || path[end] == '/')
}

/// Whether the path with these characters lies under the location with
/// those.
fn chars_lie_under(path: &Vec<char>, location: &Vec<char>) -> (found: bool)
    ensures
        found == lies_under(path@, location@),
{
    if location.len() > path.len() {
        return false;
    }
    let last: usize = path.len() - location.len();
    let mut i: usize = 0;
    while i < last
        invariant
            i <= last,
            last == path.len() - location.len(),
            forall|j: int| 0 <= j < i ==> !lies_under_at(path@, location@, j),
        decreases last - i,
    {
        if chars_lie_under_at(path, location, i) {
            return true;
        }
        i += 1;
    }
    chars_lie_under_at(path, location, last)
}

/// Whether the file at `path` lies under `location`.
pub fn path_lies_under(path: &str, location: &str) -> (found: bool)
    ensures
        found == lies_under(path@, location@),
{
    let path_chars = chars_of(path);
    let location_chars = chars_of(location);
    chars_lie_under(&path_chars, &location_chars)
}

/// Whether `path` lies under one of `locations`.
fn path_lies_under_any(path: &Vec<char>, locations: &Vec<Vec<char>>) -> (found: bool)
    ensures
        found == lies_under_any(path@, texts(locations)),
{
    let mut i: usize = 0;
    while i < locations.len()
        invariant
            i <= locations.len(),
            forall|j: int| 0 <= j < i ==> !lies_under(path@, #[trigger] texts(locations)[j]),
        decreases locations.len() - i,
    {
        if chars_lie_under(path, &locations[i]) {
            assert(lies_under(path@, texts(locations)[i as int]));
            return true;
        }
        i += 1;
    }
    false
}

/// Whether one of the records lies under a shared-translations location.
fn group_touches_shared(group: &[&Translation], shared: &Vec<Vec<char>>) -> (found: bool)
    ensures
        found == touches_shared(group.deep_view(), texts(shared)),
{
    let mut i: usize = 0;
    while i < group.len()
        invariant
            i <= group.len(),
            forall|j: int| 0 <= j < i ==> !lies_under_any(#[trigger] group.deep_view()[j].path, texts(shared)),
        decreases group.len() - i,
    {
        let path = chars_of(group[i].path.as_str());
        if path_lies_under_any(&path, shared) {
            assert(lies_under_any(group.deep_view()[i as int].path, texts(shared)));
            return true;
        }
        i += 1;
    }
    false
}

/// How many of the records lie under `project`.
fn group_count_under(group: &[&Translation], project: &Vec<char>) -> (count: usize)
    ensures
        count == count_under(group.deep_view(), project@),
{
    let ghost all = group.deep_view();
    let ghost inside = under(project@);
    let mut count: usize = 0;
    let mut i: usize = 0;
    proof {
        reveal(Seq::filter);
        assert(all.take(0).filter(inside) =~= Seq::empty());
    }
    while i < group.len()
        invariant
            i <= group.len(),
            all == group.deep_view(),
            inside == under(project@),
            count == all.take(i as int).filter(inside).len(),
            count <= i,
        decreases group.len() - i,
    {
        proof {
            assert(all.take(i + 1) == all.take(i as int).push(all[i as int]));
            all.take(i as int).lemma_filter_push(all[i as int], inside);
        }
        let path = chars_of(group[i].path.as_str());
        if chars_lie_under(&path, project) {
            count += 1;
        }
        i += 1;
    }
    proof {
        assert(all.take(i as int) == all);
    }
    count
}

/// Says what kind of duplication the records of one value stand for, seen
/// from the package `project_path`, with `shared_paths` as the
/// shared-translations locations.
pub fn classify_group(group: &[&Translation], shared_paths: &[String], project_path: &str) -> (kind: DuplicationType)
    ensures
        kind == classify(group.deep_view(), shared_paths.deep_view(), project_path@),
{
    let shared = location_chars(shared_paths);
    let project = chars_of(project_path);
    classify_records(group, &shared, &project)
}

fn classify_records(group: &[&Translation], shared: &Vec<Vec<char>>, project: &Vec<char>) -> (kind: DuplicationType)
    ensures
        kind == classify(group.deep_view(), texts(shared), project@),
{
    if group_touches_shared(group, shared) {
        DuplicationType::CommonTranslation
    } else if group_count_under(group, project) > 1 {
        DuplicationType::InterPackage
    } else {
        DuplicationType::ExternalProjects
    }
}

/// Reports the duplicates among the records of one package.
///
/// `translations_to_check` are the records of the package `project_path`,
/// `shared_paths` the shared-translations locations, and `all_translations`
/// the value index of every record that was loaded, not of the package
/// alone. A record whose value the index files exactly once is no duplicate
/// and gets no report; every other record gets one, in the order of
/// `translations_to_check`, with the kind that `classify` gives to the
/// records of its value.
pub fn analyse_duplication<'a>(
    project_path: &str,
    shared_paths: &[String],
    translations_to_check: &[&'a Translation],
    all_translations: &TranslationIndex<'_>,
) -> (duplications: Vec<DuplicationReport<'a>>)
    requires
        index_covers(all_translations@, translations_to_check.deep_view()),
    ensures
        duplications.deep_view() == duplication_reports(
            project_path@,
            shared_paths.deep_view(),
            translations_to_check.deep_view(),
            all_translations@,
        ),
{
    let shared = location_chars(shared_paths);
    let project = chars_of(project_path);
    let ghost candidates = translations_to_check.deep_view();
    let ghost index = all_translations@;
    let ghost duplicated = duplicated_in(index);
    let ghost report = report_on(index, shared_paths.deep_view(), project_path@);
    let mut duplications: Vec<DuplicationReport<'a>> = Vec::new();
    let mut i: usize = 0;
    proof {
        reveal(Seq::filter);
        assert(candidates.take(0).filter(duplicated) =~= Seq::empty());
        assert(duplications.deep_view() =~= candidates.take(0).filter(duplicated).map_values(report));
    }
    while i < translations_to_check.len()
        invariant
            i <= translations_to_check.len(),
            candidates == translations_to_check.deep_view(),
            index == all_translations@,
            index_covers(index, candidates),
            duplicated == duplicated_in(index),
            report == report_on(index, shared_paths.deep_view(), project_path@),
            texts(&shared) == shared_paths.deep_view(),
            project@ == project_path@,
            duplications.deep_view() == candidates.take(i as int).filter(duplicated).map_values(report),
        decreases translations_to_check.len() - i,
    {
        let translation: &'a Translation = translations_to_check[i];
        let ghost before = duplications.deep_view();
        proof {
            assert(candidates[i as int] == translation@);
            assert(index.contains_key(candidates[i as int].translations));
            assert(candidates.take(i + 1) == candidates.take(i as int).push(translation@));
            candidates.take(i as int).lemma_filter_push(translation@, duplicated);
        }
        match all_translations.get(translation.translations.as_str()) {
            Some(translations_found) => {
                if translations_found.len() != 1 {
                    let duplication_type = classify_records(translations_found.as_slice(), &shared, &project);
                    duplications.push(DuplicationReport { translation, duplication_type });
                    proof {
                        let kept = candidates.take(i as int).filter(duplicated);
                        assert(duplications.deep_view() =~= before.push(report(translation@)));
                        assert(kept.push(translation@).map_values(report) =~= kept.map_values(report).push(
                            report(translation@),
                        ));
                    }
                }
            },
            None => {},
        }
        i += 1;
    }
    proof {
        assert(candidates.take(i as int) == candidates);
    }
    duplications
}

/// Counts the reports of each kind. The three counts add up to the total,
/// which is the number of reports.
pub fn count_duplications(duplications: &[DuplicationReport<'_>]) -> (counts: DuplicationCounts)
    ensures
        counts.inter_package == count_of(duplications.deep_view(), DuplicationType::InterPackage),
        counts.common_translation == count_of(duplications.deep_view(), DuplicationType::CommonTranslation),
        counts.external_projects == count_of(duplications.deep_view(), DuplicationType::ExternalProjects),
        counts.total == duplications.len(),
        counts.inter_package + counts.common_translation + counts.external_projects == counts.total,
{
    let ghost all = duplications.deep_view();
    let ghost inter = of_kind(DuplicationType::InterPackage);
    let ghost common = of_kind(DuplicationType::CommonTranslation);
    let ghost external = of_kind(DuplicationType::ExternalProjects);
    let mut inter_package: usize = 0;
    let mut common_translation: usize = 0;
    let mut external_projects: usize = 0;
    let mut i: usize = 0;
    proof {
        reveal(Seq::filter);
        assert(all.take(0).filter(inter) =~= Seq::empty());
        assert(all.take(0).filter(common) =~= Seq::empty());
        assert(all.take(0).filter(external) =~= Seq::empty());
    }
    while i < duplications.len()
        invariant
            i <= duplications.len(),
            all == duplications.deep_view(),
            inter == of_kind(DuplicationType::InterPackage),
            common == of_kind(DuplicationType::CommonTranslation),
            external == of_kind(DuplicationType::ExternalProjects),
            inter_package == all.take(i as int).filter(inter).len(),
            common_translation == all.take(i as int).filter(common).len(),
            external_projects == all.take(i as int).filter(external).len(),
            inter_package + common_translation + external_projects == i,
        decreases duplications.len() - i,
    {
        proof {
            let seen = all.take(i as int);
            assert(all.take(i + 1) == seen.push(all[i as int]));
            seen.lemma_filter_push(all[i as int], inter);
            seen.lemma_filter_push(all[i as int], common);
            seen.lemma_filter_push(all[i as int], external);
            assert(all[i as int] == duplications[i as int]@);
        }
        match duplications[i].duplication_type {
            DuplicationType::InterPackage => {
                inter_package += 1;
            },
            DuplicationType::CommonTranslation => {
                common_translation += 1;
            },
            DuplicationType::ExternalProjects => {
                external_projects += 1;
            },
        }
        i += 1;
    }
    proof {
        assert(all.take(i as int) == all);
    }
    DuplicationCounts { inter_package, common_translation, external_projects, total: duplications.len() }
}

/// A path that reads the location between its beginning or a `/` and its
/// end or a `/` lies under the location.
pub proof fn lemma_path_through_location_lies_under(before: Seq<char>, location: Seq<char>, after: Seq<char>)
    requires
        before.len() == 0 || before.last() == '/',
        after.len() == 0 || after[0] == '/',
    ensures
        lies_under(before + location + after, location),
{
    let path = before + location + after;
    let i = before.len() as int;
    assert(path.subrange(i, i + location.len()) =~= location);
    assert(lies_under_at(path, location, i));
}

/// Shared translations win: where one of the records of a value lies under a
/// shared-translations location, the value counts as shared on purpose,
/// however often it also occurs in the analysed package.
pub proof fn lemma_shared_location_wins(group: Seq<TranslationView>, shared: Seq<Seq<char>>, project: Seq<char>)
    requires
        touches_shared(group, shared),
    ensures
        classify(group, shared, project) == DuplicationType::CommonTranslation,
{
}

/// A value that two records of the analysed package hold, and that lives
/// under no shared-translations location, is a repetition within the
/// package.
pub proof fn lemma_twice_in_package_is_inter_package(
    group: Seq<TranslationView>,
    shared: Seq<Seq<char>>,
    project: Seq<char>,
    i: int,
    j: int,
)
    requires
        !touches_shared(group, shared),
        0 <= i < j < group.len(),
        lies_under(group[i].path, project),
        lies_under(group[j].path, project),
    ensures
        classify(group, shared, project) == DuplicationType::InterPackage,
{
    lemma_filter_len_by_positions(group, under(project));
    assert(under(project)(group[i]) && under(project)(group[j]));
}

/// A value that at most one record of the analysed package holds, and that
/// lives under no shared-translations location, is a repetition in unrelated
/// packages.
pub proof fn lemma_once_in_package_is_external(group: Seq<TranslationView>, shared: Seq<Seq<char>>, project: Seq<char>)
    requires
        !touches_shared(group, shared),
        forall|i: int, j: int|
            0 <= i < j < group.len() ==> !(lies_under(#[trigger] group[i].path, project) && lies_under(
                #[trigger] group[j].path,
                project,
            )),
    ensures
        classify(group, shared, project) == DuplicationType::ExternalProjects,
{
    lemma_filter_len_by_positions(group, under(project));
    if count_under(group, project) >= 2 {
        let (i, j) = choose|i: int, j: int|
            0 <= i < j < group.len() && under(project)(#[trigger] group[i]) && under(project)(#[trigger] group[j]);
        assert(lies_under(group[i].path, project) && lies_under(group[j].path, project));
    }
}

/// A record whose value occurs once in the whole corpus is never reported,
/// whatever package is analysed.
pub proof fn lemma_unique_value_is_never_reported(
    project: Seq<char>,
    shared: Seq<Seq<char>>,
    candidates: Seq<TranslationView>,
    corpus: Seq<TranslationView>,
    value: Seq<char>,
)
    requires
        corpus.filter(keyed(by_value(), value)).len() == 1,
    ensures
        forall|i: int|
            0 <= i < duplication_reports(project, shared, candidates, value_index(corpus)).len() ==> (
            #[trigger] duplication_reports(project, shared, candidates, value_index(corpus))[i]).translation.translations
                != value,
{
    let index = value_index(corpus);
    let kept = candidates.filter(duplicated_in(index));
    let reports = duplication_reports(project, shared, candidates, index);
    let holders = corpus.filter(keyed(by_value(), value));
    assert(holders.contains(holders[0]));
    corpus.lemma_filter_contains_rev(keyed(by_value(), value), holders[0]);
    corpus.lemma_filter_pred(keyed(by_value(), value), 0);
    let at = choose|at: int| 0 <= at < corpus.len() && corpus[at] == holders[0];
    assert(by_value()(corpus[at]) == value);
    assert(index.contains_key(value));
    assert forall|i: int| 0 <= i < reports.len() implies (#[trigger] reports[i]).translation.translations != value by {
        candidates.lemma_filter_pred(duplicated_in(index), i);
        assert(reports[i].translation == kept[i]);
    }
}

/// How many elements pass a test, read off the positions that pass it: at
/// least one passes exactly when some position does, at least two exactly
/// when two positions do.
pub proof fn lemma_filter_len_by_positions(s: Seq<TranslationView>, pred: spec_fn(TranslationView) -> bool)
    ensures
        s.filter(pred).len() >= 1 <==> exists|i: int| 0 <= i < s.len() && pred(#[trigger] s[i]),
        s.filter(pred).len() >= 2 <==> exists|i: int, j: int|
            0 <= i < j < s.len() && pred(#[trigger] s[i]) && pred(#[trigger] s[j]),
    decreases s.len(),
{
    reveal(Seq::filter);
    if s.len() > 0 {
        let rest = s.drop_last();
        let last = s.len() - 1;
        lemma_filter_len_by_positions(rest, pred);
        assert(forall|i: int| 0 <= i < rest.len() ==> rest[i] == s[i]);
        if rest.filter(pred).len() >= 1 {
            let i = choose|i: int| 0 <= i < rest.len() && pred(#[trigger] rest[i]);
            assert(pred(s[i]));
            if pred(s[last]) {
                assert(0 <= i < last < s.len() && pred(s[i]) && pred(s[last]));
            }
        }
        if rest.filter(pred).len() >= 2 {
            let (i, j) = choose|i: int, j: int| 0 <= i < j < rest.len() && pred(#[trigger] rest[i]) && pred(#[trigger] rest[j]);
            assert(0 <= i < j < s.len() && pred(s[i]) && pred(s[j]));
        }
        if exists|i: int| 0 <= i < s.len() && pred(#[trigger] s[i]) {
            let i = choose|i: int| 0 <= i < s.len() && pred(#[trigger] s[i]);
            if i < last {
                assert(pred(rest[i]));
            }
        }
        if exists|i: int, j: int| 0 <= i < j < s.len() && pred(#[trigger] s[i]) && pred(#[trigger] s[j]) {
            let (i, j) = choose|i: int, j: int| 0 <= i < j < s.len() && pred(#[trigger] s[i]) && pred(#[trigger] s[j]);
            assert(pred(rest[i]));
            if j < last {
                assert(pred(rest[j]));
            }
        }
    }
}

/// The value index of a corpus knows the value of every record picked from
/// that corpus.
pub proof fn lemma_value_index_covers_selection(
    corpus: Seq<TranslationView>,
    selected: spec_fn(TranslationView) -> bool,
)
    ensures
        index_covers(value_index(corpus), corpus.filter(selected)),
{
    let picked = corpus.filter(selected);
    assert forall|i: int| 0 <= i < picked.len() implies value_index(corpus).contains_key(
        #[trigger] picked[i].translations,
    ) by {
        assert(picked.contains(picked[i]));
        corpus.lemma_filter_contains_rev(selected, picked[i]);
        let at = choose|at: int| 0 <= at < corpus.len() && corpus[at] == picked[i];
        assert(by_value()(corpus[at]) == picked[i].translations);
    }
}

/// Every report is about a candidate that is a duplicate, and bears the kind
/// that the records of its value stand for.
pub proof fn lemma_report_is_about_candidate(
    project: Seq<char>,
    shared: Seq<Seq<char>>,
    candidates: Seq<TranslationView>,
    index: Map<Seq<char>, Seq<TranslationView>>,
    i: int,
)
    requires
        0 <= i < duplication_reports(project, shared, candidates, index).len(),
    ensures
        candidates.contains(duplication_reports(project, shared, candidates, index)[i].translation),
        index[duplication_reports(project, shared, candidates, index)[i].translation.translations].len() != 1,
        duplication_reports(project, shared, candidates, index)[i].duplication_type == classify(
            index[duplication_reports(project, shared, candidates, index)[i].translation.translations],
            shared,
            project,
        ),
{
    let kept = candidates.filter(duplicated_in(index));
    candidates.lemma_filter_pred(duplicated_in(index), i);
    assert(kept.contains(kept[i]));
    candidates.lemma_filter_contains_rev(duplicated_in(index), kept[i]);
}

} // verus!
