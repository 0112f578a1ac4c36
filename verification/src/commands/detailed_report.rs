//! The duplicated values of a package, each with every place it occurs in.

use vstd::hash_set::StringHashSet;
use vstd::prelude::*;
use vstd::string::*;

use crate::analyse_project_duplication::{
    analyse_duplication, lemma_report_is_about_candidate, lemma_value_index_covers_selection, DuplicationReport,
    DuplicationReportView, DuplicationType,
};
use crate::commands::global_report::{is_global_report, project_duplications, summarise, GlobalReportResult};
use crate::entities::{Translation, TranslationView};
use crate::get_translation_for_project::get_translations_for_project;
use crate::index::{keyed, TranslationIndex};
use crate::map_translations_by_key::{map_translations_by_translation, value_index};
use crate::map_translations_by_project::{by_package, get_package_path, package_path_of};
use crate::settings::Settings;

verus! {

/// One place in which a duplicated value occurs.
#[derive(Debug, Clone)]
pub struct TranslationUsage {
    /// `**` where the place lies in the analysed package, and else nothing.
    pub marker: String,
    /// The file that holds the value.
    pub path: String,
    /// The key under which the file holds it.
    pub key: String,
}

/// A usage as the contracts see it.
pub struct TranslationUsageView {
    pub marker: Seq<char>,
    pub path: Seq<char>,
    pub key: Seq<char>,
}

impl View for TranslationUsage {
    type V = TranslationUsageView;

    open spec fn view(&self) -> TranslationUsageView {
        TranslationUsageView { marker: self.marker@, path: self.path@, key: self.key@ }
    }
}

impl DeepView for TranslationUsage {
    type V = TranslationUsageView;

    open spec fn deep_view(&self) -> TranslationUsageView {
        self@
    }
}

/// One duplicated value of the analysed package: the record of the package
/// that holds it first, the kind of the duplication, and every place in
/// which the value occurs.
#[derive(Debug, Clone)]
pub struct DuplicationReportData {
    pub translation_key: String,
    pub translation_value: String,
    pub file_path: String,
    pub duplication_type: DuplicationType,
    pub occurrences_count: usize,
    pub usages: Vec<TranslationUsage>,
}

/// A duplicated value as the contracts see it.
pub struct DuplicationReportDataView {
    pub translation_key: Seq<char>,
    pub translation_value: Seq<char>,
    pub file_path: Seq<char>,
    pub duplication_type: DuplicationType,
    pub occurrences_count: nat,
    pub usages: Seq<TranslationUsageView>,
}

impl View for DuplicationReportData {
    type V = DuplicationReportDataView;

    open spec fn view(&self) -> DuplicationReportDataView {
        DuplicationReportDataView {
            translation_key: self.translation_key@,
            translation_value: self.translation_value@,
            file_path: self.file_path@,
            duplication_type: self.duplication_type,
            occurrences_count: self.occurrences_count as nat,
            usages: self.usages.deep_view(),
        }
    }
}

impl DeepView for DuplicationReportData {
    type V = DuplicationReportDataView;

    open spec fn deep_view(&self) -> DuplicationReportDataView {
        self@
    }
}

/// The detailed report of one package.
#[derive(Debug, Clone)]
pub struct DetailedReportResult {
    pub files_found: usize,
    pub global_report: GlobalReportResult,
    pub duplications: Vec<DuplicationReportData>,
}

/// The mark of a place: `**` where it lies in the package, else nothing.
pub open spec fn star(package: Seq<char>, path: Seq<char>) -> Seq<char> {
    if package_path_of(path) == package {
        "**"@
    } else {
        ""@
    }
}

/// The usage that a record stands for, seen from `package`.
pub open spec fn usage_in(package: Seq<char>) -> spec_fn(TranslationView) -> TranslationUsageView {
    |t: TranslationView| TranslationUsageView { marker: star(package, t.path), path: t.path, key: t.key }
}

/// What the detailed report says of the value of one report.
pub open spec fn data_on(
    index: Map<Seq<char>, Seq<TranslationView>>,
    package: Seq<char>,
) -> spec_fn(DuplicationReportView) -> DuplicationReportDataView {
    |r: DuplicationReportView|
        DuplicationReportDataView {
            translation_key: r.translation.key,
            translation_value: r.translation.translations,
            file_path: r.translation.path,
            duplication_type: r.duplication_type,
            occurrences_count: index[r.translation.translations].len(),
            usages: index[r.translation.translations].map_values(usage_in(package)),
        }
}

/// An earlier report is about the value `value`.
pub open spec fn reported(reports: Seq<DuplicationReportView>, value: Seq<char>) -> bool {
    exists|j: int| 0 <= j < reports.len() && (#[trigger] reports[j]).translation.translations == value
}

/// The reports without those whose value an earlier report is about.
pub open spec fn first_of_each_value(reports: Seq<DuplicationReportView>) -> Seq<DuplicationReportView>
    decreases reports.len(),
{
    if reports.len() == 0 {
        Seq::empty()
    } else {
        let earlier = first_of_each_value(reports.drop_last());
        if reported(reports.drop_last(), reports.last().translation.translations) {
            earlier
        } else {
            earlier.push(reports.last())
        }
    }
}

/// Marks a place that lies in the package: `**` where the file at
/// `translations_path` belongs to `package_path`, and nothing where it does
/// not.
pub fn add_star_if_own_package(package_path: &str, translations_path: &str) -> (marker: String)
    ensures
        marker@ == star(package_path@, translations_path@),
{
    if get_package_path(translations_path) == String::from_str(package_path) {
        return String::from_str("**");
    }
    String::from_str("")
}

/// The places in which a value occurs, one per record of the value.
fn usages_of(package_path: &str, other_usages: &Vec<&Translation>) -> (usages: Vec<TranslationUsage>)
    ensures
        usages.deep_view() == other_usages.deep_view().map_values(usage_in(package_path@)),
{
    let mut usages: Vec<TranslationUsage> = Vec::new();
    let mut i: usize = 0;
    while i < other_usages.len()
        invariant
            i <= other_usages.len(),
            usages.len() == i,
            forall|j: int| 0 <= j < i ==> (#[trigger] usages[j])@ == usage_in(package_path@)(other_usages[j]@),
        decreases other_usages.len() - i,
    {
        let other_usage = other_usages[i];
        usages.push(
            TranslationUsage {
                marker: add_star_if_own_package(package_path, other_usage.path.as_str()),
                path: other_usage.path.clone(),
                key: other_usage.key.clone(),
            },
        );
        i += 1;
    }
    assert(usages.deep_view() =~= other_usages.deep_view().map_values(usage_in(package_path@)));
    usages
}

/// Lists the duplicated values that `reports_duplication` speaks of: each
/// value once, at the place of the first report about it, with every record
/// that the index files under it.
pub fn duplicated_values(
    package_path: &str,
    reports_duplication: &[DuplicationReport<'_>],
    translations_indexed: &TranslationIndex<'_>,
) -> (duplications: Vec<DuplicationReportData>)
    requires
        forall|i: int|
            0 <= i < reports_duplication.len() ==> translations_indexed@.contains_key(
                (#[trigger] reports_duplication[i])@.translation.translations,
            ),
    ensures
        duplications.deep_view() == first_of_each_value(reports_duplication.deep_view()).map_values(
            data_on(translations_indexed@, package_path@),
        ),
{
    let ghost reports = reports_duplication.deep_view();
    let ghost index = translations_indexed@;
    let ghost data = data_on(index, package_path@);
    let mut duplications: Vec<DuplicationReportData> = Vec::new();
    let mut displayed_translations = StringHashSet::new();
    let mut i: usize = 0;
    proof {
        assert(duplications.deep_view() =~= first_of_each_value(reports.take(0)).map_values(data));
    }
    while i < reports_duplication.len()
        invariant
            i <= reports_duplication.len(),
            reports == reports_duplication.deep_view(),
            index == translations_indexed@,
            data == data_on(index, package_path@),
            forall|k: int|
                0 <= k < reports_duplication.len() ==> index.contains_key(
                    (#[trigger] reports_duplication[k])@.translation.translations,
                ),
            forall|value: Seq<char>| displayed_translations@.contains(value) <==> reported(reports.take(i as int), value),
            duplications.deep_view() == first_of_each_value(reports.take(i as int)).map_values(data),
        decreases reports_duplication.len() - i,
    {
        let duplication = &reports_duplication[i];
        let value = &duplication.translation.translations;
        let ghost seen = reports.take(i as int);
        let ghost before = duplications.deep_view();
        proof {
            assert(reports.take(i + 1).drop_last() == seen);
            assert(reports.take(i + 1).last() == duplication@);
            assert(value@ == duplication@.translation.translations);
            assert forall|other: Seq<char>| reported(reports.take(i + 1), other) <==> (reported(seen, other) || other
                == value@) by {
                if reported(reports.take(i + 1), other) {
                    let j = choose|j: int|
                        0 <= j < reports.take(i + 1).len() && (#[trigger] reports.take(i + 1)[j]).translation.translations
                            == other;
                    if j < i {
                        assert(seen[j].translation.translations == other);
                    }
                }
                if reported(seen, other) {
                    let j = choose|j: int| 0 <= j < seen.len() && (#[trigger] seen[j]).translation.translations == other;
                    assert(reports.take(i + 1)[j].translation.translations == other);
                }
                if other == value@ {
                    assert(reports.take(i + 1)[i as int].translation.translations == other);
                }
            }
        }
        if !displayed_translations.contains(value.as_str()) {
            displayed_translations.insert(value.clone());
            match translations_indexed.get(value.as_str()) {
                Some(other_usages) => {
                    let usages = usages_of(package_path, other_usages);
                    duplications.push(
                        DuplicationReportData {
                            translation_key: duplication.translation.key.clone(),
                            translation_value: value.clone(),
                            file_path: duplication.translation.path.clone(),
                            duplication_type: duplication.duplication_type,
                            occurrences_count: other_usages.len(),
                            usages,
                        },
                    );
                    proof {
                        let kept = first_of_each_value(seen);
                        assert(duplications.deep_view() =~= before.push(data(duplication@)));
                        assert(kept.push(duplication@).map_values(data) =~= kept.map_values(data).push(
                            data(duplication@),
                        ));
                    }
                },
                None => {
                    assert(false);
                },
            }
        }
        i += 1;
    }
    proof {
        assert(reports.take(i as int) == reports);
    }
    duplications
}

/// The detailed report of one package: the counts of its duplicates by
/// kind, and its duplicated values, each once, in the order in which the
/// package's records first hold them, with every place in which the value
/// occurs.
///
/// `translations` are the records of all files that were loaded,
/// `files_found` the number of those files.
pub fn detailed_report_for_project(
    files_found: usize,
    translations: &[Translation],
    config: &Settings,
    package_path: &str,
) -> (result: DetailedReportResult)
    ensures
        result.files_found == files_found,
        is_global_report(
            result.global_report,
            files_found,
            project_duplications(
                translations.deep_view(),
                config.common_translations_modules_path.deep_view(),
                package_path@,
            ),
        ),
        result.duplications.deep_view() == first_of_each_value(
            project_duplications(
                translations.deep_view(),
                config.common_translations_modules_path.deep_view(),
                package_path@,
            ),
        ).map_values(data_on(value_index(translations.deep_view()), package_path@)),
{
    let translations_indexed = map_translations_by_translation(translations);
    let project_translations = get_translations_for_project(package_path, translations);
    let shared = config.common_translations_modules_path.as_slice();
    let candidates = project_translations.as_slice();
    proof {
        lemma_value_index_covers_selection(translations.deep_view(), keyed(by_package(), package_path@));
        assert(shared.deep_view() =~= config.common_translations_modules_path.deep_view());
        assert(candidates.deep_view() =~= project_translations.deep_view());
    }
    let reports_duplication = analyse_duplication(package_path, shared, candidates, &translations_indexed);
    let duplications = reports_duplication.as_slice();
    proof {
        assert(duplications.deep_view() =~= reports_duplication.deep_view());
        assert forall|i: int| 0 <= i < duplications.len() implies translations_indexed@.contains_key(
            (#[trigger] duplications[i])@.translation.translations,
        ) by {
            lemma_report_is_about_candidate(
                package_path@,
                shared.deep_view(),
                candidates.deep_view(),
                translations_indexed@,
                i,
            );
            let reported = duplications.deep_view()[i].translation;
            let at = choose|at: int| 0 <= at < candidates.deep_view().len() && candidates.deep_view()[at] == reported;
            assert(translations_indexed@.contains_key(candidates.deep_view()[at].translations));
        }
    }
    let global_report = summarise(files_found, duplications);
    let values = duplicated_values(package_path, duplications, &translations_indexed);
    DetailedReportResult { files_found, global_report, duplications: values }
}

} // verus!
