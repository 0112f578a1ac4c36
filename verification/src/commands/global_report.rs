//! How many duplicates of each kind a package has.

use vstd::prelude::*;
use vstd::string::*;

use crate::analyse_project_duplication::{
    analyse_duplication, count_duplications, count_of, duplication_reports, lemma_value_index_covers_selection,
    DuplicationReport, DuplicationReportView, DuplicationType,
};
use crate::entities::{Translation, TranslationView};
use crate::get_translation_for_project::get_translations_for_project;
use crate::index::{first_keys, keyed, lemma_first_keys_contains};
use crate::map_translations_by_key::{map_translations_by_translation, value_index};
use crate::map_translations_by_project::{by_package, map_translations_by_project, package_index};
use crate::settings::Settings;

verus! {

/// The counts of one package's duplicates, with the number of translation
/// files that the search found.
#[derive(Debug, Clone, Copy, PartialEq, Eq, Structural)]
pub struct GlobalReportResult {
    pub files_found: usize,
    pub inter_package_duplication: usize,
    pub common_translation_duplication: usize,
    pub external_projects_duplication: usize,
    pub total_duplication: usize,
}

/// The counts of one package among all packages.
#[derive(Debug, Clone)]
pub struct ProjectReport {
    pub package_path: String,
    pub report: GlobalReportResult,
}

/// The reports on the package `package`: its records are those of `corpus`
/// whose file lies in it, and they are held against the value index of the
/// whole corpus.
pub open spec fn project_duplications(
    corpus: Seq<TranslationView>,
    shared: Seq<Seq<char>>,
    package: Seq<char>,
) -> Seq<DuplicationReportView> {
    duplication_reports(package, shared, corpus.filter(keyed(by_package(), package)), value_index(corpus))
}

/// `result` counts `reports` by kind.
pub open spec fn is_global_report(
    result: GlobalReportResult,
    files_found: usize,
    reports: Seq<DuplicationReportView>,
) -> bool {
    &&& result.files_found == files_found
    &&& result.inter_package_duplication == count_of(reports, DuplicationType::InterPackage)
    &&& result.common_translation_duplication == count_of(reports, DuplicationType::CommonTranslation)
    &&& result.external_projects_duplication == count_of(reports, DuplicationType::ExternalProjects)
    &&& result.total_duplication == reports.len()
    &&& result.inter_package_duplication + result.common_translation_duplication
        + result.external_projects_duplication == result.total_duplication
}

/// Counts the reports of a package by kind.
pub fn summarise(files_found: usize, duplications: &[DuplicationReport<'_>]) -> (result: GlobalReportResult)
    ensures
        is_global_report(result, files_found, duplications.deep_view()),
{
    let counts = count_duplications(duplications);
    GlobalReportResult {
        files_found,
        inter_package_duplication: counts.inter_package,
        common_translation_duplication: counts.common_translation,
        external_projects_duplication: counts.external_projects,
        total_duplication: counts.total,
    }
}

/// The global report of one package: how many of its records duplicate
/// others, by kind.
///
/// `translations` are the records of all files that were loaded,
/// `files_found` the number of those files. The package's records are held
/// against the value index of all records, with the shared-translations
/// locations of `config`.
pub fn global_report_for_project(
    files_found: usize,
    translations: &[Translation],
    config: &Settings,
    package_path: &str,
) -> (result: GlobalReportResult)
    ensures
        is_global_report(
            result,
            files_found,
            project_duplications(
                translations.deep_view(),
                config.common_translations_modules_path.deep_view(),
                package_path@,
            ),
        ),
{
    let translations_indexed = map_translations_by_translation(translations);
    let project_translations = get_translations_for_project(package_path, translations);
    let shared = config.common_translations_modules_path.as_slice();
    let candidates = project_translations.as_slice();
    proof {
        lemma_value_index_covers_selection(translations.deep_view(), keyed(by_package(), package_path@));
        assert(shared.deep_view() =~= config.common_translations_modules_path.deep_view());
        assert(candidates.deep_view() =~= project_translations.deep_view());
    }
    let reports_duplication = analyse_duplication(package_path, shared, candidates, &translations_indexed);
    let duplications = reports_duplication.as_slice();
    proof {
        assert(duplications.deep_view() =~= reports_duplication.deep_view());
    }
    summarise(files_found, duplications)
}

/// The global report of every package: for each package that has a record,
/// in the order in which the packages first occur among the records, the
/// counts that `global_report_for_project` gives for it.
pub fn global_report_all(files_found: usize, translations: &[Translation], config: &Settings) -> (reports: Vec<
    ProjectReport,
>)
    ensures
        reports.len() == first_keys(translations.deep_view(), by_package()).len(),
        forall|i: int|
            0 <= i < reports.len() ==> {
                let package = first_keys(translations.deep_view(), by_package())[i];
                &&& (#[trigger] reports[i]).package_path@ == package
                &&& is_global_report(
                    reports[i].report,
                    files_found,
                    project_duplications(
                        translations.deep_view(),
                        config.common_translations_modules_path.deep_view(),
                        package,
                    ),
                )
            },
{
    let translations_indexed = map_translations_by_translation(translations);
    let mapped_by_project = map_translations_by_project(translations);
    let shared = config.common_translations_modules_path.as_slice();
    let packages = mapped_by_project.keys();
    let ghost corpus = translations.deep_view();
    let ghost keys = first_keys(corpus, by_package());
    let mut reports: Vec<ProjectReport> = Vec::new();
    let mut i: usize = 0;
    proof {
        assert(shared.deep_view() =~= config.common_translations_modules_path.deep_view());
    }
    while i < packages.len()
        invariant
            i <= packages.len(),
            corpus == translations.deep_view(),
            keys == first_keys(corpus, by_package()),
            packages.deep_view() == keys,
            mapped_by_project@ == package_index(corpus),
            translations_indexed@ == value_index(corpus),
            shared.deep_view() == config.common_translations_modules_path.deep_view(),
            reports.len() == i,
            forall|j: int|
                0 <= j < i ==> {
                    &&& (#[trigger] reports[j]).package_path@ == keys[j]
                    &&& is_global_report(
                        reports[j].report,
                        files_found,
                        project_duplications(corpus, config.common_translations_modules_path.deep_view(), keys[j]),
                    )
                },
        decreases packages.len() - i,
    {
        let package_path = &packages[i];
        proof {
            assert(package_path@ == keys[i as int]);
            assert(keys.contains(keys[i as int]));
            lemma_first_keys_contains(corpus, by_package(), package_path@);
            assert(package_index(corpus).contains_key(package_path@));
            lemma_value_index_covers_selection(corpus, keyed(by_package(), package_path@));
        }
        match mapped_by_project.get(package_path.as_str()) {
            Some(project_translations) => {
                let candidates = project_translations.as_slice();
                proof {
                    assert(candidates.deep_view() =~= project_translations.deep_view());
                }
                let reports_duplication = analyse_duplication(
                    package_path.as_str(),
                    shared,
                    candidates,
                    &translations_indexed,
                );
                let duplications = reports_duplication.as_slice();
                proof {
                    assert(duplications.deep_view() =~= reports_duplication.deep_view());
                }
                let report = summarise(files_found, duplications);
                reports.push(ProjectReport { package_path: package_path.clone(), report });
            },
            None => {
                assert(false);
            },
        }
        i += 1;
    }
    reports
}

} // verus!
