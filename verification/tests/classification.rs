use translations_analyzer::analyse_project_duplication::{
    analyse_duplication, classify_group, count_duplications, path_lies_under, DuplicationType,
};
use translations_analyzer::entities::Translation;
use translations_analyzer::map_translations_by_key::map_translations_by_translation;

fn record(path: &str, key: &str, value: &str) -> Translation {
    Translation { path: path.to_string(), translations: value.to_string(), key: key.to_string() }
}

fn shared() -> Vec<String> {
    vec!["modules/common-translations".to_string()]
}

/// The records of `corpus` whose path begins with the directory `package`.
fn of_package<'a>(corpus: &'a [Translation], package: &str) -> Vec<&'a Translation> {
    corpus.iter().filter(|t| t.path.starts_with(&format!("{}/", package))).collect()
}

#[test]
fn value_in_shared_location_is_common_translation() {
    let corpus = vec![
        record("apps/a/Messages.json", "k1", "\"hello\""),
        record("apps/b/Messages.json", "k2", "\"hello\""),
        record("modules/common-translations/Messages.json", "k3", "\"hello\""),
    ];
    let index = map_translations_by_translation(&corpus);
    let candidates = of_package(&corpus, "apps/a");

    let reports = analyse_duplication("apps/a", &shared(), &candidates, &index);

    assert_eq!(reports.len(), 1);
    assert_eq!(reports[0].duplication_type, DuplicationType::CommonTranslation);
    assert_eq!(reports[0].translation.key, "k1");
    let counts = count_duplications(&reports);
    assert_eq!(counts.common_translation, 1);
    assert_eq!(counts.inter_package, 0);
    assert_eq!(counts.external_projects, 0);
    assert_eq!(counts.total, 1);
}

#[test]
fn value_in_two_packages_is_external() {
    let corpus = vec![
        record("apps/a/Messages.json", "k1", "\"hello\""),
        record("apps/b/Messages.json", "k2", "\"hello\""),
    ];
    let index = map_translations_by_translation(&corpus);
    let candidates = of_package(&corpus, "apps/a");

    let reports = analyse_duplication("apps/a", &shared(), &candidates, &index);

    assert_eq!(reports.len(), 1);
    assert_eq!(reports[0].duplication_type, DuplicationType::ExternalProjects);
    let counts = count_duplications(&reports);
    assert_eq!(counts.external_projects, 1);
    assert_eq!(counts.total, 1);
}

#[test]
fn value_twice_in_package_is_inter_package() {
    let corpus = vec![
        record("apps/a/Messages.json", "k1", "\"hi\""),
        record("apps/a/sub/Messages.json", "k2", "\"hi\""),
    ];
    let index = map_translations_by_translation(&corpus);
    let candidates = of_package(&corpus, "apps/a");

    let reports = analyse_duplication("apps/a", &shared(), &candidates, &index);

    assert_eq!(reports.len(), 2);
    assert!(reports.iter().all(|r| r.duplication_type == DuplicationType::InterPackage));
    let counts = count_duplications(&reports);
    assert_eq!(counts.inter_package, 2);
    assert_eq!(counts.total, 2);
}

#[test]
fn unique_value_is_never_reported() {
    let corpus = vec![
        record("apps/a/Messages.json", "k1", "\"only here\""),
        record("apps/a/Messages.json", "k2", "\"twice\""),
        record("apps/b/Messages.json", "k3", "\"twice\""),
    ];
    let index = map_translations_by_translation(&corpus);
    let candidates = of_package(&corpus, "apps/a");

    let reports = analyse_duplication("apps/a", &shared(), &candidates, &index);

    assert_eq!(reports.len(), 1);
    assert_eq!(reports[0].translation.key, "k2");
}

#[test]
fn shared_location_wins_over_repetition_in_package() {
    let group_records = vec![
        record("apps/a/Messages.json", "k1", "\"v\""),
        record("apps/a/sub/Messages.json", "k2", "\"v\""),
        record("modules/common-translations/Messages.json", "k3", "\"v\""),
    ];
    let group: Vec<&Translation> = group_records.iter().collect();

    assert_eq!(classify_group(&group, &shared(), "apps/a"), DuplicationType::CommonTranslation);
    assert_eq!(classify_group(&group, &[], "apps/a"), DuplicationType::InterPackage);
}

#[test]
fn own_single_occurrence_with_another_package_is_external() {
    let group_records =
        vec![record("apps/a/Messages.json", "k1", "\"v\""), record("apps/b/Messages.json", "k2", "\"v\"")];
    let group: Vec<&Translation> = group_records.iter().collect();

    assert_eq!(classify_group(&group, &shared(), "apps/a"), DuplicationType::ExternalProjects);
    assert_eq!(classify_group(&group, &shared(), "apps/c"), DuplicationType::ExternalProjects);
}

#[test]
fn any_of_several_shared_locations_counts() {
    let group_records =
        vec![record("apps/a/Messages.json", "k1", "\"v\""), record("libs/ui/Messages.json", "k2", "\"v\"")];
    let group: Vec<&Translation> = group_records.iter().collect();
    let locations = vec!["modules/common-translations".to_string(), "libs/ui".to_string()];

    assert_eq!(classify_group(&group, &locations, "apps/a"), DuplicationType::CommonTranslation);
}

#[test]
fn keys_play_no_part_in_duplication() {
    let corpus = vec![
        record("apps/a/Messages.json", "same.key", "\"one\""),
        record("apps/b/Messages.json", "same.key", "\"two\""),
    ];
    let index = map_translations_by_translation(&corpus);
    let candidates = of_package(&corpus, "apps/a");

    let reports = analyse_duplication("apps/a", &shared(), &candidates, &index);

    assert!(reports.is_empty());
}

#[test]
fn counts_add_up_to_the_number_of_reports() {
    let corpus = vec![
        record("apps/a/Messages.json", "k1", "\"shared\""),
        record("modules/common-translations/Messages.json", "k2", "\"shared\""),
        record("apps/a/Messages.json", "k3", "\"inside\""),
        record("apps/a/x/Messages.json", "k4", "\"inside\""),
        record("apps/a/Messages.json", "k5", "\"outside\""),
        record("apps/b/Messages.json", "k6", "\"outside\""),
        record("apps/a/Messages.json", "k7", "\"alone\""),
    ];
    let index = map_translations_by_translation(&corpus);
    let candidates = of_package(&corpus, "apps/a");

    let reports = analyse_duplication("apps/a", &shared(), &candidates, &index);
    let counts = count_duplications(&reports);

    let kinds: Vec<DuplicationType> = reports.iter().map(|r| r.duplication_type).collect();
    assert_eq!(
        kinds,
        vec![
            DuplicationType::CommonTranslation,
            DuplicationType::InterPackage,
            DuplicationType::InterPackage,
            DuplicationType::ExternalProjects,
        ]
    );
    assert_eq!(counts.common_translation, 1);
    assert_eq!(counts.inter_package, 2);
    assert_eq!(counts.external_projects, 1);
    assert_eq!(counts.total, reports.len());
    assert_eq!(counts.inter_package + counts.common_translation + counts.external_projects, counts.total);
}

#[test]
fn no_reports_give_zero_counts() {
    let counts = count_duplications(&[]);
    assert_eq!(counts.inter_package, 0);
    assert_eq!(counts.common_translation, 0);
    assert_eq!(counts.external_projects, 0);
    assert_eq!(counts.total, 0);
}

#[test]
fn path_lies_under_whole_segments_only() {
    assert!(path_lies_under("apps/a/Messages.json", "apps/a"));
    assert!(path_lies_under("/repo/apps/a/sub/Messages.json", "apps/a"));
    assert!(path_lies_under("/repo/apps/a", "apps/a"));
    assert!(path_lies_under("apps/a", "apps/a"));
    assert!(path_lies_under("/test/path", "test"));
    assert!(path_lies_under("x/apps/ab/apps/a/y", "apps/a"));
    assert!(!path_lies_under("apps/ab/Messages.json", "apps/a"));
    assert!(!path_lies_under("/repo/xapps/a/Messages.json", "apps/a"));
    assert!(!path_lies_under("packages/manager/apps/zimbra-old/m.json", "packages/manager/apps/zimbra"));
    assert!(!path_lies_under("apps/a", "apps/a/b"));
    assert!(!path_lies_under("", "apps"));
    assert!(!path_lies_under("apps/caf\u{e9}s/m.json", "apps/caf\u{e9}"));
    assert!(path_lies_under("apps/caf\u{e9}/m.json", "apps/caf\u{e9}"));
}

#[test]
fn sibling_of_the_package_is_another_package() {
    let corpus =
        vec![record("apps/a/Messages.json", "k1", "hi"), record("apps/ab/Messages.json", "k2", "hi")];
    let index = map_translations_by_translation(&corpus);
    let candidates = vec![&corpus[0]];

    let reports = analyse_duplication("apps/a", &shared(), &candidates, &index);

    assert_eq!(reports.len(), 1);
    assert_eq!(reports[0].duplication_type, DuplicationType::ExternalProjects);
}

#[test]
fn sibling_of_a_shared_location_is_not_shared() {
    let corpus = vec![
        record("apps/a/Messages.json", "k1", "hi"),
        record("apps/a/sub/Messages.json", "k2", "hi"),
        record("apps/bc/Messages.json", "k3", "hi"),
    ];
    let index = map_translations_by_translation(&corpus);
    let candidates = of_package(&corpus, "apps/a");
    let locations = vec!["apps/b".to_string()];

    let reports = analyse_duplication("apps/a", &locations, &candidates, &index);

    assert_eq!(reports.len(), 2);
    assert!(reports.iter().all(|r| r.duplication_type == DuplicationType::InterPackage));

    let group: Vec<&Translation> = corpus.iter().collect();
    assert_eq!(classify_group(&group, &locations, "apps/a"), DuplicationType::InterPackage);
    assert_eq!(classify_group(&group, &["apps/bc".to_string()], "apps/a"), DuplicationType::CommonTranslation);
}

#[test]
fn package_with_a_longer_name_does_not_count_for_the_shorter() {
    let group_records = vec![
        record("/r/packages/manager/apps/zimbra/m.json", "k1", "v"),
        record("/r/packages/manager/apps/zimbra-old/m.json", "k2", "v"),
    ];
    let group: Vec<&Translation> = group_records.iter().collect();

    assert_eq!(classify_group(&group, &[], "packages/manager/apps/zimbra"), DuplicationType::ExternalProjects);
    assert_eq!(classify_group(&group, &[], "packages/manager/apps"), DuplicationType::InterPackage);
}
