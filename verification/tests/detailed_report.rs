use std::collections::HashSet;

use translations_analyzer::analyse_project_duplication::DuplicationType;
use translations_analyzer::commands::detailed_report::{add_star_if_own_package, detailed_report_for_project};
use translations_analyzer::entities::Translation;
use translations_analyzer::load_translations::{load_translation_file, load_translations};
use translations_analyzer::search_recursive_regex::{search_recursive_regex, Entry};
use translations_analyzer::Settings;

/// A directory of a tree that lives in memory: its path, the directories in
/// it and the files in it with their content.
struct Dir {
    path: String,
    directories: Vec<String>,
    files: Vec<(String, String)>,
}

fn dir(path: &str, directories: &[&str], files: &[(&str, &str)]) -> Dir {
    Dir {
        path: path.to_string(),
        directories: directories.iter().map(|d| d.to_string()).collect(),
        files: files.iter().map(|(n, c)| (n.to_string(), c.to_string())).collect(),
    }
}

fn listing(tree: &[Dir], path: &str) -> Result<Vec<Entry>, std::io::Error> {
    match tree.iter().find(|d| d.path == path) {
        None => Err(std::io::Error::new(std::io::ErrorKind::NotFound, "no such directory")),
        Some(d) => {
            let mut entries = Vec::new();
            for name in &d.directories {
                entries.push(Entry::Directory { path: format!("{}/{}", path, name), name: Some(name.clone()) });
            }
            for (name, _) in &d.files {
                entries.push(Entry::File { path: format!("{}/{}", path, name), file_name: name.clone() });
            }
            Ok(entries)
        }
    }
}

fn content(tree: &[Dir], path: &str) -> Result<String, std::io::Error> {
    for d in tree {
        for (name, text) in &d.files {
            if format!("{}/{}", d.path, name) == path {
                return Ok(text.clone());
            }
        }
    }
    Err(std::io::Error::new(std::io::ErrorKind::NotFound, "no such file"))
}

/// Searches the tree and loads what the search finds.
fn load(tree: &[Dir], root: &str, settings: &Settings) -> (usize, Vec<Translation>) {
    let mut search =
        search_recursive_regex(root, &settings.translation_file_regex, &settings.skip_directories).unwrap();
    loop {
        let next = match search.next_directory() {
            Some(path) => path.to_string(),
            None => break,
        };
        search.search_directory(listing(tree, &next)).unwrap();
    }
    let matches = search.into_results();
    let loaded = matches.iter().map(|path| load_translation_file(path, content(tree, path))).collect();
    (matches.len(), load_translations(loaded).expect("Cannot map translations"))
}

#[test]
fn test_add_star_if_own_package_matches() {
    let result = add_star_if_own_package(
        "packages/manager/apps/zimbra",
        "packages/manager/apps/zimbra/Messages_fr_FR.json",
    );
    assert_eq!(result, "**");
}

#[test]
fn test_add_star_if_own_package_no_match() {
    let result = add_star_if_own_package(
        "packages/manager/apps/zimbra",
        "packages/manager/apps/mail/Messages_fr_FR.json",
    );
    assert_eq!(result, "");
}

#[test]
fn test_add_star_if_own_package_modules_vs_apps() {
    let result = add_star_if_own_package(
        "packages/manager/apps/zimbra",
        "packages/manager/modules/common-translations/Messages_fr_FR.json",
    );
    assert_eq!(result, "");
}

#[test]
fn test_add_star_if_own_package_same_module() {
    let result = add_star_if_own_package(
        "packages/manager/modules/backup-agent",
        "packages/manager/modules/backup-agent/translations/Messages_fr_FR.json",
    );
    assert_eq!(result, "**");
}

#[test]
fn test_add_star_if_own_package_nested_paths() {
    let result = add_star_if_own_package(
        "packages/manager/apps/zimbra",
        "packages/manager/apps/zimbra/src/components/Messages_fr_FR.json",
    );
    assert_eq!(result, "**");
}

#[test]
fn test_add_star_if_own_package_unknown_path() {
    let result = add_star_if_own_package(
        "packages/manager/apps/zimbra",
        "some/random/path/Messages_fr_FR.json",
    );
    assert_eq!(result, "");
}

#[test]
fn test_hashset_deduplication() {
    let mut displayed: HashSet<String> = HashSet::new();
    assert!(displayed.insert("translation1".to_string()));
    assert!(!displayed.insert("translation1".to_string()));
    assert!(displayed.insert("translation2".to_string()));
}

#[test]
fn test_detailed_report_for_project_integration() {
    let tree = vec![
        dir("/repo", &["packages"], &[]),
        dir("/repo/packages", &["manager"], &[]),
        dir("/repo/packages/manager", &["apps", "modules"], &[]),
        dir("/repo/packages/manager/apps", &["zimbra", "mail"], &[]),
        dir("/repo/packages/manager/modules", &["common-translations"], &[]),
        dir(
            "/repo/packages/manager/apps/zimbra",
            &[],
            &[(
                "Messages_fr_FR.json",
                r#"{
                "welcome.title": "Bienvenue dans Zimbra",
                "shared.save": "Enregistrer",
                "duplicate.across": "Texte partagé"
            }"#,
            )],
        ),
        dir(
            "/repo/packages/manager/apps/mail",
            &[],
            &[(
                "Messages_fr_FR.json",
                r#"{
                "mail.subject": "Sujet du mail",
                "duplicate.across": "Texte partagé",
                "shared.save": "Enregistrer"
            }"#,
            )],
        ),
        dir(
            "/repo/packages/manager/modules/common-translations",
            &[],
            &[(
                "Messages_fr_FR.json",
                r#"{
                "common.close": "Fermer",
                "shared.save": "Enregistrer"
            }"#,
            )],
        ),
    ];
    let settings = Settings {
        common_translations_modules_path: vec!["packages/manager/modules/common-translations".to_string()],
        translation_file_regex: r"Messages_fr_FR\.json$".to_string(),
        skip_directories: vec![".git".to_string(), "node_modules".to_string()],
    };

    let (files_found, translations) = load(&tree, "/repo", &settings);
    let result = detailed_report_for_project(files_found, &translations, &settings, "packages/manager/apps/zimbra");

    assert_eq!(result.files_found, 3);
    assert_eq!(result.global_report.total_duplication, 2);
    assert_eq!(result.global_report.common_translation_duplication, 1);
    assert_eq!(result.global_report.external_projects_duplication, 1);
    assert_eq!(result.global_report.inter_package_duplication, 0);
    assert_eq!(result.duplications.len(), 2);
    // serde_json hands the keys out in their order: duplicate.across, shared.save, welcome.title
    let across = &result.duplications[0];
    assert_eq!(across.translation_key, "duplicate.across");
    assert_eq!(across.translation_value, "\"Texte partagé\"");
    assert_eq!(across.duplication_type, DuplicationType::ExternalProjects);
    assert_eq!(across.occurrences_count, 2);
    let shared = &result.duplications[1];
    assert_eq!(shared.translation_key, "shared.save");
    assert_eq!(shared.duplication_type, DuplicationType::CommonTranslation);
    assert_eq!(shared.occurrences_count, 3);
    let own: Vec<&str> =
        shared.usages.iter().filter(|u| u.marker == "**").map(|u| u.path.as_str()).collect();
    assert_eq!(own, vec!["/repo/packages/manager/apps/zimbra/Messages_fr_FR.json"]);
}

#[test]
fn test_detailed_report_with_inter_package_duplicates() {
    let tree = vec![
        dir("/repo", &["packages"], &[]),
        dir("/repo/packages", &["manager"], &[]),
        dir("/repo/packages/manager", &["apps"], &[]),
        dir("/repo/packages/manager/apps", &["zimbra"], &[]),
        dir(
            "/repo/packages/manager/apps/zimbra",
            &["subfolder"],
            &[(
                "Messages_fr_FR.json",
                r#"{
                "duplicate.internal": "Duplication interne"
            }"#,
            )],
        ),
        dir(
            "/repo/packages/manager/apps/zimbra/subfolder",
            &[],
            &[(
                "Messages_fr_FR.json",
                r#"{
                "duplicate.internal": "Duplication interne"
            }"#,
            )],
        ),
    ];
    let settings = Settings {
        common_translations_modules_path: vec![],
        translation_file_regex: r"Messages_fr_FR\.json$".to_string(),
        skip_directories: vec![],
    };

    let (files_found, translations) = load(&tree, "/repo", &settings);
    let result = detailed_report_for_project(files_found, &translations, &settings, "packages/manager/apps/zimbra");

    assert_eq!(result.files_found, 2);
    assert_eq!(result.global_report.inter_package_duplication, 2);
    assert_eq!(result.global_report.total_duplication, 2);
    assert_eq!(result.duplications.len(), 1, "Should detect inter-package duplicates");
    assert_eq!(result.duplications[0].duplication_type, DuplicationType::InterPackage);
    assert_eq!(result.duplications[0].usages.len(), 2);
    assert!(result.duplications[0].usages.iter().all(|u| u.marker == "**"));
}

#[test]
fn test_detailed_report_with_no_duplicates() {
    let tree = vec![
        dir("/repo", &["packages"], &[]),
        dir("/repo/packages", &["manager"], &[]),
        dir("/repo/packages/manager", &["apps"], &[]),
        dir("/repo/packages/manager/apps", &["zimbra", "mail"], &[]),
        dir(
            "/repo/packages/manager/apps/zimbra",
            &[],
            &[(
                "Messages_fr_FR.json",
                r#"{
                "unique.zimbra": "Texte unique Zimbra"
            }"#,
            )],
        ),
        dir(
            "/repo/packages/manager/apps/mail",
            &[],
            &[(
                "Messages_fr_FR.json",
                r#"{
                "unique.mail": "Texte unique Mail"
            }"#,
            )],
        ),
    ];
    let settings = Settings {
        common_translations_modules_path: vec![],
        translation_file_regex: r"Messages_fr_FR\.json$".to_string(),
        skip_directories: vec![],
    };

    let (files_found, translations) = load(&tree, "/repo", &settings);
    let result = detailed_report_for_project(files_found, &translations, &settings, "packages/manager/apps/zimbra");

    assert_eq!(result.files_found, 2);
    assert_eq!(result.global_report.total_duplication, 0, "Should handle no duplicates gracefully");
    assert!(result.duplications.is_empty());
}
