use translations_analyzer::cli::CliError;
use translations_analyzer::settings::SettingsFileManagerError;
use translations_analyzer::text::same_text;
use translations_analyzer::Settings;

#[test]
fn default_settings_are_the_documented_ones() {
    let settings = Settings::default();
    assert_eq!(
        settings.common_translations_modules_path,
        vec!["packages/manager/modules/common-translations".to_string()]
    );
    assert_eq!(settings.translation_file_regex, r"^Messages_fr_FR\.json$");
    assert_eq!(
        settings.skip_directories,
        vec![".git", "node_modules", "target", ".idea", ".vscode", "dist", "build", "manager-tools"]
    );
}

#[test]
fn settings_error_reads_as_message() {
    let error = SettingsFileManagerError::UnableToReadPath(
        "settings.json".to_string(),
        std::io::Error::new(std::io::ErrorKind::NotFound, "missing"),
    );
    assert_eq!(error.message(), "Unable to read settings file: settings.json");
}

#[test]
fn cli_errors_read_as_messages() {
    assert_eq!(CliError::CustomerNotFound("acme".to_string()).message(), "Customer acme not found");
    assert_eq!(CliError::NotImplementedYet().message(), "Not implemented yet");
    assert_eq!(CliError::CommandNotExists("no such command".to_string()).message(), "no such command");
}

#[test]
fn texts_are_the_same_when_every_character_is() {
    assert!(same_text("json", "json"));
    assert!(same_text("", ""));
    assert!(!same_text("json", "jso"));
    assert!(!same_text("json", "jsoN"));
    assert!(!same_text("", "a"));
}
