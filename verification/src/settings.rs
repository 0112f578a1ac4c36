//! What an analysis is told before it begins.

use vstd::prelude::*;
use vstd::string::*;

verus! {

/// The settings of an analysis.
#[derive(Debug, Clone)]
pub struct Settings {
    /// The shared-translations locations: a value that also lives under one
    /// of them is shared on purpose.
    pub common_translations_modules_path: Vec<String>,
    /// The regular expression that the name of a translation file matches.
    pub translation_file_regex: String,
    /// The names of the directories that the search stays out of.
    pub skip_directories: Vec<String>,
}

/// Why the settings could not be had.
#[derive(Debug)]
pub enum SettingsFileManagerError {
    /// The settings file could not be read.
    UnableToReadPath(String, std::io::Error),
}

impl SettingsFileManagerError {
    /// The error in words.
    pub open spec fn spec_message(&self) -> Seq<char> {
        match self {
            SettingsFileManagerError::UnableToReadPath(path, _) => "Unable to read settings file: "@ + path@,
        }
    }

    /// The error in words.
    pub fn message(&self) -> (message: String)
        ensures
            message@ == self.spec_message(),
    {
        match self {
            SettingsFileManagerError::UnableToReadPath(path, _) => String::from_str(
                "Unable to read settings file: ",
            ).concat(path.as_str()),
        }
    }
}

/// The shared-translations locations of the default settings.
pub open spec fn default_common_translations_modules_path() -> Seq<Seq<char>> {
    seq!["packages/manager/modules/common-translations"@]
}

/// The file-name pattern of the default settings: the French messages file.
pub open spec fn default_translation_file_regex() -> Seq<char> {
    "^Messages_fr_FR\\.json$"@
}

/// The skip list of the default settings: directories of version control,
/// of dependencies, of build output and of editors.
pub open spec fn default_skip_directories() -> Seq<Seq<char>> {
    seq![
        ".git"@,
        "node_modules"@,
        "target"@,
        ".idea"@,
        ".vscode"@,
        "dist"@,
        "build"@,
        "manager-tools"@,
    ]
}

impl Default for Settings {
    /// The settings that hold where no settings file says otherwise.
    fn default() -> (settings: Self)
        ensures
            settings.common_translations_modules_path.deep_view() == default_common_translations_modules_path(),
            settings.translation_file_regex@ == default_translation_file_regex(),
            settings.skip_directories.deep_view() == default_skip_directories(),
    {
        let mut common_translations_modules_path: Vec<String> = Vec::new();
        common_translations_modules_path.push(String::from_str("packages/manager/modules/common-translations"));
        let mut skip_directories: Vec<String> = Vec::new();
        skip_directories.push(String::from_str(".git"));
        skip_directories.push(String::from_str("node_modules"));
        skip_directories.push(String::from_str("target"));
        skip_directories.push(String::from_str(".idea"));
        skip_directories.push(String::from_str(".vscode"));
        skip_directories.push(String::from_str("dist"));
        skip_directories.push(String::from_str("build"));
        skip_directories.push(String::from_str("manager-tools"));
        let settings = Settings {
            common_translations_modules_path,
            translation_file_regex: String::from_str("^Messages_fr_FR\\.json$"),
            skip_directories,
        };
        proof {
            assert(settings.common_translations_modules_path.deep_view() =~= default_common_translations_modules_path());
            assert(settings.skip_directories.deep_view() =~= default_skip_directories());
        }
        settings
    }
}

} // verus!
