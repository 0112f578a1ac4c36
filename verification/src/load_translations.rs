//! Turning the content of translation files into records.
//!
//! A translation file is a JSON document whose root is an object; every key
//! of that object gives one record, whose value is the serialised form of
//! what stands under the key. Reading the files is the caller's part: the
//! functions here take what was read.

use vstd::prelude::*;
use vstd::string::*;

use crate::entities::{Translation, TranslationView};
use crate::text::{is_substring, same_text};

verus! {

/// Why a translation file could not be loaded.
#[derive(Debug)]
pub enum LoadTranslationsFilesError {
    /// The file has not the expected extension, or its root is no object.
    UnableReadFormat(String),
    /// The file could not be read.
    FileReadError(String, std::io::Error),
    /// The file's content is not valid JSON.
    JsonError(String, serde_json::Error),
}

impl LoadTranslationsFilesError {
    /// The error in words.
    pub open spec fn spec_message(&self) -> Seq<char> {
        match self {
            LoadTranslationsFilesError::UnableReadFormat(about) => "Unable to read or parse JSON format: "@ + about@,
            LoadTranslationsFilesError::FileReadError(about, _) => "Failed to read file: "@ + about@,
            LoadTranslationsFilesError::JsonError(about, _) => "JSON parsing error: "@ + about@,
        }
    }

    /// The error in words.
    pub fn message(&self) -> (message: String)
        ensures
            message@ == self.spec_message(),
    {
        match self {
            LoadTranslationsFilesError::UnableReadFormat(about) => message_about(
                "Unable to read or parse JSON format: ",
                about.as_str(),
            ),
            LoadTranslationsFilesError::FileReadError(about, _) => message_about(
                "Failed to read file: ",
                about.as_str(),
            ),
            LoadTranslationsFilesError::JsonError(about, _) => message_about("JSON parsing error: ", about.as_str()),
        }
    }
}

/// What `serde_json` makes of a document: `None` where it is not valid JSON,
/// `Some(None)` where it is valid but its root is not an object, and else the
/// entries of the root object, each as its key and the compact serialised
/// form of its value, in the order in which `serde_json`'s map hands them
/// out.
pub uninterp spec fn json_object_entries(content: Seq<char>) -> Option<Option<Seq<(Seq<char>, Seq<char>)>>>;

/// Parses `content` with `serde_json::from_str` into a `serde_json::Value`
/// and, where that is an object, hands out its entries, each value turned
/// into text by `serde_json`'s `Display` for `Value`. The contract gives the
/// outcome its name and claims no more: that it depends on `content` alone.
#[verifier::external_body]
fn parse_json_object(content: &str) -> (parsed: Result<Option<Vec<(String, String)>>, serde_json::Error>)
    ensures
        match parsed {
            Ok(Some(entries)) => json_object_entries(content@) == Some(Some(entries.deep_view())),
            Ok(None) => json_object_entries(content@) == Some(None::<Seq<(Seq<char>, Seq<char>)>>),
            Err(_) => json_object_entries(content@) is None,
        },
{
    match serde_json::from_str::<serde_json::Value>(content) {
        Ok(serde_json::Value::Object(map)) => Ok(
            Some(map.into_iter().map(|(key, value)| (key, value.to_string())).collect()),
        ),
        Ok(_) => Ok(None),
        Err(e) => Err(e),
    }
}

/// The extension of a path, as `std::path::Path::extension` tells it, where
/// it is valid Unicode. An extension is what follows the last `.` of the
/// path's file name: it holds no `.` itself, and the path reads a `.` and
/// then the extension. Which part of a path is its file name, and so which
/// paths have an extension at all, is left open: that differs between
/// platforms.
#[verifier::external_body]
fn path_extension(path: &str) -> (extension: Option<String>)
    ensures
        extension matches Some(e) ==> !e@.contains('.') && is_substring(seq!['.'] + e@, path@),
{
    std::path::Path::new(path).extension().and_then(|e| e.to_str()).map(|e| e.to_string())
}

/// The record that one entry of a file gives.
pub open spec fn record_of(path: Seq<char>) -> spec_fn((Seq<char>, Seq<char>)) -> TranslationView {
    |entry: (Seq<char>, Seq<char>)| TranslationView { path, translations: entry.1, key: entry.0 }
}

/// The records that the entries of a file give: one per entry, in the
/// entries' order.
pub open spec fn records_of(path: Seq<char>, entries: Seq<(Seq<char>, Seq<char>)>) -> Seq<TranslationView> {
    entries.map_values(record_of(path))
}

/// `outcome` is what parsing the content of the file at `path` must give.
pub open spec fn is_parse_outcome(
    path: Seq<char>,
    content: Seq<char>,
    outcome: Result<Vec<Translation>, LoadTranslationsFilesError>,
) -> bool {
    match json_object_entries(content) {
        Some(Some(entries)) => outcome matches Ok(records) && records.deep_view() == records_of(path, entries),
        Some(None) => outcome matches Err(LoadTranslationsFilesError::UnableReadFormat(message)) && message@
            == "Root element is not a JSON object: "@ + path,
        None => outcome matches Err(LoadTranslationsFilesError::JsonError(message, _)) && message@
            == "Invalid JSON format in "@ + path,
    }
}

/// `outcome` refuses the file at `path` for its extension.
pub open spec fn is_extension_refusal<T>(path: Seq<char>, outcome: Result<T, LoadTranslationsFilesError>) -> bool {
    outcome matches Err(LoadTranslationsFilesError::UnableReadFormat(message)) && message@
        == "File is not a JSON file: "@ + path
}

/// `outcome` is what loading the file at `path` must give once its extension
/// has been accepted, `content` being what reading the file gave.
pub open spec fn is_load_outcome(
    path: Seq<char>,
    content: Result<String, std::io::Error>,
    outcome: Result<Vec<Translation>, LoadTranslationsFilesError>,
) -> bool {
    match content {
        Ok(text) => is_parse_outcome(path, text@, outcome),
        Err(cause) => outcome matches Err(LoadTranslationsFilesError::FileReadError(message, source)) && source
            == cause && message@ == "Cannot read file: "@ + path,
    }
}

/// A message made of a fixed beginning and a path.
fn message_about(beginning: &str, path: &str) -> (message: String)
    ensures
        message@ == beginning@ + path@,
{
    String::from_str(beginning).concat(path)
}

/// The extension is the one that a translation file must have.
pub open spec fn is_json_extension(extension: Option<&str>) -> bool {
    extension matches Some(e) && e@ == "json"@
}

/// Accepts a file whose extension is `json` and refuses any other;
/// `extension` is the extension of `path`, if it has one.
pub fn check_extension(path: &str, extension: Option<&str>) -> (checked: Result<(), LoadTranslationsFilesError>)
    ensures
        is_json_extension(extension) ==> checked is Ok,
        !is_json_extension(extension) ==> is_extension_refusal(path@, checked),
{
    let accepted = match extension {
        Some(e) => same_text(e, "json"),
        None => false,
    };
    if accepted {
        Ok(())
    } else {
        Err(LoadTranslationsFilesError::UnableReadFormat(message_about("File is not a JSON file: ", path)))
    }
}

/// Decides from the path alone whether a file may be loaded: it may where
/// its extension is `json`. A caller that asks before it reads spares itself
/// the reading of files that would be refused.
///
/// A file that is not accepted is refused with `UnableReadFormat`. The
/// extension of an accepted file stands in its path behind a `.`, so a path
/// that nowhere reads `.json` is always refused.
pub fn check_translation_file(path: &str) -> (checked: Result<(), LoadTranslationsFilesError>)
    ensures
        checked is Ok || is_extension_refusal(path@, checked),
        checked is Ok ==> is_substring(".json"@, path@),
{
    match path_extension(path) {
        Some(extension) => {
            let found = extension.as_str();
            let checked = check_extension(path, Some(found));
            proof {
                if checked is Ok {
                    reveal_strlit(".json");
                    reveal_strlit("json");
                    assert(is_json_extension(Some(found)));
                    assert(seq!['.'] + extension@ =~= ".json"@);
                }
            }
            checked
        },
        None => check_extension(path, None),
    }
}

/// Makes one record of each entry of a file: the record carries the file's
/// path, the entry's key and the entry's value.
pub fn records_from_entries(path: &str, entries: Vec<(String, String)>) -> (records: Vec<Translation>)
    ensures
        records.deep_view() == records_of(path@, entries.deep_view()),
        records.len() == entries.len(),
{
    let mut records: Vec<Translation> = Vec::new();
    let mut i: usize = 0;
    while i < entries.len()
        invariant
            i <= entries.len(),
            records.len() == i,
            forall|j: int| 0 <= j < i ==> (#[trigger] records[j])@ == record_of(path@)(entries.deep_view()[j]),
        decreases entries.len() - i,
    {
        let entry = &entries[i];
        records.push(
            Translation { path: String::from_str(path), translations: entry.1.clone(), key: entry.0.clone() },
        );
        i += 1;
    }
    assert(records.deep_view() =~= records_of(path@, entries.deep_view()));
    records
}

/// Parses the content of the file at `path` into records.
///
/// Content that is not valid JSON fails with `JsonError`, valid JSON whose
/// root is not an object with `UnableReadFormat`; an object gives one record
/// per key.
pub fn parse_translation_file(path: &str, content: &str) -> (outcome: Result<
    Vec<Translation>,
    LoadTranslationsFilesError,
>)
    ensures
        is_parse_outcome(path@, content@, outcome),
{
    match parse_json_object(content) {
        Ok(Some(entries)) => Ok(records_from_entries(path, entries)),
        Ok(None) => Err(
            LoadTranslationsFilesError::UnableReadFormat(message_about("Root element is not a JSON object: ", path)),
        ),
        Err(e) => Err(LoadTranslationsFilesError::JsonError(message_about("Invalid JSON format in ", path), e)),
    }
}

/// Loads one file whose extension is known: `extension` is the extension
/// of `path`, if it has one, and `content` is what reading the file gave.
///
/// The extension is judged first: unless it is `json` the file is refused
/// with `UnableReadFormat`, whatever `content` holds. With the extension
/// accepted, a failed read fails with `FileReadError`, and content that was
/// read is parsed as `parse_translation_file` says.
pub fn load_translation_file_with(
    path: &str,
    extension: Option<&str>,
    content: Result<String, std::io::Error>,
) -> (outcome: Result<Vec<Translation>, LoadTranslationsFilesError>)
    ensures
        is_json_extension(extension) ==> is_load_outcome(path@, content, outcome),
        !is_json_extension(extension) ==> is_extension_refusal(path@, outcome),
{
    match check_extension(path, extension) {
        Err(e) => Err(e),
        Ok(()) => match content {
            Err(cause) => Err(LoadTranslationsFilesError::FileReadError(message_about("Cannot read file: ", path), cause)),
            Ok(text) => parse_translation_file(path, text.as_str()),
        },
    }
}

/// Loads one file: `content` is what reading the file at `path` gave.
///
/// The extension is read off the path and the file is then loaded as
/// `load_translation_file_with` says: refused for its extension, or else
/// judged by what was read. The extension of an accepted file stands in its
/// path behind a `.`, so a path that nowhere reads `.json` is always
/// refused.
pub fn load_translation_file(path: &str, content: Result<String, std::io::Error>) -> (outcome: Result<
    Vec<Translation>,
    LoadTranslationsFilesError,
>)
    ensures
        is_extension_refusal(path@, outcome) || is_load_outcome(path@, content, outcome),
        !is_substring(".json"@, path@) ==> is_extension_refusal(path@, outcome),
{
    match path_extension(path) {
        Some(extension) => {
            let found = extension.as_str();
            proof {
                if is_json_extension(Some(found)) {
                    reveal_strlit(".json");
                    reveal_strlit("json");
                    assert(seq!['.'] + extension@ =~= ".json"@);
                }
            }
            load_translation_file_with(path, Some(found), content)
        },
        None => load_translation_file_with(path, None, content),
    }
}

/// The records of the files that loaded, file after file.
pub open spec fn merged_records(files: Seq<Result<Vec<Translation>, LoadTranslationsFilesError>>) -> Seq<
    TranslationView,
>
    decreases files.len(),
{
    if files.len() == 0 {
        Seq::empty()
    } else {
        merged_records(files.drop_last()) + match files.last() {
            Ok(records) => records.deep_view(),
            Err(_) => Seq::empty(),
        }
    }
}

/// File `i` is the first one that failed.
pub open spec fn is_first_failure(files: Seq<Result<Vec<Translation>, LoadTranslationsFilesError>>, i: int) -> bool {
    &&& 0 <= i < files.len()
    &&& files[i] is Err
    &&& forall|j: int| 0 <= j < i ==> #[trigger] files[j] is Ok
}

/// Puts together what loading each file gave. Where every file loaded, the
/// result holds the records of all of them, file after file; where one
/// failed, the load as a whole fails with the error of the first that did.
pub fn load_translations(files: Vec<Result<Vec<Translation>, LoadTranslationsFilesError>>) -> (outcome: Result<
    Vec<Translation>,
    LoadTranslationsFilesError,
>)
    ensures
        match outcome {
            Ok(records) => {
                &&& forall|i: int| 0 <= i < files.len() ==> #[trigger] files[i] is Ok
                &&& records.deep_view() == merged_records(files@)
            },
            Err(e) => exists|i: int| is_first_failure(files@, i) && files[i] == Err::<Vec<Translation>, _>(e),
        },
{
    let ghost all = files@;
    let mut results: Vec<Translation> = Vec::new();
    for file in it: files
        invariant
            it.seq() == all,
            forall|j: int| 0 <= j < it.index() ==> #[trigger] all[j] is Ok,
            results.deep_view() == merged_records(all.take(it.index() as int)),
    {
        let ghost at = it.index() as int;
        proof {
            assert(all.take(at + 1).drop_last() == all.take(at));
            assert(all.take(at + 1).last() == file);
        }
        match file {
            Ok(mut records) => {
                let ghost before = results.deep_view();
                let ghost added = records.deep_view();
                results.append(&mut records);
                assert(results.deep_view() =~= before + added);
            },
            Err(e) => {
                assert(is_first_failure(all, at));
                return Err(e);
            },
        }
    }
    proof {
        assert(all.take(all.len() as int) == all);
    }
    Ok(results)
}

} // verus!
