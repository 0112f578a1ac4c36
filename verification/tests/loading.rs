use translations_analyzer::load_translations::{
    check_extension, check_translation_file, load_translation_file, load_translation_file_with, load_translations,
    parse_translation_file, records_from_entries, LoadTranslationsFilesError,
};

fn unreadable() -> std::io::Error {
    std::io::Error::new(std::io::ErrorKind::PermissionDenied, "denied")
}

#[test]
fn every_key_gives_one_record() {
    let records =
        parse_translation_file("apps/a/Messages.json", r#"{"b": "second", "a": "first", "c": "third"}"#).unwrap();

    assert_eq!(records.len(), 3);
    let pairs: Vec<(&str, &str)> = records.iter().map(|r| (r.key.as_str(), r.translations.as_str())).collect();
    assert_eq!(pairs, vec![("a", "\"first\""), ("b", "\"second\""), ("c", "\"third\"")]);
    assert!(records.iter().all(|r| r.path == "apps/a/Messages.json"));
}

#[test]
fn values_are_kept_in_serialised_form() {
    let records = parse_translation_file(
        "m.json",
        r#"{ "text": "a \"quoted\" word", "count": 3, "flag": true, "none": null, "list": [1, 2], "nested": { "z": 1, "a": "x" } }"#,
    )
    .unwrap();

    let value = |key: &str| records.iter().find(|r| r.key == key).unwrap().translations.clone();
    assert_eq!(value("text"), r#""a \"quoted\" word""#);
    assert_eq!(value("count"), "3");
    assert_eq!(value("flag"), "true");
    assert_eq!(value("none"), "null");
    assert_eq!(value("list"), "[1,2]");
    assert_eq!(value("nested"), r#"{"a":"x","z":1}"#);
}

#[test]
fn empty_object_gives_no_record() {
    assert!(parse_translation_file("m.json", "{}").unwrap().is_empty());
}

#[test]
fn repeated_key_counts_once() {
    let records = parse_translation_file("m.json", r#"{"k": "one", "k": "two"}"#).unwrap();
    assert_eq!(records.len(), 1);
    assert_eq!(records[0].translations, "\"two\"");
}

#[test]
fn root_that_is_no_object_is_refused() {
    for content in ["[1, 2]", "\"text\"", "12", "null", "true"] {
        match parse_translation_file("apps/a/Messages.json", content) {
            Err(LoadTranslationsFilesError::UnableReadFormat(message)) => {
                assert_eq!(message, "Root element is not a JSON object: apps/a/Messages.json")
            }
            other => panic!("unexpected outcome for {}: {:?}", content, other),
        }
    }
}

#[test]
fn invalid_json_is_a_json_error() {
    for content in ["", "{", "{\"a\": }", "{\"a\": 1} trailing", "{'a': 1}"] {
        match parse_translation_file("apps/a/Messages.json", content) {
            Err(LoadTranslationsFilesError::JsonError(message, _)) => {
                assert_eq!(message, "Invalid JSON format in apps/a/Messages.json")
            }
            other => panic!("unexpected outcome for {:?}: {:?}", content, other),
        }
    }
}

#[test]
fn extension_must_be_json() {
    assert!(check_extension("a.json", Some("json")).is_ok());
    for extension in [None, Some("JSON"), Some("txt"), Some(""), Some("json5")] {
        match check_extension("some/file", extension) {
            Err(LoadTranslationsFilesError::UnableReadFormat(message)) => {
                assert_eq!(message, "File is not a JSON file: some/file")
            }
            other => panic!("unexpected outcome for {:?}: {:?}", extension, other),
        }
    }
}

#[test]
fn extension_is_read_off_the_path() {
    assert!(check_translation_file("apps/a/Messages_fr_FR.json").is_ok());
    assert!(check_translation_file("apps/a/archive.tar.json").is_ok());
    assert!(check_translation_file("apps/a/Messages_fr_FR.yaml").is_err());
    assert!(check_translation_file("apps/a.json/Messages").is_err());
    assert!(check_translation_file("apps/a/.json").is_err());
    assert!(check_translation_file("apps/a/json").is_err());
}

#[test]
fn file_with_other_extension_is_refused_before_its_content_counts() {
    match load_translation_file("apps/a/Messages.txt", Ok("{\"k\": \"v\"}".to_string())) {
        Err(LoadTranslationsFilesError::UnableReadFormat(message)) => {
            assert_eq!(message, "File is not a JSON file: apps/a/Messages.txt")
        }
        other => panic!("unexpected outcome: {:?}", other),
    }
    match load_translation_file("apps/a/Messages.txt", Err(unreadable())) {
        Err(LoadTranslationsFilesError::UnableReadFormat(_)) => {}
        other => panic!("unexpected outcome: {:?}", other),
    }
}

#[test]
fn unreadable_file_is_a_file_read_error() {
    match load_translation_file("apps/a/Messages.json", Err(unreadable())) {
        Err(LoadTranslationsFilesError::FileReadError(message, cause)) => {
            assert_eq!(message, "Cannot read file: apps/a/Messages.json");
            assert_eq!(cause.kind(), std::io::ErrorKind::PermissionDenied);
        }
        other => panic!("unexpected outcome: {:?}", other),
    }
}

#[test]
fn readable_json_file_is_loaded() {
    let records = load_translation_file("apps/a/Messages.json", Ok("{\"k1\":\"hello\"}".to_string())).unwrap();
    assert_eq!(records.len(), 1);
    assert_eq!(records[0].path, "apps/a/Messages.json");
    assert_eq!(records[0].key, "k1");
    assert_eq!(records[0].translations, "\"hello\"");
}

#[test]
fn records_carry_path_key_and_value() {
    let entries = vec![("k1".to_string(), "v1".to_string()), ("k2".to_string(), "v2".to_string())];
    let records = records_from_entries("dir/file.json", entries);
    assert_eq!(records.len(), 2);
    assert_eq!((records[0].path.as_str(), records[0].key.as_str(), records[0].translations.as_str()), ("dir/file.json", "k1", "v1"));
    assert_eq!((records[1].path.as_str(), records[1].key.as_str(), records[1].translations.as_str()), ("dir/file.json", "k2", "v2"));
}

#[test]
fn records_of_all_files_follow_each_other() {
    let loaded = vec![
        parse_translation_file("a.json", r#"{"a1": 1, "a2": 2}"#),
        parse_translation_file("b.json", "{}"),
        parse_translation_file("c.json", r#"{"c1": 3}"#),
    ];
    let records = load_translations(loaded).unwrap();
    let keys: Vec<&str> = records.iter().map(|r| r.key.as_str()).collect();
    assert_eq!(keys, vec!["a1", "a2", "c1"]);
}

#[test]
fn first_failure_fails_the_load() {
    let loaded = vec![
        parse_translation_file("a.json", r#"{"a1": 1}"#),
        parse_translation_file("b.json", "[]"),
        parse_translation_file("c.json", "not json"),
    ];
    match load_translations(loaded) {
        Err(LoadTranslationsFilesError::UnableReadFormat(message)) => {
            assert_eq!(message, "Root element is not a JSON object: b.json")
        }
        other => panic!("unexpected outcome: {:?}", other),
    }
}

#[test]
fn no_file_gives_no_record() {
    assert!(load_translations(Vec::new()).unwrap().is_empty());
}

#[test]
fn load_errors_read_as_messages() {
    let format = LoadTranslationsFilesError::UnableReadFormat("File is not a JSON file: x".to_string());
    assert_eq!(format.message(), "Unable to read or parse JSON format: File is not a JSON file: x");
    let read = LoadTranslationsFilesError::FileReadError("Cannot read file: x".to_string(), unreadable());
    assert_eq!(read.message(), "Failed to read file: Cannot read file: x");
    match parse_translation_file("x.json", "{") {
        Err(e) => assert_eq!(e.message(), "JSON parsing error: Invalid JSON format in x.json"),
        Ok(_) => panic!("invalid JSON was accepted"),
    }
}

#[test]
fn known_extension_decides_before_the_content() {
    match load_translation_file_with("apps/a/Messages.json", Some("txt"), Ok("{\"k\": \"v\"}".to_string())) {
        Err(LoadTranslationsFilesError::UnableReadFormat(message)) => {
            assert_eq!(message, "File is not a JSON file: apps/a/Messages.json")
        }
        other => panic!("unexpected outcome: {:?}", other),
    }
    match load_translation_file_with("apps/a/Messages.json", None, Err(unreadable())) {
        Err(LoadTranslationsFilesError::UnableReadFormat(_)) => {}
        other => panic!("unexpected outcome: {:?}", other),
    }
}

#[test]
fn accepted_extension_leaves_the_outcome_to_what_was_read() {
    let records = load_translation_file_with("f", Some("json"), Ok("{\"k\": 1}".to_string())).unwrap();
    assert_eq!(records.len(), 1);
    assert_eq!((records[0].path.as_str(), records[0].key.as_str(), records[0].translations.as_str()), ("f", "k", "1"));
    match load_translation_file_with("f", Some("json"), Err(unreadable())) {
        Err(LoadTranslationsFilesError::FileReadError(message, _)) => assert_eq!(message, "Cannot read file: f"),
        other => panic!("unexpected outcome: {:?}", other),
    }
    match load_translation_file_with("f", Some("json"), Ok("[]".to_string())) {
        Err(LoadTranslationsFilesError::UnableReadFormat(message)) => {
            assert_eq!(message, "Root element is not a JSON object: f")
        }
        other => panic!("unexpected outcome: {:?}", other),
    }
    match load_translation_file_with("f", Some("json"), Ok("{".to_string())) {
        Err(LoadTranslationsFilesError::JsonError(message, _)) => assert_eq!(message, "Invalid JSON format in f"),
        other => panic!("unexpected outcome: {:?}", other),
    }
}

#[test]
fn path_without_the_extension_in_it_is_refused() {
    for path in ["apps/a/Messages", "apps/a/json", "Messages.jso", ""] {
        match load_translation_file(path, Ok("{}".to_string())) {
            Err(LoadTranslationsFilesError::UnableReadFormat(message)) => {
                assert_eq!(message, format!("File is not a JSON file: {}", path))
            }
            other => panic!("unexpected outcome for {:?}: {:?}", path, other),
        }
    }
}
