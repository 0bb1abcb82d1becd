use languages_rs::{load, Config, FileState, Files, Format, LanguageError, LanguageTexts, Languages, PathKind, Value};

fn text(s: &str) -> Value {
    Value::String(String::from(s))
}

fn config(format: Format, languages: Vec<&str>) -> Config {
    Config::new("/app/languages", PathKind::Directory, format, languages).unwrap()
}

fn files(entries: Vec<(&str, &str)>) -> Files {
    let mut files = Files::new();
    for (name, content) in entries {
        files.insert(String::from(name), FileState::Text(String::from(content)));
    }
    files
}

const EN: &str = "{\"greeting\":\"Hi\",\"nums\":[\"1\",\"2\"]}";

#[test]
fn load_and_look_up() {
    let files = files(vec![("en.json", EN)]);
    let mut languages = load(config(Format::Json, vec!["en"]), &files).unwrap();
    assert_eq!(languages.try_get_text_from_language("en", "greeting", &files), Ok(Some(text("Hi"))));
    assert_eq!(
        languages.try_get_text_from_language("en", "nums", &files),
        Ok(Some(Value::Array(vec![text("1"), text("2")])))
    );
    assert_eq!(languages.try_get_text_from_language("en", "missing", &files), Ok(None));
}

#[test]
fn a_number_in_a_file_is_refused() {
    let files = files(vec![("en.json", "{\"count\": 5}")]);
    let mut languages = Languages::new(&config(Format::Json, vec!["en"]));
    assert_eq!(languages.try_get_language("en", &files).err(), Some(LanguageError::ParseError));
    assert_eq!(load(config(Format::Json, vec!["en"]), &files).err(), Some(LanguageError::ParseError));
}

#[test]
fn a_language_that_is_not_enabled_is_refused_though_its_file_exists() {
    let files = files(vec![("en.json", EN), ("es.json", EN)]);
    let mut languages = Languages::new(&config(Format::Json, vec!["en"]));
    assert_eq!(languages.try_get_language("es", &files).err(), Some(LanguageError::NotConfigured));
    assert_eq!(languages.file_needed("es"), None);
    assert!(languages.try_get_language("en", &files).is_ok());
    assert_eq!(languages.try_get_language("es", &files).err(), Some(LanguageError::NotConfigured));
    assert_eq!(
        languages.try_get_text_from_language("es", "greeting", &files),
        Err(LanguageError::NotConfigured)
    );
}

#[test]
fn the_second_call_needs_no_file() {
    let found = files(vec![("en.json", EN)]);
    let mut languages = Languages::new(&config(Format::Json, vec!["en"]));
    assert_eq!(languages.file_needed("en"), Some(String::from("en.json")));
    let first = languages.try_get_language("en", &found).unwrap();
    assert_eq!(languages.file_needed("en"), None);
    let second = languages.try_get_language("en", &Files::new()).unwrap();
    assert_eq!(first.get_language(), "en");
    assert_eq!(second.get_language(), "en");
    assert_eq!(first.try_get_text("greeting"), second.try_get_text("greeting"));
    assert_eq!(first.try_get_text("nums"), second.try_get_text("nums"));
    let changed = files(vec![("en.json", "{\"greeting\":\"Hello\"}")]);
    let third = languages.try_get_language("en", &changed).unwrap();
    assert_eq!(third.try_get_text("greeting"), Some(text("Hi")));
}

#[test]
fn each_failure_of_a_file_has_its_error() {
    let mut languages = Languages::new(&config(Format::Json, vec!["en"]));
    assert_eq!(languages.try_get_language("en", &Files::new()).err(), Some(LanguageError::FileNotFound));
    let mut found = Files::new();
    found.insert(String::from("en.json"), FileState::NotAFile);
    assert_eq!(languages.try_get_language("en", &found).err(), Some(LanguageError::NotAFile));
    let mut found = Files::new();
    found.insert(String::from("en.json"), FileState::Unreadable);
    assert_eq!(languages.try_get_language("en", &found).err(), Some(LanguageError::IoError));
    let found = files(vec![("en.json", "{")]);
    assert_eq!(languages.try_get_language("en", &found).err(), Some(LanguageError::ParseError));
    let found = files(vec![("en.json", "[\"a\"]")]);
    assert_eq!(languages.try_get_language("en", &found).err(), Some(LanguageError::NotAnObject));
    let found = files(vec![("en.json", "\"a\"")]);
    assert_eq!(languages.try_get_language("en", &found).err(), Some(LanguageError::NotAnObject));
    assert_eq!(languages.file_needed("en"), Some(String::from("en.json")));
    let found = files(vec![("en.json", EN)]);
    assert!(languages.try_get_language("en", &found).is_ok());
}

#[test]
fn the_file_of_the_format_is_the_one_that_is_read() {
    let found = files(vec![("en.json", EN), ("en.toml", "greeting = \"Hello\"")]);
    let mut json = Languages::new(&config(Format::Json, vec!["en"]));
    let mut toml = Languages::new(&config(Format::Toml, vec!["en"]));
    assert_eq!(json.try_get_text_from_language("en", "greeting", &found), Ok(Some(text("Hi"))));
    assert_eq!(toml.try_get_text_from_language("en", "greeting", &found), Ok(Some(text("Hello"))));
    let only_json = files(vec![("en.json", EN)]);
    let mut other = Languages::new(&config(Format::Toml, vec!["en"]));
    assert_eq!(other.try_get_language("en", &only_json).err(), Some(LanguageError::FileNotFound));
}

#[test]
fn the_last_finding_under_a_name_counts() {
    let mut found = Files::new();
    found.insert(String::from("en.json"), FileState::Unreadable);
    found.insert(String::from("en.json"), FileState::Text(String::from(EN)));
    assert!(matches!(found.get("en.json"), Some(FileState::Text(_))));
    assert!(found.get("es.json").is_none());
    let mut languages = Languages::new(&config(Format::Json, vec!["en"]));
    assert!(languages.try_get_language("en", &found).is_ok());
}

#[test]
fn load_stops_at_the_first_failure() {
    let found = files(vec![("en.json", EN), ("fr.json", EN)]);
    let loaded = load(config(Format::Json, vec!["en", "es", "fr"]), &found);
    assert_eq!(loaded.err(), Some(LanguageError::FileNotFound));
    let found = files(vec![("en.json", EN), ("es.json", "{\"n\": 1}"), ("fr.json", "[")]);
    let loaded = load(config(Format::Json, vec!["en", "es", "fr"]), &found);
    assert_eq!(loaded.err(), Some(LanguageError::ParseError));
    let found = files(vec![("en.json", EN), ("es.json", "[]")]);
    let loaded = load(config(Format::Json, vec!["en", "es"]), &found);
    assert_eq!(loaded.err(), Some(LanguageError::NotAnObject));
}

#[test]
fn load_holds_every_language() {
    let found = files(vec![("en.toml", "greeting = \"Hi\""), ("es.toml", "greeting = \"Hola\"")]);
    let mut languages = load(config(Format::Toml, vec!["en", "es", "en"]), &found).unwrap();
    assert_eq!(languages.file_needed("en"), None);
    assert_eq!(languages.file_needed("es"), None);
    let none = Files::new();
    assert_eq!(languages.try_get_text_from_language("en", "greeting", &none), Ok(Some(text("Hi"))));
    assert_eq!(languages.try_get_text_from_language("es", "greeting", &none), Ok(Some(text("Hola"))));
}

#[test]
fn load_of_no_languages_holds_nothing() {
    let mut languages = load(config(Format::Json, vec![]), &Files::new()).unwrap();
    assert_eq!(languages.try_get_language("en", &Files::new()).err(), Some(LanguageError::NotConfigured));
}

#[test]
fn languages_keep_their_own_configuration() {
    let mut configuration = config(Format::Json, vec!["en"]);
    let mut languages = Languages::new(&configuration);
    configuration.add_language(String::from("es")).unwrap();
    let found = files(vec![("es.json", EN)]);
    assert_eq!(languages.try_get_language("es", &found).err(), Some(LanguageError::NotConfigured));
}

#[test]
fn language_texts_hold_an_object_only() {
    let texts = LanguageTexts::new(String::from("en"), Value::Object(vec![(String::from("message"), text("Hi"))]));
    assert!(texts.is_ok());
    let texts = texts.unwrap();
    assert_eq!(texts.get_language(), String::from("en"));
    assert!(texts.is_language("en"));
    assert!(!texts.is_language("es"));
    assert_eq!(texts.try_get_text("message"), Some(text("Hi")));
    assert_eq!(texts.try_get_text("other"), None);
    assert_eq!(LanguageTexts::new(String::from("en"), text("Hi")).err(), Some(LanguageError::NotAnObject));
    assert_eq!(
        LanguageTexts::new(String::from("en"), Value::Array(vec![])).err(),
        Some(LanguageError::NotAnObject)
    );
}

#[test]
fn language_texts_look_at_the_root_only() {
    let home = Value::Object(vec![(String::from("title"), text("Home page"))]);
    let texts = LanguageTexts::new(String::from("en"), Value::Object(vec![(String::from("home"), home.clone())])).unwrap();
    assert_eq!(texts.try_get_text("home"), Some(home));
    assert_eq!(texts.try_get_text("home.title"), None);
    assert_eq!(texts.try_get_text("title"), None);
    let copy = texts.clone();
    assert_eq!(copy.get_language(), "en");
    assert_eq!(copy.try_get_text("home"), texts.try_get_text("home"));
}
