use mcfmt::resolve::{detect_lang, find_lang};
use mcfmt::settings::{Lang, Settings, DEFAULT_SETTINGS};

fn strings(value: &toml::Value) -> Vec<String> {
    value.as_array().unwrap().iter().map(|v| v.as_str().unwrap().to_string()).collect()
}

/// Reads a configuration document into a table, entry by entry, in the order
/// of the document.
fn settings_from_toml(text: &str) -> Settings {
    let document: toml::Table = toml::from_str(text).unwrap();
    let mut settings = Settings::new();
    for (key, entry) in document["fmt"].as_table().unwrap() {
        let lang = Lang {
            command: entry["command"].as_str().unwrap().to_string(),
            name: strings(&entry["name"]),
            args: entry.get("args").map(strings),
            extention: entry.get("extention").map(|v| v.as_str().unwrap().to_string()),
        };
        settings.insert(key.clone(), lang);
    }
    settings
}

#[test]
fn test_serialize() {
    let settings = settings_from_toml(DEFAULT_SETTINGS);

    let python = Lang::new("black", vec!["py", "python", "python3"], None, Some("py"));
    let rust = Lang::new("rustfmt", vec!["rs", "rust"], None, Some("rs"));
    let js = Lang::new(
        "prettier",
        vec!["js", "ts", "javascript", "typescript"],
        Some(vec!["--write"]),
        Some("js"),
    );

    assert_eq!(settings.get("python"), Some(&python));
    assert_eq!(settings.get("rust"), Some(&rust));
    assert_eq!(settings.get("js"), Some(&js));
}

#[test]
fn built_in_settings_match_their_document() {
    let built_in = Settings::default();
    let read = settings_from_toml(DEFAULT_SETTINGS);
    assert_eq!(read, built_in);
    assert_eq!(built_in.len(), 3);
    assert_eq!(read.len(), 3);
    for key in ["python", "rust", "js"] {
        assert!(built_in.get(key).is_some());
        assert_eq!(built_in.get(key), read.get(key));
    }
    let keys: Vec<&str> = built_in.entries().iter().map(|e| e.0.as_str()).collect();
    assert_eq!(keys, vec!["python", "rust", "js"]);
    assert_eq!(built_in.entries()[1].1.command, "rustfmt");
}

#[test]
fn new_builds_an_owned_descriptor() {
    let lang = Lang::new("prettier", vec!["js", "ts"], Some(vec!["--write"]), Some("js"));
    assert_eq!(
        lang,
        Lang {
            command: "prettier".to_string(),
            name: vec!["js".to_string(), "ts".to_string()],
            args: Some(vec!["--write".to_string()]),
            extention: Some("js".to_string()),
        }
    );
    assert_eq!(lang.clone(), lang);
}

#[test]
fn getters_hand_out_the_fields() {
    let lang = Lang::new("prettier", vec!["js", "ts"], Some(vec!["--write", "-x"]), Some("js"));
    assert_eq!(lang.command(), "prettier");
    assert_eq!(lang.args(), Some(vec!["--write".to_string(), "-x".to_string()]));
    let bare = Lang::new("rustfmt", vec![], None, None);
    assert_eq!(bare.command(), "rustfmt");
    assert_eq!(bare.args(), None);
    assert_eq!(bare.ext(), None);
}

#[test]
fn extension_gets_its_leading_dot() {
    let ext = |e: &str| Lang::new("c", vec![], None, Some(e)).ext();
    assert_eq!(ext("py"), Some(".py".to_string()));
    assert_eq!(ext(".py"), Some(".py".to_string()));
    assert_eq!(ext(""), Some(".".to_string()));
    assert_eq!(ext("."), Some(".".to_string()));
    assert_eq!(ext("tar.gz"), Some(".tar.gz".to_string()));
    assert_eq!(ext("..x"), Some("..x".to_string()));
}

#[test]
fn tags_are_compared_whole() {
    let lang = Lang::new("black", vec!["py", "python", "python3"], None, None);
    assert!(lang.contain_language_name(&"py".to_string()));
    assert!(lang.contain_language_name(&"python3".to_string()));
    assert!(!lang.contain_language_name(&"pyth".to_string()));
    assert!(!lang.contain_language_name(&"Python".to_string()));
    assert!(!lang.contain_language_name(&"".to_string()));
    assert!(!Lang::new("x", vec![], None, None).contain_language_name(&"py".to_string()));
}

#[test]
fn insert_keeps_one_entry_per_key() {
    let mut settings = Settings::new();
    assert_eq!(settings.len(), 0);
    assert_eq!(settings.get("a"), None);
    settings.insert("a".to_string(), Lang::new("one", vec!["x"], None, None));
    settings.insert("b".to_string(), Lang::new("two", vec!["y"], None, None));
    settings.insert("a".to_string(), Lang::new("three", vec!["z"], None, None));
    assert_eq!(settings.len(), 2);
    assert_eq!(settings.entries()[0].0, "a");
    assert_eq!(settings.entries()[1].0, "b");
    assert_eq!(settings.get("a"), Some(&Lang::new("three", vec!["z"], None, None)));
    assert_eq!(settings.get("b"), Some(&Lang::new("two", vec!["y"], None, None)));
    assert_eq!(settings.get("c"), None);
}

#[test]
fn resolution_ignores_case() {
    let settings = Settings::default();
    let python = settings.get("python").unwrap().clone();
    assert_eq!(detect_lang(&"PYTHON".to_string(), &settings), Some(python.clone()));
    assert_eq!(detect_lang(&"python".to_string(), &settings), Some(python.clone()));
    assert_eq!(detect_lang(&"Py".to_string(), &settings), Some(python.clone()));
    assert_eq!(detect_lang(&"Python3".to_string(), &settings), Some(python));
    assert_eq!(
        detect_lang(&"TypeScript".to_string(), &settings).map(|l| l.command),
        Some("prettier".to_string())
    );
}

#[test]
fn only_the_queried_tag_is_lower_cased() {
    let mut settings = Settings::new();
    settings.insert("k".to_string(), Lang::new("fmt", vec!["Mixed"], None, None));
    assert_eq!(detect_lang(&"mixed".to_string(), &settings), None);
    assert_eq!(detect_lang(&"Mixed".to_string(), &settings), None);
    assert!(find_lang(&"Mixed".to_string(), &settings).is_some());
}

#[test]
fn unknown_tag_resolves_to_nothing() {
    let settings = Settings::default();
    assert_eq!(detect_lang(&"haskell".to_string(), &settings), None);
    assert_eq!(detect_lang(&"".to_string(), &settings), None);
    assert_eq!(detect_lang(&"python".to_string(), &Settings::new()), None);
}

#[test]
fn last_entry_wins_a_shared_tag() {
    let mut settings = Settings::new();
    settings.insert("first".to_string(), Lang::new("one", vec!["x", "shared"], None, None));
    settings.insert("second".to_string(), Lang::new("two", vec!["shared"], None, None));
    settings.insert("third".to_string(), Lang::new("three", vec!["y"], None, None));
    assert_eq!(
        detect_lang(&"shared".to_string(), &settings).map(|l| l.command),
        Some("two".to_string())
    );
    assert_eq!(
        find_lang(&"x".to_string(), &settings).map(|l| l.command),
        Some("one".to_string())
    );
    // Replacing an entry leaves it where it stood.
    settings.insert("first".to_string(), Lang::new("again", vec!["shared"], None, None));
    assert_eq!(
        detect_lang(&"SHARED".to_string(), &settings).map(|l| l.command),
        Some("two".to_string())
    );
}
