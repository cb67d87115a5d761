use tracey::config_text::{parse_config, tokenize, Token};

fn word(text: &str) -> Token {
    Token::Word(text.to_string())
}

#[test]
fn text_becomes_tokens() {
    assert_eq!(
        tokenize("specs (\n  { name a-b }\n)"),
        vec![
            word("specs"),
            Token::ListStart,
            Token::RecordStart,
            word("name"),
            word("a-b"),
            Token::RecordEnd,
            Token::ListEnd
        ]
    );
    assert_eq!(
        tokenize("(src/**/*.rs)x{y}z"),
        vec![
            Token::ListStart,
            word("src/**/*.rs"),
            Token::ListEnd,
            word("x"),
            Token::RecordStart,
            word("y"),
            Token::RecordEnd,
            word("z")
        ]
    );
    assert!(tokenize("").is_empty());
    assert!(tokenize(" \n\t ").is_empty());
    assert_eq!(tokenize("é\u{a0}ü"), vec![word("é"), word("ü")]);
}

const CONFIG: &str = "specs (
  {
    name test
    source_url https://example.com/spec
    include (docs/**/*.md other.md)
    impls (
      {
        name rust
        include (src/**/*.rs)
        exclude (src/skip/** src/old/**)
        test_include (tests/**/*.rs)
      }
      { name web }
    )
  }
  { name second impls () }
)
";

#[test]
fn a_configuration_is_read() {
    let config = parse_config(CONFIG).expect("the text is a configuration");
    assert_eq!(config.specs.len(), 2);
    let spec = &config.specs[0];
    assert_eq!(spec.name, "test");
    assert_eq!(spec.prefix, None);
    assert_eq!(spec.source_url, Some("https://example.com/spec".to_string()));
    assert_eq!(spec.includes, vec!["docs/**/*.md".to_string(), "other.md".to_string()]);
    assert_eq!(spec.impls.len(), 2);
    assert_eq!(spec.impls[0].name, "rust");
    assert_eq!(spec.impls[0].includes, vec!["src/**/*.rs".to_string()]);
    assert_eq!(
        spec.impls[0].exclude,
        vec!["src/skip/**".to_string(), "src/old/**".to_string()]
    );
    assert_eq!(spec.impls[0].test_include, vec!["tests/**/*.rs".to_string()]);
    assert_eq!(spec.impls[1].name, "web");
    assert!(spec.impls[1].includes.is_empty());
    assert_eq!(config.specs[1].name, "second");
    assert!(config.specs[1].impls.is_empty());
}

#[test]
fn a_deprecated_prefix_is_read_so_that_it_can_be_reported() {
    let config = parse_config("specs ({ name test prefix r })").unwrap();
    assert_eq!(config.specs[0].prefix, Some("r".to_string()));
    let error = tracey::spec_loader::config_error(&config).unwrap();
    assert!(error.contains("deprecated `prefix r`"));
}

#[test]
fn empty_and_repeated_documents() {
    assert!(parse_config("").unwrap().specs.is_empty());
    assert!(parse_config("specs ()").unwrap().specs.is_empty());
    let config = parse_config("specs ({ name a }) specs ({ name b } { name c })").unwrap();
    let names: Vec<&str> = config.specs.iter().map(|s| s.name.as_str()).collect();
    assert_eq!(names, vec!["b", "c"]);
    let config = parse_config("specs ({ name a name b include (x) include (y z) })").unwrap();
    assert_eq!(config.specs[0].name, "b");
    assert_eq!(config.specs[0].includes, vec!["y".to_string(), "z".to_string()]);
}

#[test]
fn malformed_configurations_are_refused() {
    for text in [
        "specs",
        "specs (",
        "specs ({ name })",
        "specs ({ })",
        "specs ({ include (a) })",
        "specs ({ name a colour blue })",
        "specs ({ name a include b })",
        "specs ({ name a include (b })",
        "specs ({ name a include ((b)) })",
        "specs ({ name a impls ({ name }) })",
        "specs ({ name a impls ({ exclude (x) }) })",
        "specs ({ name a impls ({ name b prefix r }) })",
        "specs ({ name a impls { name b } })",
        "specs { name a }",
        "spec ({ name a })",
        "specs ({ name a }))",
        "specs (name a)",
        "{ name a }",
        "specs ({ name a } junk)",
    ] {
        assert!(parse_config(text).is_none(), "{text:?} is no configuration");
    }
}
