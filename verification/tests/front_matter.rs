use mido::markdown::document::{FrontMatter, MetaFormat};

fn fields(format: MetaFormat, text: &str) -> Vec<(String, String)> {
    FrontMatter {
        format,
        text: text.to_string(),
    }
    .fields()
}

fn pairs(fields: &[(String, String)]) -> Vec<(&str, &str)> {
    fields
        .iter()
        .map(|(k, v)| (k.as_str(), v.as_str()))
        .collect()
}

#[test]
fn yaml_scalars_lists_and_nested_maps() {
    let text = "title: \"Rich content\"\n# a comment\ndraft: false\ntags:\n  - demo\n  - 'two words'\nlangs: [rust, \"toml\"]\nauthor:\n  name: Ani\n  links:\n    - a\n    - b\nsummary: >\n  folded over\n  two lines\nempty:\n";
    let got = fields(MetaFormat::Yaml, text);
    assert_eq!(
        pairs(&got),
        [
            ("title", "Rich content"),
            ("draft", "false"),
            ("tags", "demo, two words"),
            ("langs", "rust, toml"),
            ("author.name", "Ani"),
            ("author.links", "a, b"),
            ("summary", "folded over two lines"),
            ("empty", ""),
        ]
    );
}

#[test]
fn yaml_urls_and_list_items_keep_their_colons() {
    let text = "url: https://example.com:8080/x\nsteps:\n  - name: build\n    run: cargo build\n  - name: test\n";
    let got = fields(MetaFormat::Yaml, text);
    assert_eq!(
        pairs(&got),
        [
            ("url", "https://example.com:8080/x"),
            ("steps", "name: build, name: test"),
        ]
    );
}

#[test]
fn toml_tables_and_arrays() {
    let text = "title = \"Docs\"\norder = 1\ntags = [\n  \"a\",\n  \"b\",\n]\n\n[extra]\ntheme = 'dark'\n";
    let got = fields(MetaFormat::Toml, text);
    assert_eq!(
        pairs(&got),
        [
            ("title", "Docs"),
            ("order", "1"),
            ("tags", "a, b"),
            ("extra.theme", "dark"),
        ]
    );
}

#[test]
fn front_matter_keys_and_language() {
    let meta = FrontMatter {
        format: MetaFormat::Yaml,
        text: "title: x\ntags:\n  - a".to_string(),
    };
    assert_eq!(meta.keys(), ["title", "tags"]);
    assert_eq!(meta.language(), "yaml");
    let toml = FrontMatter {
        format: MetaFormat::Toml,
        text: "[a]\nb = 1\r\n[]\nc = \"d\"".to_string(),
    };
    assert_eq!(toml.language(), "toml");
    assert_eq!(
        toml.fields(),
        [
            ("a.b".to_string(), "1".to_string()),
            ("c".to_string(), "d".to_string())
        ]
    );
}
