use fixtures::types::{
    default_config_format, default_gen_commits, default_gen_packages, default_gen_seed,
    resolve_config_filename, ConfigDef, ExpectDef, FixtureDef, Meta, SerializableExpect,
};

fn config(format: &str, filename: Option<&str>) -> ConfigDef {
    ConfigDef {
        content: "{}".to_string(),
        format: format.to_string(),
        filename: filename.map(|f| f.to_string()),
    }
}

fn bare(description: &str) -> FixtureDef {
    FixtureDef {
        meta: Meta {
            name: "t".to_string(),
            description: description.to_string(),
            default_branch: None,
        },
        config: None,
        packages: Vec::new(),
        commits: Vec::new(),
        tags: Vec::new(),
        branches: Vec::new(),
        hooks: Vec::new(),
        generate: None,
        expect: None,
    }
}

#[test]
fn defaults() {
    assert_eq!(default_config_format(), "json");
    assert_eq!(default_gen_packages(), 1);
    assert_eq!(default_gen_commits(), 100);
    assert_eq!(default_gen_seed(), 42);
}

#[test]
fn config_filename_from_format() {
    assert_eq!(resolve_config_filename(&config("json", None)), "ferrflow.json");
    assert_eq!(resolve_config_filename(&config("toml", None)), ".ferrflow.toml");
    assert_eq!(resolve_config_filename(&config("json5", None)), "ferrflow.json5");
    assert_eq!(resolve_config_filename(&config("yaml", None)), "ferrflow.json");
    assert_eq!(resolve_config_filename(&config("toml", Some("custom.cfg"))), "custom.cfg");
}

#[test]
fn expect_record_copies_the_expect_section() {
    let mut def = bare("my description");
    def.expect = Some(ExpectDef {
        check_contains: vec!["hello".to_string()],
        check_not_contains: vec!["Nothing to release".to_string()],
        output_order: vec!["a".to_string(), "b".to_string()],
        packages_released: Some(1),
    });
    let e = SerializableExpect::from_def(&def);
    assert_eq!(e.description, "my description");
    assert_eq!(e.check_contains, vec!["hello".to_string()]);
    assert_eq!(e.check_not_contains, vec!["Nothing to release".to_string()]);
    assert_eq!(e.output_order, vec!["a".to_string(), "b".to_string()]);
    assert_eq!(e.packages_released, Some(1));
}

#[test]
fn expect_record_without_expect_section() {
    let e = SerializableExpect::from_def(&bare("d"));
    assert_eq!(e.description, "d");
    assert!(e.check_contains.is_empty());
    assert!(e.check_not_contains.is_empty());
    assert!(e.output_order.is_empty());
    assert_eq!(e.packages_released, None);
}
