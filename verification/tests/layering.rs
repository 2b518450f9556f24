use bombadil::vars::resolve;
use bombadil::{ConfigError, Var};

fn src(path: &str, text: &str) -> (Var, Option<String>) {
    (Var { path: String::from(path) }, Some(String::from(text)))
}

fn missing(path: &str) -> (Var, Option<String>) {
    (Var { path: String::from(path) }, None)
}

fn value_of(mapping: &bombadil::VariableMapping, key: &str) -> Option<String> {
    mapping.get(&String::from(key))
}

#[test]
fn single_var_source_resolves() {
    let vars = vec![src("base.toml", "color = \"blue\"")];
    let m = resolve(&vars, &vec![]).unwrap();
    assert_eq!(value_of(&m, "color"), Some(String::from("blue")));
    assert_eq!(m.len(), 1);
}

#[test]
fn meta_overrides_var() {
    let vars = vec![src("base.toml", "color = \"blue\"")];
    let metas = vec![src("override.toml", "color = \"red\"")];
    let m = resolve(&vars, &metas).unwrap();
    assert_eq!(value_of(&m, "color"), Some(String::from("red")));
}

#[test]
fn later_var_source_wins_collision() {
    let vars = vec![src("a.toml", "shell = \"bash\""), src("b.toml", "shell = \"zsh\"")];
    let m = resolve(&vars, &vec![]).unwrap();
    assert_eq!(value_of(&m, "shell"), Some(String::from("zsh")));
}

#[test]
fn later_var_source_wins_whatever_the_names() {
    // The collision outcome follows declaration order, not the
    // alphabetical order of the paths or the sizes of the sources.
    let vars = vec![
        src("zz.toml", "editor = \"vim\"\nterm = \"xterm\""),
        src("aa.toml", "editor = \"emacs\""),
    ];
    let m = resolve(&vars, &vec![]).unwrap();
    assert_eq!(value_of(&m, "editor"), Some(String::from("emacs")));
    assert_eq!(value_of(&m, "term"), Some(String::from("xterm")));
}

#[test]
fn meta_only_keys_are_kept() {
    let vars = vec![src("base.toml", "color = \"blue\"")];
    let metas = vec![src("override.toml", "accent = \"green\"")];
    let m = resolve(&vars, &metas).unwrap();
    assert_eq!(value_of(&m, "color"), Some(String::from("blue")));
    assert_eq!(value_of(&m, "accent"), Some(String::from("green")));
}

#[test]
fn reference_takes_the_referenced_value() {
    let vars = vec![src("base.toml", "accent = \"{color}\"\ncolor = \"blue\"")];
    let m = resolve(&vars, &vec![]).unwrap();
    assert_eq!(value_of(&m, "accent"), Some(String::from("blue")));
    assert_eq!(value_of(&m, "color"), Some(String::from("blue")));
}

#[test]
fn reference_sees_the_meta_override() {
    let vars = vec![src("base.toml", "accent = \"{color}\"\ncolor = \"blue\"")];
    let metas = vec![src("override.toml", "color = \"red\"")];
    let m = resolve(&vars, &metas).unwrap();
    assert_eq!(value_of(&m, "accent"), Some(String::from("red")));
}

#[test]
fn unbound_reference_is_left_unchanged() {
    let vars = vec![src("base.toml", "accent = \"{missing}\"")];
    let m = resolve(&vars, &vec![]).unwrap();
    assert_eq!(value_of(&m, "accent"), Some(String::from("{missing}")));
}

#[test]
fn substitution_is_a_single_pass() {
    let vars = vec![src("base.toml", "a = \"{b}\"\nb = \"{c}\"\nc = \"x\"")];
    let m = resolve(&vars, &vec![]).unwrap();
    assert_eq!(value_of(&m, "a"), Some(String::from("{c}")));
    assert_eq!(value_of(&m, "b"), Some(String::from("x")));
    assert_eq!(value_of(&m, "c"), Some(String::from("x")));
}

#[test]
fn self_reference_is_cyclic() {
    let vars = vec![src("base.toml", "name = \"{name}\"")];
    let r = resolve(&vars, &vec![]);
    match r {
        Err(ConfigError::CyclicVariable { key }) => assert_eq!(key, "name"),
        other => panic!("expected CyclicVariable, got {:?}", other),
    }
}

#[test]
fn self_reference_through_meta_is_cyclic() {
    let vars = vec![src("base.toml", "name = \"tom\"")];
    let metas = vec![src("override.toml", "name = \"{name}\"")];
    let r = resolve(&vars, &metas);
    match r {
        Err(ConfigError::CyclicVariable { key }) => assert_eq!(key, "name"),
        other => panic!("expected CyclicVariable, got {:?}", other),
    }
}

#[test]
fn unparsable_var_source_is_malformed() {
    let vars = vec![src("good.toml", "a = \"1\""), src("bad.toml", "not toml ][")];
    let r = resolve(&vars, &vec![]);
    match r {
        Err(ConfigError::MalformedVariableSource { path, .. }) => assert_eq!(path, "bad.toml"),
        other => panic!("expected MalformedVariableSource, got {:?}", other),
    }
}

#[test]
fn unparsable_meta_source_is_malformed() {
    let vars = vec![src("good.toml", "a = \"1\"")];
    let metas = vec![src("meta.toml", "bad = [1, 2]")];
    let r = resolve(&vars, &metas);
    match r {
        Err(ConfigError::MalformedVariableSource { path, .. }) => assert_eq!(path, "meta.toml"),
        other => panic!("expected MalformedVariableSource, got {:?}", other),
    }
}

#[test]
fn empty_tiers_resolve_to_an_empty_mapping() {
    let m = resolve(&vec![], &vec![]).unwrap();
    assert_eq!(m.len(), 0);
    assert_eq!(value_of(&m, "anything"), None);
}

#[test]
fn entries_can_be_walked() {
    let vars = vec![src("base.toml", "a = \"1\"\nb = \"2\"")];
    let m = resolve(&vars, &vec![]).unwrap();
    let mut seen: Vec<(String, String)> = Vec::new();
    for i in 0..m.len() {
        seen.push(m.entry(i));
    }
    seen.sort();
    assert_eq!(
        seen,
        vec![
            (String::from("a"), String::from("1")),
            (String::from("b"), String::from("2")),
        ]
    );
}

#[test]
fn missing_var_source_is_source_not_found() {
    let vars = vec![src("good.toml", "a = \"1\""), missing("gone.toml")];
    let r = resolve(&vars, &vec![]);
    match r {
        Err(ConfigError::SourceNotFound { path }) => assert_eq!(path, "gone.toml"),
        other => panic!("expected SourceNotFound, got {:?}", other),
    }
}

#[test]
fn earlier_parse_failure_wins_over_later_missing_file() {
    let vars = vec![src("bad.toml", "not toml ]["), missing("gone.toml")];
    let r = resolve(&vars, &vec![]);
    match r {
        Err(ConfigError::MalformedVariableSource { path, .. }) => assert_eq!(path, "bad.toml"),
        other => panic!("expected MalformedVariableSource, got {:?}", other),
    }
}

#[test]
fn missing_meta_source_is_source_not_found() {
    let vars = vec![src("good.toml", "a = \"1\"")];
    let metas = vec![missing("meta.toml")];
    let r = resolve(&vars, &metas);
    match r {
        Err(ConfigError::SourceNotFound { path }) => assert_eq!(path, "meta.toml"),
        other => panic!("expected SourceNotFound, got {:?}", other),
    }
}
