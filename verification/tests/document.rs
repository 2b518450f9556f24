use bombadil::settings::resolve_source_path;
use bombadil::{ConfigError, Dot, Hook, Settings, Var};

fn base_doc() -> String {
    String::from(
        "dotfiles_dir = \"/home/tom/dotfiles\"\ndot = [{ source = \"bashrc\", target = \".bashrc\" }, { source = \"vimrc\", target = \".vimrc\" }]\n",
    )
}

#[test]
fn dots_keep_declaration_order() {
    let s = Settings::parse_document(&base_doc()).unwrap();
    assert_eq!(s.dotfiles_dir, "/home/tom/dotfiles");
    assert_eq!(s.dot.len(), 2);
    assert_eq!(s.dot[0].source, "bashrc");
    assert_eq!(s.dot[0].target, ".bashrc");
    assert_eq!(s.dot[1].source, "vimrc");
    assert_eq!(s.dot[1].target, ".vimrc");
}

#[test]
fn missing_optional_sections_are_empty() {
    let s = Settings::parse_document(&base_doc()).unwrap();
    assert!(s.hook.is_none());
    assert!(s.var.is_none());
    assert!(s.meta.is_none());
    assert!(s.hooks().is_empty());
    assert!(s.vars().is_empty());
    assert!(s.metas().is_empty());
}

#[test]
fn empty_dot_list_is_accepted() {
    let s = Settings::parse_document("dotfiles_dir = \"/d\"\ndot = []\n").unwrap();
    assert_eq!(s.dotfiles_dir, "/d");
    assert!(s.dot.is_empty());
}

#[test]
fn missing_dot_is_malformed_config() {
    let r = Settings::parse_document("dotfiles_dir = \"/d\"\n");
    match r {
        Err(ConfigError::MalformedConfig { field, .. }) => assert_eq!(field, "dot"),
        other => panic!("expected MalformedConfig for dot, got {:?}", other),
    }
}

#[test]
fn missing_dotfiles_dir_is_malformed_config() {
    let r = Settings::parse_document("dot = []\n");
    match r {
        Err(ConfigError::MalformedConfig { field, .. }) => assert_eq!(field, "dotfiles_dir"),
        other => panic!("expected MalformedConfig for dotfiles_dir, got {:?}", other),
    }
}

#[test]
fn type_mismatched_dotfiles_dir_is_malformed_config() {
    let r = Settings::parse_document("dotfiles_dir = [1, 2]\ndot = []\n");
    match r {
        Err(ConfigError::MalformedConfig { field, .. }) => assert_eq!(field, "dotfiles_dir"),
        other => panic!("expected MalformedConfig for dotfiles_dir, got {:?}", other),
    }
}

#[test]
fn type_mismatched_dot_is_malformed_config() {
    let r = Settings::parse_document("dotfiles_dir = \"/d\"\ndot = 5\n");
    match r {
        Err(ConfigError::MalformedConfig { field, .. }) => assert_eq!(field, "dot"),
        other => panic!("expected MalformedConfig for dot, got {:?}", other),
    }
}

#[test]
fn dot_entry_without_target_is_malformed_config() {
    let r = Settings::parse_document("dotfiles_dir = \"/d\"\ndot = [{ source = \"a\" }]\n");
    match r {
        Err(ConfigError::MalformedConfig { field, .. }) => assert_eq!(field, "dot"),
        other => panic!("expected MalformedConfig for dot, got {:?}", other),
    }
}

#[test]
fn hook_entry_without_command_is_malformed_config() {
    let doc = format!("{}hook = [{{ note = \"x\" }}]\n", base_doc());
    let r = Settings::parse_document(&doc);
    match r {
        Err(ConfigError::MalformedConfig { field, .. }) => assert_eq!(field, "hook"),
        other => panic!("expected MalformedConfig for hook, got {:?}", other),
    }
}

#[test]
fn unknown_top_level_keys_are_tolerated() {
    let doc = format!("{}future_section = \"ignored\"\n", base_doc());
    let s = Settings::parse_document(&doc).unwrap();
    assert_eq!(s.dot.len(), 2);
}

#[test]
fn whole_document_unparsable_is_malformed_config() {
    let r = Settings::parse_document("not toml ][");
    assert!(matches!(r, Err(ConfigError::MalformedConfig { .. })));
}

#[test]
fn entry_round_trip_through_serialization() {
    let dot = Dot { source: String::from("bashrc"), target: String::from(".bashrc") };
    let hook = Hook { command: String::from("echo done") };
    let var = Var { path: String::from("vars.toml") };
    let meta = Var { path: String::from("meta.toml") };
    let doc = format!(
        "dotfiles_dir = \"/d\"\ndot = [{}]\nhook = [{}]\nvar = [{}]\nmeta = [{}]\n",
        dot.to_toml(),
        hook.to_toml(),
        var.to_toml(),
        meta.to_toml(),
    );
    let s = Settings::parse_document(&doc).unwrap();
    assert_eq!(s.dot, vec![dot]);
    assert_eq!(s.hook, Some(vec![hook]));
    assert_eq!(s.var, Some(vec![var]));
    assert_eq!(s.meta, Some(vec![meta]));
}

#[test]
fn var_entry_serialization_is_exact() {
    let var = Var { path: String::from("x") };
    assert_eq!(var.to_toml(), "{ path = \"x\" }");
}

#[test]
fn declared_sections_parse_into_lists() {
    let doc = format!(
        "{}hook = [{{ command = \"echo a\" }}, {{ command = \"echo b\" }}]\nvar = [{{ path = \"v.toml\" }}]\nmeta = [{{ path = \"m.toml\" }}]\n",
        base_doc()
    );
    let s = Settings::parse_document(&doc).unwrap();
    let hooks = s.hooks();
    assert_eq!(hooks.len(), 2);
    assert_eq!(hooks[0].command, "echo a");
    assert_eq!(hooks[1].command, "echo b");
    assert_eq!(s.vars(), vec![Var { path: String::from("v.toml") }]);
    assert_eq!(s.metas(), vec![Var { path: String::from("m.toml") }]);
}

#[test]
fn absent_file_is_not_found() {
    let r = Settings::load_document(None);
    assert!(matches!(r, Err(ConfigError::NotFound)));
}

#[test]
fn present_file_parses_like_text() {
    let s = Settings::load_document(Some(base_doc())).unwrap();
    assert_eq!(s.dot.len(), 2);
}

#[test]
fn config_path_requires_a_root() {
    let r = Settings::config_path_from_root(None);
    assert!(matches!(r, Err(ConfigError::NotFound)));
    let p = Settings::config_path_from_root(Some(String::from("/home/tom/.config"))).unwrap();
    assert_eq!(p, "/home/tom/.config/bombadil.toml");
}

#[test]
fn xdg_path_names_the_standard_file() {
    match Settings::bombadil_config_xdg_path() {
        Ok(p) => assert!(p.ends_with("/bombadil.toml")),
        Err(e) => assert!(matches!(e, ConfigError::NotFound)),
    }
}

#[test]
fn source_paths_resolve_under_the_dotfiles_dir() {
    assert_eq!(resolve_source_path("/d", "vars.toml"), "/d/vars.toml");
    assert_eq!(resolve_source_path("/d", "/abs/vars.toml"), "/abs/vars.toml");
    assert_eq!(resolve_source_path("/d", ""), "/d/");
}
