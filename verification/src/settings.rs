//! The typed configuration document: the declared collections (`dot`,
//! `hook`, `var`, `meta`), the dotfiles root, and the parser that builds
//! them from the document text.

use crate::error::ConfigError;
use crate::model::{pairs_view, tables_view};
use crate::trusted::{
    doc_str_field, doc_table_field, platform_config_root, read_str_field, read_table_field,
};
use vstd::prelude::*;
use vstd::string::{StrSliceExecFns, StringExecFns};

verus! {

/// A declared symlink unit: a source template path mapped to a target path.
#[derive(Debug, Clone, PartialEq, Eq)]
pub struct Dot {
    pub source: String,
    pub target: String,
}

/// A declared post-install command, carried through unchanged.
#[derive(Debug, Clone, PartialEq, Eq)]
pub struct Hook {
    pub command: String,
}

/// A declared variable-source reference: the path of a file that supplies
/// key/value pairs, relative to the dotfiles directory or absolute.
#[derive(Debug, Clone, PartialEq, Eq)]
pub struct Var {
    pub path: String,
}

/// The configuration document, typed. `hook`, `var` and `meta` keep the
/// declared-versus-absent distinction; the accessors map absence to an
/// empty sequence.
#[derive(Debug, Clone, PartialEq, Eq)]
pub struct Settings {
    /// The user's dotfiles directory, usually a versioned dotfiles tree.
    pub dotfiles_dir: String,
    /// The symlinks to edit, in declared order.
    pub dot: Vec<Dot>,
    /// Post-install hook commands, in declared order.
    pub hook: Option<Vec<Hook>>,
    /// Variable sources for template values, in declared order.
    pub var: Option<Vec<Var>>,
    /// Meta variable sources that override variable definitions.
    pub meta: Option<Vec<Var>>,
}

/// The view of a dot list: each entry's source and target.
pub open spec fn dots_view(v: Seq<Dot>) -> Seq<(Seq<char>, Seq<char>)> {
    v.map_values(|d: Dot| (d.source@, d.target@))
}

/// The view of a hook list: each entry's command.
pub open spec fn hooks_view(v: Seq<Hook>) -> Seq<Seq<char>> {
    v.map_values(|h: Hook| h.command@)
}

/// The view of a variable-source list: each entry's path.
pub open spec fn vars_view(v: Seq<Var>) -> Seq<Seq<char>> {
    v.map_values(|x: Var| x.path@)
}

/// The first value bound to `k` in a flattened table.
pub open spec fn table_get(t: Seq<(Seq<char>, Seq<char>)>, k: Seq<char>) -> Option<Seq<char>>
    decreases t.len(),
{
    if t.len() == 0 {
        None
    } else if t[0].0 == k {
        Some(t[0].1)
    } else {
        table_get(t.drop_first(), k)
    }
}

/// The source and target a dot table declares, if it declares both.
pub open spec fn dot_of_table(t: Seq<(Seq<char>, Seq<char>)>) -> Option<(Seq<char>, Seq<char>)> {
    match (table_get(t, "source"@), table_get(t, "target"@)) {
        (Some(s), Some(g)) => Some((s, g)),
        _ => None,
    }
}

/// What the document declares as `dotfiles_dir`: `None` when the field is
/// absent, unreadable, or the document does not parse.
pub open spec fn dir_of(text: Seq<char>) -> Option<Seq<char>> {
    match doc_str_field(text, "dotfiles_dir"@) {
        Some(Some(d)) => Some(d),
        _ => None,
    }
}

/// What the document declares as `dot`: each entry's source and target, in
/// declared order; `None` when the field is absent or malformed or some
/// entry lacks a source or a target.
pub open spec fn dots_of(text: Seq<char>) -> Option<Seq<(Seq<char>, Seq<char>)>> {
    match doc_table_field(text, "dot"@) {
        Some(Some(ts)) => if forall|i: int|
            0 <= i < ts.len() ==> (#[trigger] dot_of_table(ts[i])) is Some {
            Some(ts.map_values(|t: Seq<(Seq<char>, Seq<char>)>| dot_of_table(t)->0))
        } else {
            None
        },
        _ => None,
    }
}

/// What the document declares as `hook`: the commands in declared order,
/// `Some(None)` when the section is absent, `None` when it is malformed or
/// some entry lacks a command.
pub open spec fn hooks_of(text: Seq<char>) -> Option<Option<Seq<Seq<char>>>> {
    match doc_table_field(text, "hook"@) {
        Some(Some(ts)) => if forall|i: int|
            0 <= i < ts.len() ==> (#[trigger] table_get(ts[i], "command"@)) is Some {
            Some(Some(ts.map_values(|t: Seq<(Seq<char>, Seq<char>)>| table_get(t, "command"@)->0)))
        } else {
            None
        },
        Some(None) => Some(None),
        None => None,
    }
}

/// What the document declares under `key` (`var` or `meta`): the source
/// paths in declared order, `Some(None)` when the section is absent,
/// `None` when it is malformed or some entry lacks a path.
pub open spec fn paths_of(text: Seq<char>, key: Seq<char>) -> Option<Option<Seq<Seq<char>>>> {
    match doc_table_field(text, key) {
        Some(Some(ts)) => if forall|i: int|
            0 <= i < ts.len() ==> (#[trigger] table_get(ts[i], "path"@)) is Some {
            Some(Some(ts.map_values(|t: Seq<(Seq<char>, Seq<char>)>| table_get(t, "path"@)->0)))
        } else {
            None
        },
        Some(None) => Some(None),
        None => None,
    }
}

/// What parsing the document text must yield: the typed collections on
/// success, and on failure a `MalformedConfig` naming the first field
/// (in the order `dotfiles_dir`, `dot`, `hook`, `var`, `meta`) that is
/// required but absent, malformed, or incomplete.
pub open spec fn parse_post(text: Seq<char>, r: Result<Settings, ConfigError>) -> bool {
    match r {
        Ok(s) => {
            &&& dir_of(text) == Some(s.dotfiles_dir@)
            &&& dots_of(text) == Some(dots_view(s.dot@))
            &&& hooks_of(text) == Some(
                match s.hook {
                    Some(hs) => Some(hooks_view(hs@)),
                    None => None,
                },
            )
            &&& paths_of(text, "var"@) == Some(
                match s.var {
                    Some(vs) => Some(vars_view(vs@)),
                    None => None,
                },
            )
            &&& paths_of(text, "meta"@) == Some(
                match s.meta {
                    Some(vs) => Some(vars_view(vs@)),
                    None => None,
                },
            )
        },
        Err(e) => match e {
            ConfigError::MalformedConfig { field, .. } => {
                ||| (field@ == "dotfiles_dir"@ && dir_of(text) is None)
                ||| (field@ == "dot"@ && dir_of(text) is Some && dots_of(text) is None)
                ||| (field@ == "hook"@ && dir_of(text) is Some && dots_of(text) is Some
                    && hooks_of(text) is None)
                ||| (field@ == "var"@ && dir_of(text) is Some && dots_of(text) is Some && hooks_of(
                    text,
                ) is Some && paths_of(text, "var"@) is None)
                ||| (field@ == "meta"@ && dir_of(text) is Some && dots_of(text) is Some
                    && hooks_of(text) is Some && paths_of(text, "var"@) is Some && paths_of(
                    text,
                    "meta"@,
                ) is None)
            },
            _ => false,
        },
    }
}

proof fn lemma_table_get_at(t: Seq<(Seq<char>, Seq<char>)>, k: Seq<char>, i: int)
    requires
        0 <= i < t.len(),
        t[i].0 == k,
        forall|j: int| 0 <= j < i ==> (#[trigger] t[j]).0 != k,
    ensures
        table_get(t, k) == Some(t[i].1),
    decreases i,
{
    if i == 0 {
    } else {
        assert(t[0].0 != k);
        assert(t.drop_first()[i - 1] == t[i]);
        assert forall|j: int| 0 <= j < i - 1 implies (#[trigger] t.drop_first()[j]).0 != k by {
            assert(t.drop_first()[j] == t[j + 1]);
        }
        lemma_table_get_at(t.drop_first(), k, i - 1);
    }
}

proof fn lemma_table_get_none(t: Seq<(Seq<char>, Seq<char>)>, k: Seq<char>)
    requires
        forall|j: int| 0 <= j < t.len() ==> (#[trigger] t[j]).0 != k,
    ensures
        table_get(t, k) is None,
    decreases t.len(),
{
    if t.len() > 0 {
        assert forall|j: int| 0 <= j < t.drop_first().len() implies (#[trigger] t.drop_first()[
            j
        ]).0 != k by {
            assert(t.drop_first()[j] == t[j + 1]);
        }
        lemma_table_get_none(t.drop_first(), k);
    }
}

/// The first value bound to `name` in one flattened table.
fn table_lookup(t: &Vec<(String, String)>, name: &String) -> (r: Option<String>)
    ensures
        match r {
            Some(v) => table_get(pairs_view(t@), name@) == Some(v@),
            None => table_get(pairs_view(t@), name@) is None,
        },
{
    let ghost s = pairs_view(t@);
    let mut i: usize = 0;
    while i < t.len()
        invariant
            s == pairs_view(t@),
            i <= t@.len(),
            forall|j: int| 0 <= j < i ==> (#[trigger] s[j]).0 != name@,
        decreases t@.len() - i,
    {
        if t[i].0 == *name {
            let v = t[i].1.clone();
            proof {
                lemma_table_get_at(s, name@, i as int);
            }
            return Some(v);
        }
        i += 1;
    }
    proof {
        lemma_table_get_none(s, name@);
    }
    None
}

/// The dot entries of the flattened tables, when each declares a source
/// and a target.
fn collect_dots(tables: &Vec<Vec<(String, String)>>) -> (r: Option<Vec<Dot>>)
    ensures
        match r {
            Some(ds) => {
                &&& forall|i: int|
                    0 <= i < tables@.len() ==> (#[trigger] dot_of_table(
                        tables_view(tables@)[i],
                    )) is Some
                &&& dots_view(ds@) == tables_view(tables@).map_values(
                    |t: Seq<(Seq<char>, Seq<char>)>| dot_of_table(t)->0,
                )
            },
            None => exists|i: int|
                0 <= i < tables@.len() && (#[trigger] dot_of_table(tables_view(tables@)[i])) is None,
        },
{
    let skey = String::from_str("source");
    let tkey = String::from_str("target");
    let mut ds: Vec<Dot> = Vec::new();
    let mut i: usize = 0;
    while i < tables.len()
        invariant
            skey@ == "source"@,
            tkey@ == "target"@,
            i <= tables@.len(),
            ds@.len() == i,
            forall|j: int|
                0 <= j < i ==> (#[trigger] dot_of_table(tables_view(tables@)[j])) is Some,
            forall|j: int|
                0 <= j < i ==> ((#[trigger] ds@[j]).source@, ds@[j].target@) == dot_of_table(
                    tables_view(tables@)[j],
                )->0,
        decreases tables@.len() - i,
    {
        proof {
            assert(tables_view(tables@)[i as int] == pairs_view(tables@[i as int]@));
        }
        let source = match table_lookup(&tables[i], &skey) {
            Some(v) => v,
            None => {
                proof {
                    assert(dot_of_table(tables_view(tables@)[i as int]) is None);
                }
                return None;
            },
        };
        let target = match table_lookup(&tables[i], &tkey) {
            Some(v) => v,
            None => {
                proof {
                    assert(dot_of_table(tables_view(tables@)[i as int]) is None);
                }
                return None;
            },
        };
        ds.push(Dot { source, target });
        i += 1;
    }
    proof {
        assert(dots_view(ds@) =~= tables_view(tables@).map_values(
            |t: Seq<(Seq<char>, Seq<char>)>| dot_of_table(t)->0,
        ));
    }
    Some(ds)
}

/// The hook entries of the flattened tables, when each declares a command.
fn collect_hooks(tables: &Vec<Vec<(String, String)>>) -> (r: Option<Vec<Hook>>)
    ensures
        match r {
            Some(hs) => {
                &&& forall|i: int|
                    0 <= i < tables@.len() ==> (#[trigger] table_get(
                        tables_view(tables@)[i],
                        "command"@,
                    )) is Some
                &&& hooks_view(hs@) == tables_view(tables@).map_values(
                    |t: Seq<(Seq<char>, Seq<char>)>| table_get(t, "command"@)->0,
                )
            },
            None => exists|i: int|
                0 <= i < tables@.len() && (#[trigger] table_get(
                    tables_view(tables@)[i],
                    "command"@,
                )) is None,
        },
{
    let ckey = String::from_str("command");
    let mut hs: Vec<Hook> = Vec::new();
    let mut i: usize = 0;
    while i < tables.len()
        invariant
            ckey@ == "command"@,
            i <= tables@.len(),
            hs@.len() == i,
            forall|j: int|
                0 <= j < i ==> (#[trigger] table_get(tables_view(tables@)[j], "command"@)) is Some,
            forall|j: int|
                0 <= j < i ==> (#[trigger] hs@[j]).command@ == table_get(
                    tables_view(tables@)[j],
                    "command"@,
                )->0,
        decreases tables@.len() - i,
    {
        proof {
            assert(tables_view(tables@)[i as int] == pairs_view(tables@[i as int]@));
        }
        let command = match table_lookup(&tables[i], &ckey) {
            Some(v) => v,
            None => {
                return None;
            },
        };
        hs.push(Hook { command });
        i += 1;
    }
    proof {
        assert(hooks_view(hs@) =~= tables_view(tables@).map_values(
            |t: Seq<(Seq<char>, Seq<char>)>| table_get(t, "command"@)->0,
        ));
    }
    Some(hs)
}

/// The variable-source entries of the flattened tables, when each declares
/// a path.
fn collect_paths(tables: &Vec<Vec<(String, String)>>) -> (r: Option<Vec<Var>>)
    ensures
        match r {
            Some(vs) => {
                &&& forall|i: int|
                    0 <= i < tables@.len() ==> (#[trigger] table_get(
                        tables_view(tables@)[i],
                        "path"@,
                    )) is Some
                &&& vars_view(vs@) == tables_view(tables@).map_values(
                    |t: Seq<(Seq<char>, Seq<char>)>| table_get(t, "path"@)->0,
                )
            },
            None => exists|i: int|
                0 <= i < tables@.len() && (#[trigger] table_get(
                    tables_view(tables@)[i],
                    "path"@,
                )) is None,
        },
{
    let pkey = String::from_str("path");
    let mut vs: Vec<Var> = Vec::new();
    let mut i: usize = 0;
    while i < tables.len()
        invariant
            pkey@ == "path"@,
            i <= tables@.len(),
            vs@.len() == i,
            forall|j: int|
                0 <= j < i ==> (#[trigger] table_get(tables_view(tables@)[j], "path"@)) is Some,
            forall|j: int|
                0 <= j < i ==> (#[trigger] vs@[j]).path@ == table_get(
                    tables_view(tables@)[j],
                    "path"@,
                )->0,
        decreases tables@.len() - i,
    {
        proof {
            assert(tables_view(tables@)[i as int] == pairs_view(tables@[i as int]@));
        }
        let path = match table_lookup(&tables[i], &pkey) {
            Some(v) => v,
            None => {
                return None;
            },
        };
        vs.push(Var { path });
        i += 1;
    }
    proof {
        assert(vars_view(vs@) =~= tables_view(tables@).map_values(
            |t: Seq<(Seq<char>, Seq<char>)>| table_get(t, "path"@)->0,
        ));
    }
    Some(vs)
}

impl Settings {
    /// Parse the configuration document text into the typed settings:
    /// `dotfiles_dir` and `dot` are required, `hook`, `var` and `meta`
    /// keep their declared-versus-absent distinction. The first field
    /// that is required but absent, malformed, or incomplete names the
    /// `MalformedConfig` error.
    pub fn parse_document(text: &str) -> (r: Result<Settings, ConfigError>)
        ensures
            parse_post(text@, r),
    {
        let dotfiles_dir = match read_str_field(text, "dotfiles_dir") {
            Ok(Some(d)) => d,
            Ok(None) => {
                return Err(
                    ConfigError::MalformedConfig {
                        field: String::from_str("dotfiles_dir"),
                        reason: String::from_str("required field is missing"),
                    },
                );
            },
            Err(reason) => {
                return Err(
                    ConfigError::MalformedConfig {
                        field: String::from_str("dotfiles_dir"),
                        reason,
                    },
                );
            },
        };
        let dot = match read_table_field(text, "dot") {
            Ok(Some(tables)) => match collect_dots(&tables) {
                Some(ds) => ds,
                None => {
                    return Err(
                        ConfigError::MalformedConfig {
                            field: String::from_str("dot"),
                            reason: String::from_str("an entry lacks a source or a target"),
                        },
                    );
                },
            },
            Ok(None) => {
                return Err(
                    ConfigError::MalformedConfig {
                        field: String::from_str("dot"),
                        reason: String::from_str("required field is missing"),
                    },
                );
            },
            Err(reason) => {
                return Err(ConfigError::MalformedConfig { field: String::from_str("dot"), reason });
            },
        };
        let hook = match read_table_field(text, "hook") {
            Ok(Some(tables)) => match collect_hooks(&tables) {
                Some(hs) => Some(hs),
                None => {
                    return Err(
                        ConfigError::MalformedConfig {
                            field: String::from_str("hook"),
                            reason: String::from_str("an entry lacks a command"),
                        },
                    );
                },
            },
            Ok(None) => None,
            Err(reason) => {
                return Err(
                    ConfigError::MalformedConfig { field: String::from_str("hook"), reason },
                );
            },
        };
        let var = match read_table_field(text, "var") {
            Ok(Some(tables)) => match collect_paths(&tables) {
                Some(vs) => Some(vs),
                None => {
                    return Err(
                        ConfigError::MalformedConfig {
                            field: String::from_str("var"),
                            reason: String::from_str("an entry lacks a path"),
                        },
                    );
                },
            },
            Ok(None) => None,
            Err(reason) => {
                return Err(ConfigError::MalformedConfig { field: String::from_str("var"), reason });
            },
        };
        let meta = match read_table_field(text, "meta") {
            Ok(Some(tables)) => match collect_paths(&tables) {
                Some(vs) => Some(vs),
                None => {
                    return Err(
                        ConfigError::MalformedConfig {
                            field: String::from_str("meta"),
                            reason: String::from_str("an entry lacks a path"),
                        },
                    );
                },
            },
            Ok(None) => None,
            Err(reason) => {
                return Err(
                    ConfigError::MalformedConfig { field: String::from_str("meta"), reason },
                );
            },
        };
        Ok(Settings { dotfiles_dir, dot, hook, var, meta })
    }

    /// Build the typed settings from the configuration file's text, `None`
    /// standing for a file absent at the standard path: no partial value
    /// comes out of a missing file.
    pub fn load_document(content: Option<String>) -> (r: Result<Settings, ConfigError>)
        ensures
            content is None ==> r matches Err(ConfigError::NotFound),
            content matches Some(t) ==> parse_post(t@, r),
    {
        match content {
            Some(t) => Settings::parse_document(t.as_str()),
            None => Err(ConfigError::NotFound),
        }
    }

    /// The configuration file path under a configuration root, or
    /// `NotFound` when the environment defines no root.
    pub fn config_path_from_root(root: Option<String>) -> (r: Result<String, ConfigError>)
        ensures
            match r {
                Ok(p) => root matches Some(d) && p@ == d@ + "/bombadil.toml"@,
                Err(e) => root is None && e is NotFound,
            },
    {
        match root {
            Some(d) => {
                let mut s = d;
                s.append("/bombadil.toml");
                Ok(s)
            },
            None => Err(ConfigError::NotFound),
        }
    }

    /// The standard settings path: the platform configuration root joined
    /// with `bombadil.toml`.
    pub fn bombadil_config_xdg_path() -> (r: Result<String, ConfigError>)
        ensures
            match r {
                Ok(p) => exists|d: Seq<char>| p@ == d + "/bombadil.toml"@,
                Err(e) => e is NotFound,
            },
    {
        Settings::config_path_from_root(platform_config_root())
    }

    /// The declared dots, cloned in declared order.
    pub fn dots(&self) -> (r: Vec<Dot>)
        ensures
            dots_view(r@) == dots_view(self.dot@),
    {
        let mut ds: Vec<Dot> = Vec::new();
        let mut i: usize = 0;
        while i < self.dot.len()
            invariant
                i <= self.dot@.len(),
                ds@.len() == i,
                forall|j: int|
                    0 <= j < i ==> ((#[trigger] ds@[j]).source@, ds@[j].target@) == ((
                    #[trigger] self.dot@[j]).source@, self.dot@[j].target@),
            decreases self.dot@.len() - i,
        {
            ds.push(
                Dot { source: self.dot[i].source.clone(), target: self.dot[i].target.clone() },
            );
            i += 1;
        }
        proof {
            assert(dots_view(ds@) =~= dots_view(self.dot@));
        }
        ds
    }

    /// The declared hooks in declared order, an absent section standing
    /// for no hooks.
    pub fn hooks(&self) -> (r: Vec<Hook>)
        ensures
            hooks_view(r@) == match self.hook {
                Some(hs) => hooks_view(hs@),
                None => Seq::<Seq<char>>::empty(),
            },
    {
        let mut out: Vec<Hook> = Vec::new();
        match &self.hook {
            Some(hs) => {
                let mut i: usize = 0;
                while i < hs.len()
                    invariant
                        i <= hs@.len(),
                        out@.len() == i,
                        forall|j: int|
                            0 <= j < i ==> (#[trigger] out@[j]).command@ == hs@[j].command@,
                    decreases hs@.len() - i,
                {
                    out.push(Hook { command: hs[i].command.clone() });
                    i += 1;
                }
                proof {
                    assert(hooks_view(out@) =~= hooks_view(hs@));
                }
            },
            None => {
                proof {
                    assert(hooks_view(out@) =~= Seq::<Seq<char>>::empty());
                }
            },
        }
        out
    }

    /// The declared variable sources in declared order, an absent section
    /// standing for none.
    pub fn vars(&self) -> (r: Vec<Var>)
        ensures
            vars_view(r@) == match self.var {
                Some(vs) => vars_view(vs@),
                None => Seq::<Seq<char>>::empty(),
            },
    {
        Settings::clone_var_list(&self.var)
    }

    /// The declared meta sources in declared order, an absent section
    /// standing for none.
    pub fn metas(&self) -> (r: Vec<Var>)
        ensures
            vars_view(r@) == match self.meta {
                Some(vs) => vars_view(vs@),
                None => Seq::<Seq<char>>::empty(),
            },
    {
        Settings::clone_var_list(&self.meta)
    }

    fn clone_var_list(list: &Option<Vec<Var>>) -> (r: Vec<Var>)
        ensures
            vars_view(r@) == match list {
                Some(vs) => vars_view(vs@),
                None => Seq::<Seq<char>>::empty(),
            },
    {
        let mut out: Vec<Var> = Vec::new();
        match list {
            Some(vs) => {
                let mut i: usize = 0;
                while i < vs.len()
                    invariant
                        i <= vs@.len(),
                        out@.len() == i,
                        forall|j: int| 0 <= j < i ==> (#[trigger] out@[j]).path@ == vs@[j].path@,
                    decreases vs@.len() - i,
                {
                    out.push(Var { path: vs[i].path.clone() });
                    i += 1;
                }
                proof {
                    assert(vars_view(out@) =~= vars_view(vs@));
                }
            },
            None => {
                proof {
                    assert(vars_view(out@) =~= Seq::<Seq<char>>::empty());
                }
            },
        }
        out
    }
}

/// The absolute path of a declared source file: kept as it stands when
/// absolute, else joined under the dotfiles directory.
pub fn resolve_source_path(dotfiles_dir: &str, path: &str) -> (r: String)
    ensures
        r@ == if path@.len() > 0 && path@[0] == '/' {
            path@
        } else {
            dotfiles_dir@ + "/"@ + path@
        },
{
    if path.unicode_len() > 0 && path.get_char(0) == '/' {
        path.to_owned()
    } else {
        let mut s = dotfiles_dir.to_owned();
        s.append("/");
        s.append(path);
        s
    }
}

impl Dot {
    /// The entry as an inline TOML table.
    pub fn to_toml(&self) -> (r: String)
        ensures
            r@ == "{ source = \""@ + self.source@ + "\", target = \""@ + self.target@ + "\" }"@,
    {
        let mut s = String::from_str("{ source = \"");
        s.append(self.source.as_str());
        s.append("\", target = \"");
        s.append(self.target.as_str());
        s.append("\" }");
        s
    }
}

impl Hook {
    /// The entry as an inline TOML table.
    pub fn to_toml(&self) -> (r: String)
        ensures
            r@ == "{ command = \""@ + self.command@ + "\" }"@,
    {
        let mut s = String::from_str("{ command = \"");
        s.append(self.command.as_str());
        s.append("\" }");
        s
    }
}

impl Var {
    /// The entry as an inline TOML table.
    pub fn to_toml(&self) -> (r: String)
        ensures
            r@ == "{ path = \""@ + self.path@ + "\" }"@,
    {
        let mut s = String::from_str("{ path = \"");
        s.append(self.path.as_str());
        s.append("\" }");
        s
    }
}

} // verus!
