//! The boundary with the outside crates: the config crate parses TOML text,
//! the dirs crate names the platform configuration root. Each function here
//! is believed, not verified; its contract states no more than the crate's
//! source shows, over named results that are functions of the text alone.

use crate::model::{opt_str_view, opt_tables_view, pairs_view};
use vstd::prelude::*;

verus! {

/// What the document text yields for a top-level string field: `None` when
/// the text does not parse as a document or the field's value cannot be
/// read as a string; `Some(None)` when the field is absent; `Some(Some(v))`
/// when it reads as the string `v`.
pub uninterp spec fn doc_str_field(text: Seq<char>, key: Seq<char>) -> Option<Option<Seq<char>>>;

/// What the document text yields for a top-level array-of-tables field:
/// the tables in the array's declared order, each flattened to its
/// key/value string pairs in key order. `None` when the text does not
/// parse or the field's value does not read as such an array; `Some(None)`
/// when the field is absent.
pub uninterp spec fn doc_table_field(text: Seq<char>, key: Seq<char>) -> Option<
    Option<Seq<Seq<(Seq<char>, Seq<char>)>>>,
>;

/// What a variable-source text yields: its flat key/value string pairs in
/// key order, or `None` when it does not parse to such pairs.
pub uninterp spec fn flat_pairs_of(text: Seq<char>) -> Option<Seq<(Seq<char>, Seq<char>)>>;

/// Relies on the config crate: `Config::builder` over `File::from_str` with
/// the TOML format parses the text, and `Config::get_string` reads one
/// top-level field; a `NotFound` error means the field is absent. The
/// outcome is a function of the text and the key alone.
#[verifier::external_body]
pub(crate) fn read_str_field(text: &str, key: &str) -> (r: Result<Option<String>, String>)
    ensures
        match r {
            Ok(f) => doc_str_field(text@, key@) == Some(opt_str_view(f)),
            Err(_) => doc_str_field(text@, key@) is None,
        },
{
    let cfg = config::Config::builder()
        .add_source(config::File::from_str(text, config::FileFormat::Toml))
        .build()
        .map_err(|e| e.to_string())?;
    match cfg.get_string(key) {
        Ok(s) => Ok(Some(s)),
        Err(config::ConfigError::NotFound(_)) => Ok(None),
        Err(e) => Err(e.to_string()),
    }
}

/// Relies on the config crate: `Config::get` deserializes one top-level
/// field into an array of string-to-string tables, the array's declared
/// order kept (each table a `BTreeMap`, so its pairs come out in key
/// order); a `NotFound` error means the field is absent. The parsed value
/// is a function of the text and the key alone.
#[verifier::external_body]
pub(crate) fn read_table_field(text: &str, key: &str) -> (r: Result<
    Option<Vec<Vec<(String, String)>>>,
    String,
>)
    ensures
        match r {
            Ok(f) => doc_table_field(text@, key@) == Some(opt_tables_view(f)),
            Err(_) => doc_table_field(text@, key@) is None,
        },
{
    let cfg = config::Config::builder()
        .add_source(config::File::from_str(text, config::FileFormat::Toml))
        .build()
        .map_err(|e| e.to_string())?;
    match cfg.get::<Vec<std::collections::BTreeMap<String, String>>>(key) {
        Ok(v) => Ok(Some(v.into_iter().map(|t| t.into_iter().collect()).collect())),
        Err(config::ConfigError::NotFound(_)) => Ok(None),
        Err(e) => Err(e.to_string()),
    }
}

/// Relies on the config crate: `Config::try_deserialize` reads the whole
/// text as one flat string-to-string table (a `BTreeMap`, so its pairs come
/// out in key order). The parsed value is a function of the text alone.
#[verifier::external_body]
pub(crate) fn read_flat_pairs(text: &str) -> (r: Result<Vec<(String, String)>, String>)
    ensures
        match r {
            Ok(v) => flat_pairs_of(text@) == Some(pairs_view(v@)),
            Err(_) => flat_pairs_of(text@) is None,
        },
{
    let cfg = config::Config::builder()
        .add_source(config::File::from_str(text, config::FileFormat::Toml))
        .build()
        .map_err(|e| e.to_string())?;
    let t: std::collections::BTreeMap<String, String> = cfg.try_deserialize().map_err(
        |e| e.to_string(),
    )?;
    Ok(t.into_iter().collect())
}

/// Relies on dirs::config_dir: the platform's configuration root, if the
/// environment defines one. Nothing is promised of the result: it depends
/// on the environment.
#[verifier::external_body]
pub(crate) fn platform_config_root() -> (r: Option<String>) {
    dirs::config_dir().map(|p| p.to_string_lossy().into_owned())
}

} // verus!
