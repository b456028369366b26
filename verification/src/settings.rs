//! The user's settings: what stands in for them before anything was saved.
use vstd::prelude::*;

verus! {

/// The default settings, each a key with its value as JSON text: the eye-care
/// theme, Simplified Chinese, no default recovery directory, automatic updates
/// on, hidden files not shown.
pub open spec fn spec_default_settings() -> Seq<(Seq<char>, Seq<char>)> {
    seq![
        ("theme"@, "\"eye\""@),
        ("language"@, "\"zh-CN\""@),
        ("default_recovery_path"@, "\"\""@),
        ("auto_update"@, "true"@),
        ("show_hidden_files"@, "false"@),
    ]
}

/// The texts of a list of key–value pairs.
pub open spec fn pair_texts(v: Seq<(String, String)>) -> Seq<(Seq<char>, Seq<char>)> {
    v.map_values(|p: (String, String)| (p.0@, p.1@))
}

/// The settings that stand in when none was saved (see [`spec_default_settings`]).
pub fn default_settings() -> (r: Vec<(String, String)>)
    ensures
        pair_texts(r@) == spec_default_settings(),
{
    let mut v: Vec<(String, String)> = Vec::new();
    v.push(("theme".to_owned(), "\"eye\"".to_owned()));
    v.push(("language".to_owned(), "\"zh-CN\"".to_owned()));
    v.push(("default_recovery_path".to_owned(), "\"\"".to_owned()));
    v.push(("auto_update".to_owned(), "true".to_owned()));
    v.push(("show_hidden_files".to_owned(), "false".to_owned()));
    assert(pair_texts(v@) =~= spec_default_settings());
    v
}

} // verus!
