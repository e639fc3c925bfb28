//! Editing manifests: what changes in the text of a `Cargo.toml`, a
//! `Polylith.toml` or a profile file when the tool writes to it.
//!
//! Each edit is made by `toml_edit`, which keeps the rest of the document as it
//! was. Each edit is named by a function of the text, the key path and the new
//! value; its contract says what reading the edited text gives back, and that
//! the items elsewhere read as before.
use vstd::prelude::*;

use crate::corsett::string_views;
use crate::discover::opt_chars;
use crate::scaffold::{edit_view, edits_upto, DepEdit, DepEntry, EditView, Slot, SlotView};
use crate::strmap::StrMap;
use crate::manifest::{toml_value_parses, InheritanceEdit, InheritanceView, toml_array_items, toml_bool_at, toml_has, toml_parse_failure, toml_str_at, toml_table_keys};

verus! {

/// `p` lies at or below the key path `keys`.
pub open spec fn under(p: Seq<Seq<char>>, keys: Seq<Seq<char>>) -> bool {
    p.len() >= keys.len() && p.take(keys.len() as int) == keys
}

/// Reading `after` gives what reading `before` gave at every path that does not
/// lie at or below `keys`.
pub open spec fn same_elsewhere(before: Seq<char>, after: Seq<char>, keys: Seq<Seq<char>>) -> bool {
    &&& forall|p: Seq<Seq<char>>| !under(p, keys) ==> #[trigger] toml_str_at(after, p) == toml_str_at(before, p)
    &&& forall|p: Seq<Seq<char>>| !under(p, keys) ==> #[trigger] toml_bool_at(after, p) == toml_bool_at(before, p)
    &&& forall|p: Seq<Seq<char>>| !under(p, keys) ==> #[trigger] toml_array_items(after, p) == toml_array_items(before, p)
    &&& forall|p: Seq<Seq<char>>| !under(p, keys) && !under(keys, p) ==> #[trigger] toml_has(after, p) == toml_has(before, p)
}

/// The edit of `text` at `keys` can be made: the text parses and the table that
/// holds the last key is there (the document itself, for a single key).
pub open spec fn editable(text: Seq<char>, keys: Seq<Seq<char>>) -> bool {
    &&& keys.len() > 0
    &&& toml_parse_failure(text) is None
    &&& (keys.len() == 1 || toml_table_keys(text, keys.drop_last()) is Some)
}

/// What every successful edit at `keys` keeps: the result parses, the table
/// that holds the last key is still a table, and the rest reads as before.
pub open spec fn edit_keeps(before: Seq<char>, after: Seq<char>, keys: Seq<Seq<char>>) -> bool {
    &&& toml_parse_failure(after) is None
    &&& (toml_table_keys(before, keys.drop_last()) is Some ==> toml_table_keys(after, keys.drop_last()) is Some)
    &&& same_elsewhere(before, after, keys)
}

/// The text after setting the string at `keys` to `value`.
pub uninterp spec fn toml_with_str(text: Seq<char>, keys: Seq<Seq<char>>, value: Seq<char>) -> Option<Seq<char>>;

/// The text after setting the boolean at `keys` to `value`.
pub uninterp spec fn toml_with_bool(text: Seq<char>, keys: Seq<Seq<char>>, value: bool) -> Option<Seq<char>>;

/// The text after setting an empty table at `keys`.
pub uninterp spec fn toml_with_table(text: Seq<char>, keys: Seq<Seq<char>>) -> Option<Seq<char>>;

/// The text after setting an array of the strings `values` at `keys`.
pub uninterp spec fn toml_with_str_array(text: Seq<char>, keys: Seq<Seq<char>>, values: Seq<Seq<char>>) -> Option<Seq<char>>;

/// The text after setting `{ path = .., package = .. }` at `keys`.
pub uninterp spec fn toml_with_path_dep(
    text: Seq<char>,
    keys: Seq<Seq<char>>,
    path: Seq<char>,
    package: Option<Seq<char>>,
) -> Option<Seq<char>>;

/// The text after removing the key at `keys` from the table that holds it.
pub uninterp spec fn toml_without(text: Seq<char>, keys: Seq<Seq<char>>) -> Option<Seq<char>>;

/// The text after appending the string `value` to the array at `keys`.
pub uninterp spec fn toml_with_pushed(text: Seq<char>, keys: Seq<Seq<char>>, value: Seq<char>) -> Option<Seq<char>>;

/// Sets the string at `keys` (`DocumentMut` from the text, `Item::get_mut` along
/// the path, `toml_edit::value`, then the document printed). A key path that
/// runs into a value that is not a table gives back the key it stopped at.
#[verifier::external_body]
pub(crate) fn set_str(text: &str, keys: &Vec<String>, value: &str) -> (r: Result<String, String>)
    requires
        keys@.len() > 0,
    ensures
        toml_parse_failure(text@) is Some ==> r is Err,
        match r {
            Ok(t) => toml_with_str(text@, string_views(keys@), value@) == Some(t@) && edit_keeps(text@, t@, string_views(keys@))
                && toml_str_at(t@, string_views(keys@)) == Some(value@),
            Err(e) => toml_with_str(text@, string_views(keys@), value@) is None && (toml_parse_failure(text@) matches Some(m) ==> e@ == m),
        },
        editable(text@, string_views(keys@)) ==> r is Ok,
{
    let mut doc = text.parse::<toml_edit::DocumentMut>().map_err(|e| e.to_string())?;
    let mut item = doc.as_item_mut();
    for k in keys.iter() {
        item = item.get_mut(k.as_str()).ok_or_else(|| k.to_string())?;
    }
    *item = toml_edit::value(value);
    Ok(doc.to_string())
}

/// As [`set_str`], setting a boolean.
#[verifier::external_body]
pub(crate) fn set_bool(text: &str, keys: &Vec<String>, value: bool) -> (r: Result<String, String>)
    requires
        keys@.len() > 0,
    ensures
        toml_parse_failure(text@) is Some ==> r is Err,
        match r {
            Ok(t) => toml_with_bool(text@, string_views(keys@), value) == Some(t@) && edit_keeps(text@, t@, string_views(keys@))
                && toml_bool_at(t@, string_views(keys@)) == Some(value),
            Err(e) => toml_with_bool(text@, string_views(keys@), value) is None && (toml_parse_failure(text@) matches Some(m) ==> e@ == m),
        },
        editable(text@, string_views(keys@)) ==> r is Ok,
{
    let mut doc = text.parse::<toml_edit::DocumentMut>().map_err(|e| e.to_string())?;
    let mut item = doc.as_item_mut();
    for k in keys.iter() {
        item = item.get_mut(k.as_str()).ok_or_else(|| k.to_string())?;
    }
    *item = toml_edit::value(value);
    Ok(doc.to_string())
}

/// As [`set_str`], setting an empty table (`toml_edit::table`). The new table
/// reads back only where it is put into a table (the document, or a `[table]`):
/// put inside an inline table, or where the path is missing, it is not printed.
#[verifier::external_body]
pub(crate) fn set_table(text: &str, keys: &Vec<String>) -> (r: Result<String, String>)
    requires
        keys@.len() > 0,
    ensures
        toml_parse_failure(text@) is Some ==> r is Err,
        match r {
            Ok(t) => toml_with_table(text@, string_views(keys@)) == Some(t@) && edit_keeps(text@, t@, string_views(keys@))
                && (editable(text@, string_views(keys@)) ==> toml_table_keys(t@, string_views(keys@)) == Some(
                Seq::<Seq<char>>::empty(),
            ) && forall|k: Seq<char>| !#[trigger] toml_has(t@, string_views(keys@).push(k))),
            Err(e) => toml_with_table(text@, string_views(keys@)) is None && (toml_parse_failure(text@) matches Some(m) ==> e@ == m),
        },
        editable(text@, string_views(keys@)) ==> r is Ok,
{
    let mut doc = text.parse::<toml_edit::DocumentMut>().map_err(|e| e.to_string())?;
    let mut item = doc.as_item_mut();
    for k in keys.iter() {
        item = item.get_mut(k.as_str()).ok_or_else(|| k.to_string())?;
    }
    *item = toml_edit::table();
    Ok(doc.to_string())
}

/// As [`set_str`], setting an array of strings (`toml_edit::Array`).
#[verifier::external_body]
pub(crate) fn set_str_array(text: &str, keys: &Vec<String>, values: &Vec<String>) -> (r: Result<String, String>)
    requires
        keys@.len() > 0,
    ensures
        toml_parse_failure(text@) is Some ==> r is Err,
        match r {
            Ok(t) => toml_with_str_array(text@, string_views(keys@), string_views(values@)) == Some(t@) && edit_keeps(
                text@,
                t@,
                string_views(keys@),
            ) && toml_array_items(t@, string_views(keys@)) == Some(values@.map_values(|v: String| Some(v@))),
            Err(e) => toml_with_str_array(text@, string_views(keys@), string_views(values@)) is None && (toml_parse_failure(
                text@,
            ) matches Some(m) ==> e@ == m),
        },
        editable(text@, string_views(keys@)) ==> r is Ok,
{
    let mut doc = text.parse::<toml_edit::DocumentMut>().map_err(|e| e.to_string())?;
    let mut item = doc.as_item_mut();
    for k in keys.iter() {
        item = item.get_mut(k.as_str()).ok_or_else(|| k.to_string())?;
    }
    *item = toml_edit::value(values.iter().map(|v| v.as_str()).collect::<toml_edit::Array>());
    Ok(doc.to_string())
}

/// As [`set_str`], setting an inline table `{ path = "..", package = ".." }`
/// (`toml_edit::InlineTable`), `package` only when given.
#[verifier::external_body]
pub(crate) fn set_path_dep(text: &str, keys: &Vec<String>, path: &str, package: &Option<String>) -> (r: Result<String, String>)
    requires
        keys@.len() > 0,
    ensures
        toml_parse_failure(text@) is Some ==> r is Err,
        match r {
            Ok(t) => toml_with_path_dep(text@, string_views(keys@), path@, opt_chars(*package)) == Some(t@) && edit_keeps(
                text@,
                t@,
                string_views(keys@),
            ) && toml_str_at(t@, string_views(keys@).push("path"@)) == Some(path@) && toml_str_at(
                t@,
                string_views(keys@).push("package"@),
            ) == opt_chars(*package),
            Err(e) => toml_with_path_dep(text@, string_views(keys@), path@, opt_chars(*package)) is None && (
            toml_parse_failure(text@) matches Some(m) ==> e@ == m),
        },
        editable(text@, string_views(keys@)) ==> r is Ok,
{
    let mut doc = text.parse::<toml_edit::DocumentMut>().map_err(|e| e.to_string())?;
    let mut item = doc.as_item_mut();
    for k in keys.iter() {
        item = item.get_mut(k.as_str()).ok_or_else(|| k.to_string())?;
    }
    let mut tbl = toml_edit::InlineTable::new();
    tbl.insert("path", toml_edit::Value::from(path));
    if let Some(p) = package {
        tbl.insert("package", toml_edit::Value::from(p.as_str()));
    }
    *item = toml_edit::value(tbl);
    Ok(doc.to_string())
}

/// Removes the last key of `keys` from the table the rest of the path leads to
/// (`Item::get_mut` along the path, `Item::as_table_mut`, `Table::remove`); when
/// that item is not a table, nothing is removed. The root is a table, so a path
/// of at most two keys always leads somewhere. A table that only stood as the
/// parent of what was removed (`[a.b]` with no `[a]`) is no longer printed: the
/// table that held the key stays a table or is gone.
#[verifier::external_body]
pub(crate) fn remove_key(text: &str, keys: &Vec<String>) -> (r: Result<String, String>)
    requires
        keys@.len() > 0,
    ensures
        toml_parse_failure(text@) is Some ==> r is Err,
        match r {
            Ok(t) => toml_without(text@, string_views(keys@)) == Some(t@) && toml_parse_failure(t@) is None
                && same_elsewhere(text@, t@, string_views(keys@)) && (toml_table_keys(text@, string_views(keys@).drop_last()) is Some
                ==> !toml_has(t@, string_views(keys@)) && (toml_table_keys(t@, string_views(keys@).drop_last()) is Some
                || !toml_has(t@, string_views(keys@).drop_last()))),
            Err(e) => toml_without(text@, string_views(keys@)) is None && (toml_parse_failure(text@) matches Some(m) ==> e@ == m),
        },
        toml_parse_failure(text@) is None && keys@.len() <= 2 ==> r is Ok,
{
    let mut doc = text.parse::<toml_edit::DocumentMut>().map_err(|e| e.to_string())?;
    let mut item = doc.as_item_mut();
    for k in keys[..keys.len() - 1].iter() {
        item = item.get_mut(k.as_str()).ok_or_else(|| k.to_string())?;
    }
    if let Some(t) = item.as_table_mut() {
        t.remove(keys[keys.len() - 1].as_str());
    }
    Ok(doc.to_string())
}

/// Appends a string to the array at `keys` (`Item::get_mut` along the path,
/// `Item::as_array_mut`, `Array::push`); an item there that is not an array
/// gives back the last key.
#[verifier::external_body]
pub(crate) fn push_str(text: &str, keys: &Vec<String>, value: &str) -> (r: Result<String, String>)
    ensures
        toml_parse_failure(text@) is Some ==> r is Err,
        match r {
            Ok(t) => toml_with_pushed(text@, string_views(keys@), value@) == Some(t@) && edit_keeps(text@, t@, string_views(keys@))
                && (toml_array_items(text@, string_views(keys@)) matches Some(old) ==> toml_array_items(t@, string_views(keys@)) == Some(
                old.push(Some(value@)))),
            Err(e) => toml_with_pushed(text@, string_views(keys@), value@) is None && (toml_parse_failure(text@) matches Some(m) ==> e@ == m),
        },
        toml_parse_failure(text@) is None && toml_array_items(text@, string_views(keys@)) is Some ==> r is Ok,
{
    let mut doc = text.parse::<toml_edit::DocumentMut>().map_err(|e| e.to_string())?;
    let mut item = doc.as_item_mut();
    for k in keys.iter() {
        item = item.get_mut(k.as_str()).ok_or_else(|| k.to_string())?;
    }
    item.as_array_mut().ok_or_else(|| keys.join("."))?.push(value);
    Ok(doc.to_string())
}

/// The text after setting at `keys` the TOML value written `raw`.
pub uninterp spec fn toml_with_raw(text: Seq<char>, keys: Seq<Seq<char>>, raw: Seq<char>) -> Option<Seq<char>>;

/// The text after setting at `keys` an inline table of `version` (when given)
/// and the array of strings `features`.
pub uninterp spec fn toml_with_dep_table(
    text: Seq<char>,
    keys: Seq<Seq<char>>,
    version: Option<Seq<char>>,
    features: Seq<Seq<char>>,
) -> Option<Seq<char>>;

/// As [`set_str`], setting the value that `raw` parses to (`toml_edit::Value`'s
/// `FromStr`); `raw` that does not parse gives its parser's message.
#[verifier::external_body]
pub(crate) fn set_raw(text: &str, keys: &Vec<String>, raw: &str) -> (r: Result<String, String>)
    requires
        keys@.len() > 0,
    ensures
        toml_parse_failure(text@) is Some ==> r is Err,
        match r {
            Ok(t) => toml_with_raw(text@, string_views(keys@), raw@) == Some(t@) && edit_keeps(text@, t@, string_views(keys@)),
            Err(e) => toml_with_raw(text@, string_views(keys@), raw@) is None && (toml_parse_failure(text@) matches Some(m) ==> e@ == m),
        },
        editable(text@, string_views(keys@)) && toml_value_parses(raw@) ==> r is Ok,
{
    let mut doc = text.parse::<toml_edit::DocumentMut>().map_err(|e| e.to_string())?;
    let v = raw.parse::<toml_edit::Value>().map_err(|e| e.to_string())?;
    let mut item = doc.as_item_mut();
    for k in keys.iter() {
        item = item.get_mut(k.as_str()).ok_or_else(|| k.to_string())?;
    }
    *item = toml_edit::value(v);
    Ok(doc.to_string())
}

/// As [`set_str`], setting an inline table `{ version = "..", features = [..] }`
/// (`toml_edit::InlineTable`), `version` only when given.
#[verifier::external_body]
pub(crate) fn set_dep_table(text: &str, keys: &Vec<String>, version: &Option<String>, features: &Vec<String>) -> (r: Result<String, String>)
    requires
        keys@.len() > 0,
    ensures
        toml_parse_failure(text@) is Some ==> r is Err,
        match r {
            Ok(t) => toml_with_dep_table(text@, string_views(keys@), opt_chars(*version), string_views(features@)) == Some(t@)
                && edit_keeps(text@, t@, string_views(keys@)) && toml_str_at(t@, string_views(keys@).push("version"@)) == opt_chars(*version),
            Err(e) => toml_with_dep_table(text@, string_views(keys@), opt_chars(*version), string_views(features@)) is None && (
            toml_parse_failure(text@) matches Some(m) ==> e@ == m),
        },
        editable(text@, string_views(keys@)) ==> r is Ok,
{
    let mut doc = text.parse::<toml_edit::DocumentMut>().map_err(|e| e.to_string())?;
    let mut item = doc.as_item_mut();
    for k in keys.iter() {
        item = item.get_mut(k.as_str()).ok_or_else(|| k.to_string())?;
    }
    let mut tbl = toml_edit::InlineTable::new();
    if let Some(ver) = version {
        tbl.insert("version", toml_edit::Value::from(ver.as_str()));
    }
    tbl.insert("features", toml_edit::Value::Array(features.iter().map(|f| f.as_str()).collect()));
    *item = toml_edit::value(tbl);
    Ok(doc.to_string())
}

// ---------------------------------------------------------------------------
// Moving `[workspace.package]` metadata into the root `[package]`.

/// `t` has `[package] <field> = v` when `v` is given.
pub open spec fn field_set(t: Seq<char>, field: Seq<char>, v: Option<Seq<char>>) -> bool {
    v matches Some(x) ==> toml_str_at(t, seq!["package"@, field]) == Some(x)
}

/// `[package]` is a table of `t` and `t` parses.
pub open spec fn package_table(t: Seq<char>) -> bool {
    toml_parse_failure(t) is None && toml_table_keys(t, seq!["package"@]) is Some
}

/// Sets `[package] <field>` when `value` is given; leaves the text as it is when not.
fn set_package_field(text: String, field: &str, value: &Option<String>) -> (r: String)
    requires
        package_table(text@),
    ensures
        package_table(r@),
        field_set(r@, field@, opt_chars(*value)),
        same_elsewhere(text@, r@, seq!["package"@, field@]),
{
    match value {
        Some(v) => {
            let keys = crate::manifest::path2("package", field);
            proof {
                assert(string_views(keys@).drop_last() =~= seq!["package"@]);
            }
            match set_str(text.as_str(), &keys, v.as_str()) {
                Ok(t) => t,
                Err(_) => {
                    proof {
                        assert(false);
                    }
                    text
                },
            }
        },
        None => text,
    }
}

/// The outcome of moving `ws_pkg` into the root manifest `cargo` and dropping
/// `[workspace.package]` from `poly`: each given field is set in `[package]`
/// (authors as an array of strings), the table that held the metadata no longer
/// has it, and the summary reports what moved.
pub open spec fn migrated(
    poly: Seq<char>,
    cargo: Seq<char>,
    ws: (Option<Seq<char>>, Option<Seq<char>>, Option<Seq<Seq<char>>>, Option<Seq<char>>, Option<Seq<char>>),
    new_poly: Seq<char>,
    new_cargo: Seq<char>,
    summary: Seq<char>,
) -> bool {
    &&& toml_parse_failure(new_poly) is None
    &&& toml_parse_failure(new_cargo) is None
    &&& field_set(new_cargo, "version"@, ws.0)
    &&& field_set(new_cargo, "edition"@, ws.1)
    &&& (ws.2 matches Some(a) ==> toml_array_items(new_cargo, seq!["package"@, "authors"@]) == Some(
        a.map_values(|x: Seq<char>| Some(x)),
    ))
    &&& field_set(new_cargo, "license"@, ws.3)
    &&& field_set(new_cargo, "repository"@, ws.4)
    &&& (toml_table_keys(poly, seq!["workspace"@]) is Some ==> !toml_has(new_poly, seq!["workspace"@, "package"@]))
    &&& summary == crate::manifest::move_summary(ws)
}

/// The texts of `Polylith.toml` and of the root `Cargo.toml` after moving the
/// `[workspace.package]` metadata `ws_pkg` into the root `[package]`, with the
/// summary of what moved. Either text failing to parse gives the parser's
/// message (`Polylith.toml` first); a root manifest without a `[package]` table
/// is refused.
pub fn migrated_manifests(poly_text: &str, cargo_text: &str, ws_pkg: &crate::model::WorkspacePackageMeta) -> (r: Result<
    (String, String, String),
    String,
>)
    ensures
        match (toml_parse_failure(poly_text@), toml_parse_failure(cargo_text@)) {
            (Some(m), _) => r matches Err(e) && e@ == m,
            (None, Some(m)) => r matches Err(e) && e@ == m,
            (None, None) => if !toml_has(cargo_text@, seq!["package"@]) {
                r matches Err(e) && e@ == "root Cargo.toml has no [package] section"@
            } else if toml_table_keys(cargo_text@, seq!["package"@]) is None {
                r matches Err(e) && e@ == "[package] is not a table"@
            } else {
                r matches Ok((p, c, m)) && migrated(
                    poly_text@,
                    cargo_text@,
                    crate::discover::meta_view(*ws_pkg),
                    p@,
                    c@,
                    m@,
                )
            },
        },
{
    if let Some(m) = crate::manifest::parse_failure(poly_text) {
        return Err(m);
    }
    if let Some(m) = crate::manifest::parse_failure(cargo_text) {
        return Err(m);
    }
    let pkg = crate::manifest::path1("package");
    if !crate::manifest::has_item(cargo_text, &pkg) {
        return Err(crate::text::owned("root Cargo.toml has no [package] section"));
    }
    if crate::manifest::table_keys(cargo_text, &pkg).is_none() {
        return Err(crate::text::owned("[package] is not a table"));
    }
    proof {
        reveal_strlit("version");
        reveal_strlit("edition");
        reveal_strlit("authors");
        reveal_strlit("license");
        reveal_strlit("repository");
        reveal_strlit("package");
    }
    let ghost kv = seq!["package"@, "version"@];
    let ghost ke = seq!["package"@, "edition"@];
    let ghost ka = seq!["package"@, "authors"@];
    let ghost kl = seq!["package"@, "license"@];
    let ghost kr = seq!["package"@, "repository"@];
    let ghost c0 = cargo_text@;
    let c1 = set_package_field(crate::text::owned(cargo_text), "version", &ws_pkg.version);
    let c2 = set_package_field(c1, "edition", &ws_pkg.edition);
    proof {
        assert(!under(kv, ke)) by {
            assert(kv.take(2) =~= kv);
            assert(kv[1][0] != ke[1][0]);
        }
    }
    let c3 = match &ws_pkg.authors {
        Some(a) => {
            let keys = crate::manifest::path2("package", "authors");
            proof {
                assert(string_views(keys@).drop_last() =~= seq!["package"@]);
            }
            match set_str_array(c2.as_str(), &keys, a) {
                Ok(t) => {
                    proof {
                        assert(a@.map_values(|v: String| Some(v@)) =~= string_views(a@).map_values(|x: Seq<char>| Some(x)));
                    }
                    t
                },
                Err(_) => {
                    proof {
                        assert(false);
                    }
                    c2
                },
            }
        },
        None => c2,
    };
    proof {
        assert(!under(kv, ka)) by {
            assert(kv.take(2) =~= kv);
            assert(kv[1][0] != ka[1][0]);
        }
        assert(!under(ke, ka)) by {
            assert(ke.take(2) =~= ke);
            assert(ke[1][0] != ka[1][0]);
        }
    }
    let c4 = set_package_field(c3, "license", &ws_pkg.license);
    proof {
        assert(!under(kv, kl)) by {
            assert(kv.take(2) =~= kv);
            assert(kv[1][0] != kl[1][0]);
        }
        assert(!under(ke, kl)) by {
            assert(ke.take(2) =~= ke);
            assert(ke[1][0] != kl[1][0]);
        }
        assert(!under(ka, kl)) by {
            assert(ka.take(2) =~= ka);
            assert(ka[1][0] != kl[1][0]);
        }
    }
    let c5 = set_package_field(c4, "repository", &ws_pkg.repository);
    proof {
        assert(!under(kv, kr)) by {
            assert(kv.take(2) =~= kv);
            assert(kv[1][0] != kr[1][0]);
        }
        assert(!under(ke, kr)) by {
            assert(ke.take(2) =~= ke);
            assert(ke[1][0] != kr[1][0]);
        }
        assert(!under(ka, kr)) by {
            assert(ka.take(2) =~= ka);
            assert(ka[1][0] != kr[1][0]);
        }
        assert(!under(kl, kr)) by {
            assert(kl.take(2) =~= kl);
            assert(kl[1][0] != kr[1][0]);
        }
    }
    let wp = crate::manifest::path2("workspace", "package");
    proof {
        assert(string_views(wp@).len() == wp@.len());
    }
    let p1 = match remove_key(poly_text, &wp) {
        Ok(t) => t,
        Err(_) => {
            proof {
                assert(false);
            }
            return Err(crate::text::owned(poly_text));
        },
    };
    proof {
        assert(string_views(wp@).drop_last() =~= seq!["workspace"@]);
    }
    let summary = crate::manifest::package_move_summary(ws_pkg);
    Ok((p1, c5, summary))
}

// ---------------------------------------------------------------------------
// `[package.metadata.polylith]`.

/// The metadata tables can be made: `[package]` is a table, and
/// `[package.metadata]` and `[package.metadata.polylith]` are tables where they exist.
pub open spec fn polylith_tables_ok(t: Seq<char>) -> bool {
    &&& toml_parse_failure(t) is None
    &&& toml_table_keys(t, seq!["package"@]) is Some
    &&& (toml_has(t, seq!["package"@, "metadata"@]) ==> toml_table_keys(t, seq!["package"@, "metadata"@]) is Some)
    &&& (toml_has(t, seq!["package"@, "metadata"@, "polylith"@]) ==> toml_table_keys(
        t,
        seq!["package"@, "metadata"@, "polylith"@],
    ) is Some)
}

/// `text` with `[package.metadata]` and `[package.metadata.polylith]` made where
/// they are missing. A manifest without a `[package]` table, or whose metadata
/// entries are not tables, is refused.
fn with_polylith_table(text: &str) -> (r: Result<String, String>)
    ensures
        toml_parse_failure(text@) matches Some(m) ==> r matches Err(e) && e@ == m,
        polylith_tables_ok(text@) ==> r is Ok,
        !polylith_tables_ok(text@) ==> r is Err,
        r matches Ok(t) ==> toml_parse_failure(t@) is None && toml_table_keys(
            t@,
            seq!["package"@, "metadata"@, "polylith"@],
        ) is Some,
{
    if let Some(m) = crate::manifest::parse_failure(text) {
        return Err(m);
    }
    let pkg = crate::manifest::path1("package");
    let meta = crate::manifest::path2("package", "metadata");
    let poly = crate::manifest::path3("package", "metadata", "polylith");
    proof {
        assert(string_views(pkg@) =~= seq!["package"@]);
        assert(string_views(meta@) =~= seq!["package"@, "metadata"@]);
        assert(string_views(poly@) =~= seq!["package"@, "metadata"@, "polylith"@]);
        assert(string_views(meta@).drop_last() =~= seq!["package"@]);
        assert(string_views(poly@).drop_last() =~= seq!["package"@, "metadata"@]);
    }
    if crate::manifest::table_keys(text, &pkg).is_none() {
        return Err(crate::text::owned("[package] is not a table"));
    }
    if !crate::manifest::has_item(text, &meta) {
        let t = match set_table(text, &meta) {
            Ok(t) => t,
            Err(e) => {
                proof {
                    assert(false);
                }
                return Err(e);
            },
        };
        proof {
            assert(string_views(meta@) + seq!["polylith"@] =~= seq!["package"@, "metadata"@, "polylith"@]);
            assert(!toml_has(text@, string_views(meta@) + seq!["polylith"@]));
        }
        return set_table(t.as_str(), &poly);
    }
    if crate::manifest::table_keys(text, &meta).is_none() {
        return Err(crate::text::owned("[package.metadata] is not a table"));
    }
    if !crate::manifest::has_item(text, &poly) {
        set_table(text, &poly)
    } else {
        if crate::manifest::table_keys(text, &poly).is_none() {
            return Err(crate::text::owned("[package.metadata.polylith] is not a table"));
        }
        Ok(crate::text::owned(text))
    }
}

/// The manifest with `[package.metadata.polylith] interface` set to `interface`,
/// the metadata tables made where missing.
pub fn with_interface(text: &str, interface: &str) -> (r: Result<String, String>)
    ensures
        toml_parse_failure(text@) matches Some(m) ==> r matches Err(e) && e@ == m,
        polylith_tables_ok(text@) ==> r is Ok,
        r matches Ok(t) ==> toml_parse_failure(t@) is None && toml_str_at(
            t@,
            seq!["package"@, "metadata"@, "polylith"@, "interface"@],
        ) == Some(interface@),
{
    let t = with_polylith_table(text)?;
    let keys = crate::manifest::child(&crate::manifest::path3("package", "metadata", "polylith"), "interface");
    proof {
        assert(string_views(keys@).drop_last() =~= seq!["package"@, "metadata"@, "polylith"@]);
    }
    let r = set_str(t.as_str(), &keys, interface);
    proof {
        if r is Ok {
            assert(string_views(keys@) =~= seq!["package"@, "metadata"@, "polylith"@, "interface"@]);
        }
    }
    r
}

/// The manifest with `[package.metadata.polylith] test-base` set to `test_base`,
/// the metadata tables made where missing.
pub fn with_test_base(text: &str, test_base: bool) -> (r: Result<String, String>)
    ensures
        toml_parse_failure(text@) matches Some(m) ==> r matches Err(e) && e@ == m,
        polylith_tables_ok(text@) ==> r is Ok,
        r matches Ok(t) ==> toml_parse_failure(t@) is None && toml_bool_at(
            t@,
            seq!["package"@, "metadata"@, "polylith"@, "test-base"@],
        ) == Some(test_base),
{
    let t = with_polylith_table(text)?;
    let keys = crate::manifest::child(&crate::manifest::path3("package", "metadata", "polylith"), "test-base");
    proof {
        assert(string_views(keys@).drop_last() =~= seq!["package"@, "metadata"@, "polylith"@]);
    }
    let r = set_bool(t.as_str(), &keys, test_base);
    proof {
        if r is Ok {
            assert(string_views(keys@) =~= seq!["package"@, "metadata"@, "polylith"@, "test-base"@]);
        }
    }
    r
}

// ---------------------------------------------------------------------------
// Profiles and versions.

/// The profile text with `[implementations] <interface> = "<path>"`, the table
/// made when missing.
pub fn with_profile_impl(text: &str, interface: &str, path: &str) -> (r: Result<String, String>)
    ensures
        toml_parse_failure(text@) matches Some(m) ==> r matches Err(e) && e@ == m,
        toml_parse_failure(text@) is None && (toml_has(text@, seq!["implementations"@]) ==> toml_table_keys(
            text@,
            seq!["implementations"@],
        ) is Some) ==> r is Ok,
        r matches Ok(t) ==> toml_parse_failure(t@) is None && toml_str_at(t@, seq!["implementations"@, interface@]) == Some(
            path@,
        ),
{
    if let Some(m) = crate::manifest::parse_failure(text) {
        return Err(m);
    }
    let top = crate::manifest::path1("implementations");
    proof {
        assert(string_views(top@).drop_last() =~= Seq::<Seq<char>>::empty());
        assert(string_views(top@) =~= seq!["implementations"@]);
    }
    let t = if !crate::manifest::has_item(text, &top) {
        set_table(text, &top)?
    } else {
        crate::text::owned(text)
    };
    let keys = crate::manifest::child(&top, interface);
    proof {
        assert(string_views(keys@).drop_last() =~= seq!["implementations"@]);
        assert(string_views(keys@) =~= seq!["implementations"@, interface@]);
    }
    set_str(t.as_str(), &keys, path)
}

/// A new dev profile listing `(interface, path)` pairs under `[implementations]`,
/// built from an empty document; a key given twice keeps its last path.
pub fn dev_profile_text(impls: &Vec<(String, String)>) -> (r: Result<String, String>)
    ensures
        toml_parse_failure(""@) is None ==> r is Ok,
        r matches Ok(t) ==> {
            &&& toml_parse_failure(t@) is None
            &&& toml_table_keys(t@, seq!["implementations"@]) is Some
            &&& forall|i: int|
                0 <= i < impls@.len() && (forall|j: int| i < j < impls@.len() ==> impls@[j].0@ != impls@[i].0@) ==> toml_str_at(
                    t@,
                    seq!["implementations"@, #[trigger] impls@[i].0@],
                ) == Some(impls@[i].1@)
        },
{
    let empty = "";
    let top = crate::manifest::path1("implementations");
    proof {
        assert(string_views(top@).drop_last() =~= Seq::<Seq<char>>::empty());
        assert(string_views(top@) =~= seq!["implementations"@]);
    }
    if let Some(m) = crate::manifest::parse_failure(empty) {
        return Err(m);
    }
    let mut t = match set_table(empty, &top) {
        Ok(t) => t,
        Err(e) => {
            proof {
                assert(false);
            }
            return Err(e);
        },
    };
    let mut i: usize = 0;
    while i < impls.len()
        invariant
            i <= impls@.len(),
            string_views(top@) == seq!["implementations"@],
            toml_parse_failure(t@) is None,
            toml_table_keys(t@, seq!["implementations"@]) is Some,
            forall|a: int|
                0 <= a < i && (forall|j: int| a < j < i ==> impls@[j].0@ != impls@[a].0@) ==> toml_str_at(
                    t@,
                    seq!["implementations"@, #[trigger] impls@[a].0@],
                ) == Some(impls@[a].1@),
        decreases impls@.len() - i,
    {
        let keys = crate::manifest::child(&top, impls[i].0.as_str());
        let ghost kk = seq!["implementations"@, impls@[i as int].0@];
        proof {
            assert(string_views(keys@).drop_last() =~= seq!["implementations"@]);
            assert(string_views(keys@) =~= kk);
        }
        let ghost before = t@;
        t = match set_str(t.as_str(), &keys, impls[i].1.as_str()) {
            Ok(n) => n,
            Err(_) => {
                proof {
                    assert(false);
                }
                t
            },
        };
        proof {
            assert forall|a: int|
                0 <= a < i + 1 && (forall|j: int| a < j < i + 1 ==> impls@[j].0@ != impls@[a].0@) implies toml_str_at(
                t@,
                seq!["implementations"@, #[trigger] impls@[a].0@],
            ) == Some(impls@[a].1@) by {
                if a < i {
                    let p = seq!["implementations"@, impls@[a].0@];
                    assert(impls@[i as int].0@ != impls@[a].0@);
                    assert(p[1] != kk[1]);
                    assert(!under(p, kk)) by {
                        assert(p.take(2) =~= p);
                    }
                }
            }
        }
        i += 1;
    }
    Ok(t)
}

/// `Polylith.toml` with `[versioning] version` set to `version`.
pub fn with_polylith_version(text: &str, version: &str) -> (r: Result<String, String>)
    ensures
        toml_parse_failure(text@) matches Some(m) ==> r matches Err(e) && e@ == m,
        toml_parse_failure(text@) is None && toml_table_keys(text@, seq!["versioning"@]) is Some ==> r is Ok,
        r matches Ok(t) ==> toml_parse_failure(t@) is None && toml_str_at(t@, seq!["versioning"@, "version"@]) == Some(
            version@,
        ),
{
    let keys = crate::manifest::path2("versioning", "version");
    proof {
        assert(string_views(keys@).drop_last() =~= seq!["versioning"@]);
        assert(string_views(keys@) =~= seq!["versioning"@, "version"@]);
    }
    set_str(text, &keys, version)
}

/// The root manifest with `[workspace.package] version` set to `version`, or
/// `None` when it has no `[workspace.package]` (no table is made).
pub fn with_workspace_package_version(text: &str, version: &str) -> (r: Result<Option<String>, String>)
    ensures
        toml_parse_failure(text@) matches Some(m) ==> r matches Err(e) && e@ == m,
        toml_parse_failure(text@) is None && !toml_has(text@, seq!["workspace"@, "package"@]) ==> r matches Ok(None),
        toml_parse_failure(text@) is None && toml_table_keys(text@, seq!["workspace"@, "package"@]) is Some ==> r matches Ok(
            Some(_),
        ),
        r matches Ok(Some(t)) ==> toml_parse_failure(t@) is None && toml_str_at(
            t@,
            seq!["workspace"@, "package"@, "version"@],
        ) == Some(version@),
{
    if let Some(m) = crate::manifest::parse_failure(text) {
        return Err(m);
    }
    let wp = crate::manifest::path2("workspace", "package");
    proof {
        assert(string_views(wp@) =~= seq!["workspace"@, "package"@]);
    }
    if !crate::manifest::has_item(text, &wp) {
        return Ok(None);
    }
    let keys = crate::manifest::child(&wp, "version");
    proof {
        assert(string_views(keys@).drop_last() =~= seq!["workspace"@, "package"@]);
        assert(string_views(keys@) =~= seq!["workspace"@, "package"@, "version"@]);
    }
    let t = set_str(text, &keys, version)?;
    Ok(Some(t))
}

// ---------------------------------------------------------------------------
// A project's `[dependencies]`.

/// What `[dependencies] <key>` of `text` holds: a dependency with a `path`, or
/// one without.
pub open spec fn slot_at(text: Seq<char>, key: Seq<char>) -> SlotView {
    match toml_str_at(text, seq!["dependencies"@, key, "path"@]) {
        Some(p) => SlotView::Path(p),
        None => SlotView::Plain,
    }
}

/// The slots of the keys `ks`.
pub open spec fn slots_in(text: Seq<char>, ks: Seq<Seq<char>>) -> Map<Seq<char>, SlotView>
    decreases ks.len(),
{
    if ks.len() == 0 {
        Map::empty()
    } else {
        slots_in(text, ks.drop_last()).insert(ks.last(), slot_at(text, ks.last()))
    }
}

/// The `[dependencies]` of a manifest as slots; none when it has no such table.
pub open spec fn dep_slots(text: Seq<char>) -> Map<Seq<char>, SlotView> {
    match toml_table_keys(text, seq!["dependencies"@]) {
        Some(ks) => slots_in(text, ks),
        None => Map::empty(),
    }
}

/// The key an edit is about.
pub open spec fn edit_key(e: EditView) -> Seq<char> {
    match e {
        EditView::Add(k, _, _) => k,
        EditView::Remove(k) => k,
    }
}

/// No edit after the `i`th is about the same key.
pub open spec fn last_for_key(es: Seq<EditView>, i: int) -> bool {
    forall|j: int| i < j < es.len() ==> edit_key(#[trigger] es[j]) != edit_key(es[i])
}

/// `t` shows the edit `e`: an added dependency reads back with its path and
/// package, a removed one is gone.
pub open spec fn edit_done(t: Seq<char>, e: EditView) -> bool {
    match e {
        EditView::Add(k, p, pkg) => toml_str_at(t, seq!["dependencies"@, k, "path"@]) == Some(p) && toml_str_at(
            t,
            seq!["dependencies"@, k, "package"@],
        ) == pkg,
        EditView::Remove(k) => !toml_has(t, seq!["dependencies"@, k]),
    }
}

/// `t` shows every edit of `es` that no later edit of the same key overrides.
pub open spec fn edits_done(t: Seq<char>, es: Seq<EditView>) -> bool {
    forall|i: int| 0 <= i < es.len() && last_for_key(es, i) ==> edit_done(t, #[trigger] es[i])
}

/// The slots of a manifest's `[dependencies]`, read from its text.
fn read_dep_slots(text: &str) -> (r: StrMap<Slot>)
    ensures
        crate::scaffold::slots_view(r@) == dep_slots(text@),
{
    let mut out: StrMap<Slot> = StrMap::new();
    let deps = crate::manifest::path1("dependencies");
    proof {
        assert(string_views(deps@) =~= seq!["dependencies"@]);
        assert(crate::scaffold::slots_view(out@) =~= Map::<Seq<char>, SlotView>::empty());
    }
    let keys = match crate::manifest::table_keys(text, &deps) {
        Some(ks) => ks,
        None => return out,
    };
    let ghost ks = string_views(keys@);
    let mut i: usize = 0;
    proof {
        assert(ks.take(0) =~= Seq::<Seq<char>>::empty());
    }
    while i < keys.len()
        invariant
            i <= keys@.len(),
            ks == string_views(keys@),
            string_views(deps@) == seq!["dependencies"@],
            crate::scaffold::slots_view(out@) == slots_in(text@, ks.take(i as int)),
        decreases keys@.len() - i,
    {
        let k = &keys[i];
        let at = crate::manifest::child(&crate::manifest::child(&deps, k.as_str()), "path");
        proof {
            assert(string_views(at@) =~= seq!["dependencies"@, k@, "path"@]);
            assert(ks.take(i + 1).drop_last() =~= ks.take(i as int));
            assert(ks.take(i + 1).last() == k@);
        }
        let slot = match crate::manifest::str_at(text, &at) {
            Some(p) => Slot::Path(p),
            None => Slot::Plain,
        };
        let ghost sv = crate::scaffold::slot_view(slot);
        out.insert(k.clone(), slot);
        proof {
            assert(sv == slot_at(text@, k@));
            assert(crate::scaffold::slots_view(out@) =~= slots_in(text@, ks.take(i + 1)));
        }
        i += 1;
    }
    proof {
        assert(ks.take(keys@.len() as int) =~= ks);
    }
    out
}

/// A project manifest with its `[dependencies]` brought in line with the editor's
/// rows: the table made when missing, then the edits of
/// [`crate::scaffold::project_dep_edits`] made on it in order.
pub fn updated_project_manifest(text: &str, entries: &Vec<DepEntry>, dirs: &Vec<String>) -> (r: Result<String, String>)
    requires
        dirs@.len() == entries@.len(),
    ensures
        toml_parse_failure(text@) matches Some(m) ==> r matches Err(e) && e@ == m,
        toml_parse_failure(text@) is None && (toml_has(text@, seq!["dependencies"@]) ==> toml_table_keys(
            text@,
            seq!["dependencies"@],
        ) is Some) ==> r is Ok,
        r matches Ok(t) ==> toml_parse_failure(t@) is None && edits_done(
            t@,
            edits_upto(dep_slots(text@), entries@, dirs@, entries@.len() as int),
        ),
{
    if let Some(m) = crate::manifest::parse_failure(text) {
        return Err(m);
    }
    let deps = crate::manifest::path1("dependencies");
    proof {
        assert(string_views(deps@) =~= seq!["dependencies"@]);
        assert(string_views(deps@).drop_last() =~= Seq::<Seq<char>>::empty());
    }
    let t0 = if !crate::manifest::has_item(text, &deps) {
        set_table(text, &deps)?
    } else {
        if crate::manifest::table_keys(text, &deps).is_none() {
            return Err(crate::text::owned("[dependencies] is not a table"));
        }
        crate::text::owned(text)
    };
    proof {
        if !toml_has(text@, seq!["dependencies"@]) {
            assert(slots_in(t0@, Seq::<Seq<char>>::empty()) =~= Map::<Seq<char>, SlotView>::empty());
        }
    }
    let slots = read_dep_slots(t0.as_str());
    proof {
        assert(dep_slots(t0@) == dep_slots(text@));
    }
    let edits = crate::scaffold::project_dep_edits(&slots, entries, dirs);
    let ghost es = edits@.map_values(|e: DepEdit| edit_view(e));
    let mut t = t0;
    let mut i: usize = 0;
    while i < edits.len()
        invariant
            i <= edits@.len(),
            es == edits@.map_values(|e: DepEdit| edit_view(e)),
            string_views(deps@) == seq!["dependencies"@],
            toml_parse_failure(t@) is None,
            toml_table_keys(t@, seq!["dependencies"@]) is Some,
            forall|a: int| 0 <= a < i && last_for_key(es.take(i as int), a) ==> edit_done(t@, #[trigger] es[a]),
        decreases edits@.len() - i,
    {
        let ghost before = t@;
        let ghost mut vanished = false;
        let ghost mut t1v = t@;
        let ghost ei = es[i as int];
        let ghost kk = seq!["dependencies"@, edit_key(ei)];
        match &edits[i] {
            DepEdit::Add { key, path, package } => {
                let keys = crate::manifest::child(&deps, key.as_str());
                proof {
                    assert(string_views(keys@) =~= kk);
                    assert(string_views(keys@).drop_last() =~= seq!["dependencies"@]);
                    assert(kk.push("path"@) =~= seq!["dependencies"@, key@, "path"@]);
                    assert(kk.push("package"@) =~= seq!["dependencies"@, key@, "package"@]);
                }
                t = match set_path_dep(t.as_str(), &keys, path.as_str(), package) {
                    Ok(n) => n,
                    Err(e) => {
                        proof {
                            assert(false);
                        }
                        return Err(e);
                    },
                };
            },
            DepEdit::Remove { key } => {
                let keys = crate::manifest::child(&deps, key.as_str());
                proof {
                    assert(string_views(keys@) =~= kk);
                    assert(string_views(keys@).drop_last() =~= seq!["dependencies"@]);
                }
                let ghost tb = t@;
                let t1 = match remove_key(t.as_str(), &keys) {
                    Ok(n) => n,
                    Err(e) => {
                        proof {
                            assert(false);
                        }
                        return Err(e);
                    },
                };
                if crate::manifest::has_item(t1.as_str(), &deps) {
                    t = t1;
                } else {
                    proof {
                        vanished = true;
                        t1v = t1@;
                    }
                    t = match set_table(t1.as_str(), &deps) {
                        Ok(n) => n,
                        Err(e) => {
                            proof {
                                assert(false);
                            }
                            return Err(e);
                        },
                    };
                }
            },
        }
        proof {
            if vanished {
                assert(string_views(deps@).push(edit_key(ei)) =~= kk);
            }
            assert(edit_done(t@, ei));
            assert forall|a: int| 0 <= a < i + 1 && last_for_key(es.take(i + 1), a) implies edit_done(
                t@,
                #[trigger] es[a],
            ) by {
                if a < i && vanished {
                    assert(es.take(i + 1)[i as int] == ei);
                    assert(edit_key(ei) != edit_key(es[a]));
                    assert forall|j: int| a < j < es.take(i as int).len() implies edit_key(
                        #[trigger] es.take(i as int)[j],
                    ) != edit_key(es.take(i as int)[a]) by {
                        assert(es.take(i as int)[j] == es.take(i + 1)[j]);
                    }
                    assert(edit_done(before, es[a]));
                    let ka = edit_key(es[a]);
                    let pa = seq!["dependencies"@, ka, "path"@];
                    let ph = seq!["dependencies"@, ka];
                    assert(pa.take(2) =~= ph);
                    assert(kk.take(2) =~= kk);
                    assert(ph[1] != kk[1]);
                    assert(!under(pa, kk));
                    if es[a] is Add {
                        assert(toml_str_at(t1v, pa) == toml_str_at(before, pa));
                        assert(string_views(deps@) + seq![ka, "path"@] =~= pa);
                        assert(toml_str_at(t1v, string_views(deps@) + seq![ka, "path"@]) is None);
                    } else {
                        assert(string_views(deps@).push(ka) =~= ph);
                    }
                } else if a < i {
                    assert(es.take(i + 1)[i as int] == ei);
                    assert(edit_key(ei) != edit_key(es[a]));
                    assert forall|j: int| a < j < es.take(i as int).len() implies edit_key(
                        #[trigger] es.take(i as int)[j],
                    ) != edit_key(es.take(i as int)[a]) by {
                        assert(es.take(i as int)[j] == es.take(i + 1)[j]);
                    }
                    assert(edit_done(before, es[a]));
                    let ka = edit_key(es[a]);
                    let pa = seq!["dependencies"@, ka, "path"@];
                    let pk = seq!["dependencies"@, ka, "package"@];
                    let ph = seq!["dependencies"@, ka];
                    assert(pa.take(2) =~= ph);
                    assert(pk.take(2) =~= ph);
                    assert(ph.take(2) =~= ph);
                    assert(kk.take(2) =~= kk);
                    assert(ph[1] != kk[1]);
                    assert(!under(pa, kk));
                    assert(!under(pk, kk));
                    assert(!under(ph, kk));
                    assert(!under(kk, ph));
                }
            }
        }
        i += 1;
    }
    proof {
        assert(es.take(edits@.len() as int) =~= es);
    }
    Ok(t)
}

// ---------------------------------------------------------------------------
// Root workspace members.

/// `member` is among the string elements of `items`.
pub open spec fn lists(items: Seq<Option<Seq<char>>>, member: Seq<char>) -> bool {
    exists|i: int| 0 <= i < items.len() && items[i] == Some(member)
}

/// The root manifest with `member` appended to `[workspace] members`.
///
/// `Ok(None)` when nothing is to be written: a pure Polylith workspace
/// (`polylith_toml` exists) whose root manifest has no `[workspace]`. A missing
/// `[workspace]` is made otherwise; a `members` that is missing or not an array is
/// refused, as is a `workspace` that is not a table. A member already listed is
/// not added again.
pub fn with_workspace_member(text: &str, member: &str, polylith_toml: bool) -> (r: Result<Option<String>, String>)
    ensures
        toml_parse_failure(text@) matches Some(m) ==> r matches Err(e) && e@ == m,
        toml_parse_failure(text@) is None && polylith_toml && !toml_has(text@, seq!["workspace"@]) ==> r matches Ok(None),
        toml_parse_failure(text@) is None && toml_table_keys(text@, seq!["workspace"@]) is Some && toml_array_items(
            text@,
            seq!["workspace"@, "members"@],
        ) is Some ==> r matches Ok(Some(_)),
        toml_parse_failure(text@) is None && toml_has(text@, seq!["workspace"@]) && toml_array_items(
            text@,
            seq!["workspace"@, "members"@],
        ) is None ==> r is Err,
        r matches Ok(Some(t)) ==> {
            &&& toml_parse_failure(t@) is None
            &&& toml_array_items(t@, seq!["workspace"@, "members"@]) matches Some(items) && lists(items, member@)
            &&& (toml_array_items(text@, seq!["workspace"@, "members"@]) matches Some(old) ==> toml_array_items(
                t@,
                seq!["workspace"@, "members"@],
            ) == Some(if lists(
                old,
                member@,
            ) {
                old
            } else {
                old.push(Some(member@))
            }))
        },
{
    if let Some(m) = crate::manifest::parse_failure(text) {
        return Err(m);
    }
    let ws = crate::manifest::path1("workspace");
    let mk = crate::manifest::path2("workspace", "members");
    proof {
        assert(string_views(ws@) =~= seq!["workspace"@]);
        assert(string_views(mk@) =~= seq!["workspace"@, "members"@]);
        assert(string_views(ws@).drop_last() =~= Seq::<Seq<char>>::empty());
    }
    let has_ws = crate::manifest::has_item(text, &ws);
    if polylith_toml && !has_ws {
        return Ok(None);
    }
    if !has_ws {
        return Err(crate::text::owned("'workspace.members' is not an array"));
    }
    if crate::manifest::table_keys(text, &ws).is_none() {
        return Err(crate::text::owned("'workspace' is not a table"));
    }
    let items = match crate::manifest::array_items(text, &mk) {
        Some(items) => items,
        None => return Err(crate::text::owned("'workspace.members' is not an array")),
    };
    let ghost iv = items@.map_values(|x: Option<String>| opt_chars(x));
    let mut found = false;
    let mut i: usize = 0;
    while i < items.len()
        invariant
            i <= items@.len(),
            iv == items@.map_values(|x: Option<String>| opt_chars(x)),
            found == exists|j: int| 0 <= j < i && iv[j] == Some(member@),
        decreases items@.len() - i,
    {
        proof {
            assert(iv[i as int] == opt_chars(items@[i as int]));
        }
        if let Some(x) = &items[i] {
            if crate::text::str_eq(x.as_str(), member) {
                found = true;
            }
        }
        i += 1;
    }
    if found {
        let t = crate::text::owned(text);
        return Ok(Some(t));
    }
    let t = push_str(text, &mk, member)?;
    proof {
        let n = iv.push(Some(member@));
        assert(n[iv.len() as int] == Some(member@));
        assert(lists(n, member@));
    }
    Ok(Some(t))
}

// ---------------------------------------------------------------------------
// Dropping workspace inheritance.

/// The text after one inheritance edit: the named `toml_edit` change it makes,
/// nothing for a warning or for a raw value that does not parse.
pub open spec fn after_inheritance_edit(t: Seq<char>, e: InheritanceView) -> Option<Seq<char>> {
    match e {
        InheritanceView::PackageField(f, v) => toml_with_str(t, seq!["package"@, f], v),
        InheritanceView::Authors(a) => toml_with_str_array(t, seq!["package"@, "authors"@], a),
        InheritanceView::DepVersion(tb, k, v) => toml_with_str(t, seq![tb, k], v),
        InheritanceView::DepRaw(tb, k, raw) => if toml_value_parses(raw) {
            toml_with_raw(t, seq![tb, k], raw)
        } else {
            Some(t)
        },
        InheritanceView::DepTable(tb, k, v, fs) => toml_with_dep_table(t, seq![tb, k], v, fs),
        InheritanceView::Warning(_) => Some(t),
    }
}

/// The text after the edits `es` in order; `None` once one cannot be made.
pub open spec fn after_inheritance_edits(t: Seq<char>, es: Seq<InheritanceView>) -> Option<Seq<char>>
    decreases es.len(),
{
    if es.len() == 0 {
        Some(t)
    } else {
        match after_inheritance_edits(t, es.drop_last()) {
            Some(u) => after_inheritance_edit(u, es.last()),
            None => None,
        }
    }
}

/// The edit changes the manifest.
pub open spec fn changes(e: InheritanceView) -> bool {
    match e {
        InheritanceView::Warning(_) => false,
        InheritanceView::DepRaw(_, _, raw) => toml_value_parses(raw),
        _ => true,
    }
}

/// The messages of the warnings among `es`, in order.
pub open spec fn warnings_of(es: Seq<InheritanceView>) -> Seq<Seq<char>>
    decreases es.len(),
{
    if es.len() == 0 {
        Seq::empty()
    } else {
        warnings_of(es.drop_last()) + match es.last() {
            InheritanceView::Warning(m) => seq![m],
            _ => Seq::<Seq<char>>::empty(),
        }
    }
}

/// Makes the edits `edits` on the manifest `text` in order. Gives the new text,
/// whether any edit changed it, and the warnings met; an edit that cannot be made
/// gives its message.
pub fn apply_inheritance_edits(text: &str, edits: &Vec<InheritanceEdit>) -> (r: Result<(String, bool, Vec<String>), String>)
    ensures
        match r {
            Ok((t, changed, warnings)) => after_inheritance_edits(text@, crate::manifest::inheritance_views(edits@)) == Some(t@)
                && changed == (exists|i: int| 0 <= i < edits@.len() && changes(#[trigger] crate::manifest::inheritance_views(edits@)[i]))
                && string_views(warnings@) == warnings_of(crate::manifest::inheritance_views(edits@)),
            Err(_) => after_inheritance_edits(text@, crate::manifest::inheritance_views(edits@)) is None,
        },
{
    let ghost es = crate::manifest::inheritance_views(edits@);
    let mut t = crate::text::owned(text);
    let mut changed = false;
    let mut warnings: Vec<String> = Vec::new();
    let mut i: usize = 0;
    proof {
        assert(es.take(0) =~= Seq::<InheritanceView>::empty());
        assert(string_views(warnings@) =~= Seq::<Seq<char>>::empty());
    }
    while i < edits.len()
        invariant
            i <= edits@.len(),
            es == crate::manifest::inheritance_views(edits@),
            after_inheritance_edits(text@, es.take(i as int)) == Some(t@),
            changed == (exists|j: int| 0 <= j < i && changes(#[trigger] es[j])),
            string_views(warnings@) == warnings_of(es.take(i as int)),
        decreases edits@.len() - i,
    {
        let ghost before = t@;
        proof {
            assert(es.take(i + 1).drop_last() =~= es.take(i as int));
            assert(es.take(i + 1).last() == es[i as int]);
        }
        let step: Result<String, String> = match &edits[i] {
            InheritanceEdit::PackageField { field, value } => {
                let keys = crate::manifest::path2("package", field.as_str());
                proof {
                    assert(string_views(keys@).len() == keys@.len());
                }
                set_str(t.as_str(), &keys, value.as_str())
            },
            InheritanceEdit::Authors { authors } => {
                let keys = crate::manifest::path2("package", "authors");
                proof {
                    assert(string_views(keys@).len() == keys@.len());
                }
                set_str_array(t.as_str(), &keys, authors)
            },
            InheritanceEdit::DepVersion { table, key, version } => {
                let keys = crate::manifest::path2(table.as_str(), key.as_str());
                proof {
                    assert(string_views(keys@).len() == keys@.len());
                }
                set_str(t.as_str(), &keys, version.as_str())
            },
            InheritanceEdit::DepRaw { table, key, raw } => {
                if crate::manifest::value_parses(raw.as_str()) {
                    let keys = crate::manifest::path2(table.as_str(), key.as_str());
                    proof {
                        assert(string_views(keys@).len() == keys@.len());
                    }
                    set_raw(t.as_str(), &keys, raw.as_str())
                } else {
                    Ok(crate::text::owned(t.as_str()))
                }
            },
            InheritanceEdit::DepTable { table, key, version, features } => {
                let keys = crate::manifest::path2(table.as_str(), key.as_str());
                proof {
                    assert(string_views(keys@).len() == keys@.len());
                }
                set_dep_table(t.as_str(), &keys, version, features)
            },
            InheritanceEdit::Warning { message } => {
                let ghost wb = string_views(warnings@);
                warnings.push(message.clone());
                proof {
                    assert(string_views(warnings@) =~= wb.push(message@));
                }
                Ok(crate::text::owned(t.as_str()))
            },
        };
        proof {
            assert(string_views(warnings@) =~= warnings_of(es.take(i + 1)));
        }
        match step {
            Ok(n) => {
                proof {
                    assert(after_inheritance_edit(before, es[i as int]) == Some(n@));
                }
                t = n;
            },
            Err(e) => {
                proof {
                    assert(after_inheritance_edit(before, es[i as int]) is None);
                    lemma_after_edits_stays_none(text@, es, i as int + 1);
                    assert(es.take(edits@.len() as int) =~= es);
                }
                return Err(e);
            },
        }
        if changes_exec(&edits[i]) {
            changed = true;
        }
        i += 1;
    }
    proof {
        assert(es.take(edits@.len() as int) =~= es);
    }
    Ok((t, changed, warnings))
}

/// Whether the edit changes the manifest (see [`changes`]).
fn changes_exec(e: &InheritanceEdit) -> (b: bool)
    ensures
        b == changes(crate::manifest::inheritance_view(*e)),
{
    match e {
        InheritanceEdit::Warning { .. } => false,
        InheritanceEdit::DepRaw { raw, .. } => crate::manifest::value_parses(raw.as_str()),
        _ => true,
    }
}

/// Once an edit cannot be made, the edits after it change nothing of that.
proof fn lemma_after_edits_stays_none(t: Seq<char>, es: Seq<InheritanceView>, k: int)
    requires
        0 <= k <= es.len(),
        after_inheritance_edits(t, es.take(k)) is None,
    ensures
        after_inheritance_edits(t, es) is None,
    decreases es.len() - k,
{
    if k < es.len() {
        assert(es.take(k + 1).drop_last() =~= es.take(k));
        assert(after_inheritance_edits(t, es.take(k + 1)) is None);
        lemma_after_edits_stays_none(t, es, k + 1);
    } else {
        assert(es.take(k) =~= es);
    }
}

} // verus!
