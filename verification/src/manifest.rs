//! Reading manifests: what the workspace model takes from the text of a brick's
//! or project's `Cargo.toml`, of `Polylith.toml` and of a profile file.
//!
//! The TOML itself is read by `toml_edit`. Each reading below is named by a
//! function of the text and a key path; the logic around the readings (which
//! keys, which defaults, which entries to keep) is verified against those names.
use vstd::prelude::*;

use std::path::PathBuf;

use crate::check::{sorted_key_list, sorted_keys};
use crate::corsett::string_views;
use crate::discover::{meta_view, opt_chars, parse_versioning_policy};
use crate::errors::WorkspaceError;
use crate::graph::contains_str;
use crate::model::{
    Brick, BrickKind, ExternalDepInfo, PolylithToml, Profile, Project, RootDemotionPlan, VersioningPolicy,
    WorkspaceMap, WorkspacePackageMeta, WorkspacePathDep, index_by_interface, index_by_name,
};
use crate::strmap::StrMap;
use crate::order::{name_order, names_of, sort_by_name, Named};
use crate::text::{owned, str_eq, string_of, chars_of, trim, trim_spec};

verus! {

// ---------------------------------------------------------------------------
// What `toml_edit` reads.

/// `None` when `text` parses as a TOML document, else the parser's message.
pub uninterp spec fn toml_parse_failure(text: Seq<char>) -> Option<Seq<char>>;

/// The string at the key path `keys` of the document `text` parses to.
pub uninterp spec fn toml_str_at(text: Seq<char>, keys: Seq<Seq<char>>) -> Option<Seq<char>>;

/// The boolean at the key path `keys`.
pub uninterp spec fn toml_bool_at(text: Seq<char>, keys: Seq<Seq<char>>) -> Option<bool>;

/// The integer at the key path `keys`.
pub uninterp spec fn toml_int_at(text: Seq<char>, keys: Seq<Seq<char>>) -> Option<i64>;

/// The keys of the table (a `[table]`, not an inline table) at `keys`, in document order.
pub uninterp spec fn toml_table_keys(text: Seq<char>, keys: Seq<Seq<char>>) -> Option<Seq<Seq<char>>>;

/// The elements, in order, of the array at `keys`: each its string, or `None`
/// for an element that is not a string.
pub uninterp spec fn toml_array_items(text: Seq<char>, keys: Seq<Seq<char>>) -> Option<Seq<Option<Seq<char>>>>;

/// The strings among `items`, in order.
pub open spec fn strings_among(items: Seq<Option<Seq<char>>>) -> Seq<Seq<char>>
    decreases items.len(),
{
    if items.len() == 0 {
        Seq::empty()
    } else {
        strings_among(items.drop_last()) + match items.last() {
            Some(x) => seq![x],
            None => Seq::<Seq<char>>::empty(),
        }
    }
}

/// The string elements, in order, of the array at `keys`.
pub open spec fn toml_str_array(text: Seq<char>, keys: Seq<Seq<char>>) -> Option<Seq<Seq<char>>> {
    match toml_array_items(text, keys) {
        Some(items) => Some(strings_among(items)),
        None => None,
    }
}

/// The TOML text of the item at `keys`, as the item prints itself.
pub uninterp spec fn toml_item_text(text: Seq<char>, keys: Seq<Seq<char>>) -> Option<Seq<char>>;

/// Whether an item stands at `keys`.
pub uninterp spec fn toml_has(text: Seq<char>, keys: Seq<Seq<char>>) -> bool;

/// The boolean under `key` of the inline table at `keys`.
pub uninterp spec fn toml_inline_bool(text: Seq<char>, keys: Seq<Seq<char>>, key: Seq<char>) -> Option<bool>;

/// The string `name` of the first `[[bin]]` table.
pub uninterp spec fn toml_first_bin_name(text: Seq<char>) -> Option<Seq<char>>;

/// Parses `text` with `toml_edit::DocumentMut`'s `FromStr`; gives the error's
/// text when that fails. The contract names the outcome.
#[verifier::external_body]
pub(crate) fn parse_failure(text: &str) -> (r: Option<String>)
    ensures
        opt_chars(r) == toml_parse_failure(text@),
{
    text.parse::<toml_edit::DocumentMut>().err().map(|e| e.to_string())
}

/// Follows `keys` from the root of the parsed document with `toml_edit::Item::get`
/// (which looks into tables and inline tables) and reads a string with `Item::as_str`.
#[verifier::external_body]
pub(crate) fn str_at(text: &str, keys: &Vec<String>) -> (r: Option<String>)
    ensures
        opt_chars(r) == toml_str_at(text@, string_views(keys@)),
{
    let doc = text.parse::<toml_edit::DocumentMut>().ok()?;
    let mut item = doc.as_item();
    for k in keys.iter() {
        item = item.get(k.as_str())?;
    }
    item.as_str().map(|s| s.to_string())
}

/// As [`str_at`], reading a boolean with `Item::as_bool`.
#[verifier::external_body]
pub(crate) fn bool_at(text: &str, keys: &Vec<String>) -> (r: Option<bool>)
    ensures
        r == toml_bool_at(text@, string_views(keys@)),
{
    let doc = text.parse::<toml_edit::DocumentMut>().ok()?;
    let mut item = doc.as_item();
    for k in keys.iter() {
        item = item.get(k.as_str())?;
    }
    item.as_bool()
}

/// As [`str_at`], reading an integer with `Item::as_integer`.
#[verifier::external_body]
fn int_at(text: &str, keys: &Vec<String>) -> (r: Option<i64>)
    ensures
        r == toml_int_at(text@, string_views(keys@)),
{
    let doc = text.parse::<toml_edit::DocumentMut>().ok()?;
    let mut item = doc.as_item();
    for k in keys.iter() {
        item = item.get(k.as_str())?;
    }
    item.as_integer()
}

/// As [`str_at`], listing the keys of a table (`Item::as_table`, `Table::iter`).
#[verifier::external_body]
pub(crate) fn table_keys(text: &str, keys: &Vec<String>) -> (r: Option<Vec<String>>)
    ensures
        match r {
            Some(ks) => toml_table_keys(text@, string_views(keys@)) == Some(string_views(ks@)),
            None => toml_table_keys(text@, string_views(keys@)) is None,
        },
{
    let doc = text.parse::<toml_edit::DocumentMut>().ok()?;
    let mut item = doc.as_item();
    for k in keys.iter() {
        item = item.get(k.as_str())?;
    }
    item.as_table().map(|t| t.iter().map(|(k, _)| k.to_string()).collect())
}

/// As [`str_at`], reading each element of an array (`Item::as_array`,
/// `Value::as_str`).
#[verifier::external_body]
pub(crate) fn array_items(text: &str, keys: &Vec<String>) -> (r: Option<Vec<Option<String>>>)
    ensures
        match r {
            Some(xs) => toml_array_items(text@, string_views(keys@)) == Some(xs@.map_values(|x: Option<String>| opt_chars(x))),
            None => toml_array_items(text@, string_views(keys@)) is None,
        },
{
    let doc = text.parse::<toml_edit::DocumentMut>().ok()?;
    let mut item = doc.as_item();
    for k in keys.iter() {
        item = item.get(k.as_str())?;
    }
    item.as_array().map(|a| a.iter().map(|v| v.as_str().map(|s| s.to_string())).collect())
}

/// The string elements of the array at `keys`, in order.
pub(crate) fn str_array(text: &str, keys: &Vec<String>) -> (r: Option<Vec<String>>)
    ensures
        match r {
            Some(xs) => toml_str_array(text@, string_views(keys@)) == Some(string_views(xs@)),
            None => toml_str_array(text@, string_views(keys@)) is None,
        },
{
    let items = array_items(text, keys)?;
    let ghost iv = items@.map_values(|x: Option<String>| opt_chars(x));
    let mut out: Vec<String> = Vec::new();
    let mut i: usize = 0;
    while i < items.len()
        invariant
            i <= items@.len(),
            iv == items@.map_values(|x: Option<String>| opt_chars(x)),
            string_views(out@) == strings_among(iv.take(i as int)),
        decreases items@.len() - i,
    {
        let ghost before = string_views(out@);
        proof {
            assert(iv.take(i + 1).drop_last() =~= iv.take(i as int));
            assert(iv.take(i + 1).last() == opt_chars(items@[i as int]));
        }
        match &items[i] {
            Some(x) => {
                out.push(x.clone());
                proof {
                    assert(string_views(out@) =~= before.push(x@));
                    assert(strings_among(iv.take(i + 1)) =~= before + seq![x@]);
                }
            },
            None => {
                proof {
                    assert(strings_among(iv.take(i + 1)) =~= before + Seq::<Seq<char>>::empty());
                }
            },
        }
        i += 1;
    }
    proof {
        assert(iv.take(items@.len() as int) =~= iv);
    }
    Some(out)
}

/// As [`str_at`], printing the item found (`Item`'s `Display`).
#[verifier::external_body]
fn item_text(text: &str, keys: &Vec<String>) -> (r: Option<String>)
    ensures
        opt_chars(r) == toml_item_text(text@, string_views(keys@)),
{
    let doc = text.parse::<toml_edit::DocumentMut>().ok()?;
    let mut item = doc.as_item();
    for k in keys.iter() {
        item = item.get(k.as_str())?;
    }
    Some(item.to_string())
}

/// As [`str_at`], only asking whether an item is found. Where none is, none of
/// the readings at that path finds anything either, and nothing is found below it.
#[verifier::external_body]
pub(crate) fn has_item(text: &str, keys: &Vec<String>) -> (r: bool)
    ensures
        r == toml_has(text@, string_views(keys@)),
        !r ==> forall|p: Seq<Seq<char>>| !#[trigger] toml_has(text@, string_views(keys@) + p),
        !r ==> forall|p: Seq<Seq<char>>| #[trigger] toml_str_at(text@, string_views(keys@) + p) is None,
        !r ==> toml_str_at(text@, string_views(keys@)) is None && toml_bool_at(text@, string_views(keys@)) is None
            && toml_table_keys(text@, string_views(keys@)) is None && toml_array_items(text@, string_views(keys@)) is None,
{
    let Ok(doc) = text.parse::<toml_edit::DocumentMut>() else {
        return false;
    };
    let mut item = doc.as_item();
    for k in keys.iter() {
        match item.get(k.as_str()) {
            Some(i) => item = i,
            None => return false,
        }
    }
    true
}

/// As [`str_at`], then reads a boolean under `key` of an inline table only
/// (`Item::as_inline_table`, `InlineTable::get`, `Value::as_bool`).
#[verifier::external_body]
fn inline_bool(text: &str, keys: &Vec<String>, key: &str) -> (r: Option<bool>)
    ensures
        r == toml_inline_bool(text@, string_views(keys@), key@),
{
    let doc = text.parse::<toml_edit::DocumentMut>().ok()?;
    let mut item = doc.as_item();
    for k in keys.iter() {
        item = item.get(k.as_str())?;
    }
    item.as_inline_table().and_then(|t| t.get(key)).and_then(|v| v.as_bool())
}

/// A boolean under `key` of the item at `keys`: read from an inline table
/// (`dep = { workspace = true }`), else from a regular table (`[dep]`).
pub open spec fn toml_bool_under(text: Seq<char>, keys: Seq<Seq<char>>, key: Seq<char>) -> Option<bool> {
    match toml_inline_bool(text, keys, key) {
        Some(b) => Some(b),
        None => toml_bool_at(text, keys.push(key)),
    }
}

/// The boolean under `key` of the item at `keys`, in inline or regular table form.
pub fn toml_bool(text: &str, keys: &Vec<String>, key: &str) -> (r: Option<bool>)
    ensures
        r == toml_bool_under(text@, string_views(keys@), key@),
{
    match inline_bool(text, keys, key) {
        Some(b) => Some(b),
        None => bool_at(text, &child(keys, key)),
    }
}

/// Whether a project's manifest marks it a test project
/// (`[package.metadata.polylith] test-project = true`).
pub fn is_test_project(text: &str) -> (r: bool)
    ensures
        r == (toml_bool_under(text@, seq!["package"@, "metadata"@, "polylith"@], "test-project"@) == Some(true)),
{
    match toml_bool(text, &path3("package", "metadata", "polylith"), "test-project") {
        Some(b) => b,
        None => false,
    }
}

/// The `name` of the first table of the `[[bin]]` array of tables
/// (`Item::as_array_of_tables`, `ArrayOfTables::iter`, `Table::get`).
#[verifier::external_body]
fn first_bin_name(text: &str) -> (r: Option<String>)
    ensures
        opt_chars(r) == toml_first_bin_name(text@),
{
    let doc = text.parse::<toml_edit::DocumentMut>().ok()?;
    let first = doc.get("bin")?.as_array_of_tables()?.iter().next()?;
    first.get("name")?.as_value()?.as_str().map(|s| s.to_string())
}

// ---------------------------------------------------------------------------
// Key paths.

pub(crate) fn path1(a: &str) -> (r: Vec<String>)
    ensures
        string_views(r@) == seq![a@],
{
    let mut r: Vec<String> = Vec::new();
    r.push(owned(a));
    proof {
        assert(string_views(r@) =~= seq![a@]);
    }
    r
}

pub(crate) fn path2(a: &str, b: &str) -> (r: Vec<String>)
    ensures
        string_views(r@) == seq![a@, b@],
{
    let mut r: Vec<String> = Vec::new();
    r.push(owned(a));
    r.push(owned(b));
    proof {
        assert(string_views(r@) =~= seq![a@, b@]);
    }
    r
}

pub(crate) fn path3(a: &str, b: &str, c: &str) -> (r: Vec<String>)
    ensures
        string_views(r@) == seq![a@, b@, c@],
{
    let mut r: Vec<String> = Vec::new();
    r.push(owned(a));
    r.push(owned(b));
    r.push(owned(c));
    proof {
        assert(string_views(r@) =~= seq![a@, b@, c@]);
    }
    r
}

fn path4(a: &str, b: &str, c: &str, d: &str) -> (r: Vec<String>)
    ensures
        string_views(r@) == seq![a@, b@, c@, d@],
{
    let mut r: Vec<String> = Vec::new();
    r.push(owned(a));
    r.push(owned(b));
    r.push(owned(c));
    r.push(owned(d));
    proof {
        assert(string_views(r@) =~= seq![a@, b@, c@, d@]);
    }
    r
}

/// `at` with `k` appended.
pub(crate) fn child(at: &Vec<String>, k: &str) -> (r: Vec<String>)
    ensures
        string_views(r@) == string_views(at@).push(k@),
{
    let mut r: Vec<String> = Vec::new();
    let mut i: usize = 0;
    while i < at.len()
        invariant
            i <= at@.len(),
            string_views(r@) == string_views(at@).take(i as int),
        decreases at@.len() - i,
    {
        let ghost before = string_views(r@);
        let c = at[i].clone();
        r.push(c);
        proof {
            assert(c == at@[i as int]);
            assert(string_views(r@) =~= before.push(c@));
            assert(string_views(at@).take(i + 1) =~= string_views(at@).take(i as int).push(string_views(at@)[i as int]));
        }
        i += 1;
    }
    r.push(owned(k));
    proof {
        assert(string_views(at@).take(at@.len() as int) =~= string_views(at@));
        assert(string_views(r@) =~= string_views(at@).push(k@));
    }
    r
}

// ---------------------------------------------------------------------------
// Dependency entries.

/// The value of `o`, else `d`.
pub open spec fn or_else(o: Option<Seq<char>>, d: Seq<char>) -> Seq<char> {
    match o {
        Some(s) => s,
        None => d,
    }
}

/// The keys of the table at `at`; none when there is no such table.
pub open spec fn keys_at(t: Seq<char>, at: Seq<Seq<char>>) -> Seq<Seq<char>> {
    match toml_table_keys(t, at) {
        Some(ks) => ks,
        None => Seq::<Seq<char>>::empty(),
    }
}

/// A version requirement, where `*` means none.
pub open spec fn not_star(o: Option<Seq<char>>) -> Option<Seq<char>> {
    match o {
        Some(s) => if s == "*"@ {
            None
        } else {
            Some(s)
        },
        None => None,
    }
}

/// The version of the dependency at `at`: the entry itself when it is a
/// string (`serde = "1.0"`), else its `version` key.
pub open spec fn dep_version(t: Seq<char>, at: Seq<Seq<char>>) -> Option<Seq<char>> {
    match toml_str_at(t, at) {
        Some(s) => not_star(Some(s)),
        None => not_star(toml_str_at(t, at.push("version"@))),
    }
}

/// The features of the dependency at `at`, sorted.
pub open spec fn dep_features(t: Seq<char>, at: Seq<Seq<char>>) -> Seq<Seq<char>> {
    match toml_str_array(t, at.push("features"@)) {
        Some(fs) => fs,
        None => Seq::<Seq<char>>::empty(),
    }.sort_by(name_order())
}

/// The dependency at `at` as TOML text: a quoted version string, else the
/// entry's own text without surrounding whitespace.
pub open spec fn dep_raw(t: Seq<char>, at: Seq<Seq<char>>) -> Seq<char> {
    match toml_str_at(t, at) {
        Some(s) => "\""@ + s + "\""@,
        None => trim_spec(or_else(toml_item_text(t, at), Seq::<char>::empty())),
    }
}

fn dep_version_of(text: &str, at: &Vec<String>) -> (r: Option<String>)
    ensures
        opt_chars(r) == dep_version(text@, string_views(at@)),
{
    let found = match str_at(text, at) {
        Some(s) => Some(s),
        None => str_at(text, &child(at, "version")),
    };
    match found {
        Some(s) => if str_eq(s.as_str(), "*") {
            None
        } else {
            Some(s)
        },
        None => None,
    }
}

fn dep_features_of(text: &str, at: &Vec<String>) -> (r: Vec<String>)
    ensures
        string_views(r@) == dep_features(text@, string_views(at@)),
{
    let found = match str_array(text, &child(at, "features")) {
        Some(fs) => fs,
        None => {
            let e: Vec<String> = Vec::new();
            proof {
                assert(string_views(e@) =~= Seq::<Seq<char>>::empty());
            }
            e
        },
    };
    crate::order::sort_strings(found)
}

fn dep_raw_of(text: &str, at: &Vec<String>) -> (r: String)
    ensures
        r@ == dep_raw(text@, string_views(at@)),
{
    match str_at(text, at) {
        Some(s) => {
            let mut r = owned("\"");
            r.append(s.as_str());
            r.append("\"");
            r
        },
        None => match item_text(text, at) {
            Some(x) => trim(x.as_str()),
            None => {
                let e = String::new();
                trim(e.as_str())
            },
        },
    }
}

// ---------------------------------------------------------------------------
// Bricks.

/// The keys of `[dependencies]`.
pub open spec fn dep_keys(t: Seq<char>) -> Seq<Seq<char>> {
    keys_at(t, seq!["dependencies"@])
}

/// Dependency `k` names a `path` and does not take its version from the workspace.
pub open spec fn is_direct_path_dep(t: Seq<char>, k: Seq<char>) -> bool {
    &&& toml_str_at(t, seq!["dependencies"@, k, "path"@]) is Some
    &&& toml_bool_at(t, seq!["dependencies"@, k, "workspace"@]) != Some(true)
}

/// The keys among `ks` that are direct path dependencies, in order.
pub open spec fn path_dep_keys(t: Seq<char>, ks: Seq<Seq<char>>) -> Seq<Seq<char>>
    decreases ks.len(),
{
    if ks.len() == 0 {
        Seq::<Seq<char>>::empty()
    } else if is_direct_path_dep(t, ks.last()) {
        path_dep_keys(t, ks.drop_last()).push(ks.last())
    } else {
        path_dep_keys(t, ks.drop_last())
    }
}

/// `-` read as `_`, the way Cargo treats crate names.
pub open spec fn underscored(s: Seq<char>) -> Seq<char> {
    s.map_values(|c: char| if c == '-' { '_' } else { c })
}

/// The entries among `ks` of the table `table` that rename a package
/// (`package = "X"` with X other than the key, up to `-` and `_`), as (key, package).
pub open spec fn renames_in(t: Seq<char>, table: Seq<char>, ks: Seq<Seq<char>>) -> Seq<(Seq<char>, Seq<char>)>
    decreases ks.len(),
{
    if ks.len() == 0 {
        Seq::<(Seq<char>, Seq<char>)>::empty()
    } else {
        let p = renames_in(t, table, ks.drop_last());
        let k = ks.last();
        match toml_str_at(t, seq![table, k, "package"@]) {
            Some(pkg) => if underscored(k) != underscored(pkg) {
                p.push((k, pkg))
            } else {
                p
            },
            None => p,
        }
    }
}

/// The renaming entries of a manifest's normal, dev and build dependencies.
pub open spec fn renames(t: Seq<char>) -> Seq<(Seq<char>, Seq<char>)> {
    renames_in(t, "dependencies"@, keys_at(t, seq!["dependencies"@])) + renames_in(
        t,
        "dev-dependencies"@,
        keys_at(t, seq!["dev-dependencies"@]),
    ) + renames_in(t, "build-dependencies"@, keys_at(t, seq!["build-dependencies"@]))
}

/// Pairs of strings as plain values.
pub open spec fn pair_views(s: Seq<(String, String)>) -> Seq<(Seq<char>, Seq<char>)> {
    s.map_values(|p: (String, String)| (p.0@, p.1@))
}

/// `b` is the brick the manifest text `t` describes, found at `path`.
pub open spec fn brick_read(
    b: Brick,
    kind: BrickKind,
    path: PathBuf,
    manifest_path: PathBuf,
    dir_name: Seq<char>,
    t: Seq<char>,
) -> bool {
    &&& b.name@ == or_else(toml_str_at(t, seq!["package"@, "name"@]), dir_name)
    &&& b.kind == kind
    &&& b.path == path
    &&& b.manifest_path == manifest_path
    &&& string_views(b.deps@) == dep_keys(t)
    &&& opt_chars(b.interface) == toml_str_at(t, seq!["package"@, "metadata"@, "polylith"@, "interface"@])
    &&& string_views(b.path_dep_keys@) == path_dep_keys(t, dep_keys(t))
    &&& pair_views(b.hardwired_pkg_deps@) == renames(t)
}

/// The keys of the table at `at`, or none.
pub(crate) fn keys_or_none(text: &str, at: &Vec<String>) -> (r: Vec<String>)
    ensures
        string_views(r@) == keys_at(text@, string_views(at@)),
{
    match table_keys(text, at) {
        Some(ks) => ks,
        None => {
            let e: Vec<String> = Vec::new();
            proof {
                assert(string_views(e@) =~= Seq::<Seq<char>>::empty());
            }
            e
        },
    }
}

/// `s` with every `-` replaced by `_`.
fn underscore(s: &str) -> (r: String)
    ensures
        r@ == underscored(s@),
{
    let cs = chars_of(s);
    let mut out: Vec<char> = Vec::new();
    let mut i: usize = 0;
    while i < cs.len()
        invariant
            i <= cs@.len(),
            cs@ == s@,
            out@ == underscored(s@).take(i as int),
        decreases cs@.len() - i,
    {
        let c = if cs[i] == '-' {
            '_'
        } else {
            cs[i]
        };
        out.push(c);
        proof {
            assert(out@ =~= underscored(s@).take(i + 1));
        }
        i += 1;
    }
    proof {
        assert(underscored(s@).take(cs@.len() as int) =~= underscored(s@));
    }
    string_of(out.as_slice())
}

/// Appends the renaming entries of `table`.
fn push_renames(text: &str, table: &str, out: &mut Vec<(String, String)>)
    ensures
        pair_views(final(out)@) == pair_views(old(out)@) + renames_in(text@, table@, keys_at(text@, seq![table@])),
{
    let ks = keys_or_none(text, &path1(table));
    let ghost kv = string_views(ks@);
    let ghost start = pair_views(out@);
    let mut i: usize = 0;
    proof {
        assert(kv.take(0) =~= Seq::<Seq<char>>::empty());
        assert(start + renames_in(text@, table@, kv.take(0)) =~= start);
    }
    while i < ks.len()
        invariant
            i <= ks@.len(),
            kv == string_views(ks@),
            kv == keys_at(text@, seq![table@]),
            pair_views(out@) == start + renames_in(text@, table@, kv.take(i as int)),
        decreases ks@.len() - i,
    {
        let k = &ks[i];
        proof {
            assert(kv.take(i + 1).drop_last() =~= kv.take(i as int));
            assert(kv.take(i + 1).last() == k@);
        }
        match str_at(text, &path3(table, k.as_str(), "package")) {
            Some(pkg) => {
                if !str_eq(underscore(k.as_str()).as_str(), underscore(pkg.as_str()).as_str()) {
                    let ghost before = pair_views(out@);
                    out.push((k.clone(), pkg));
                    proof {
                        assert(pair_views(out@) =~= before.push((k@, pkg@)));
                    }
                }
            },
            None => {},
        }
        i += 1;
    }
    proof {
        assert(kv.take(ks@.len() as int) =~= kv);
    }
}

/// Reads a brick from the text of its manifest, at `manifest_path` in the
/// directory `path` (named `dir_name`). The package name falls back to the
/// directory name; a manifest that does not parse is an error.
pub fn brick_from_manifest(
    kind: BrickKind,
    path: PathBuf,
    manifest_path: PathBuf,
    dir_name: &str,
    text: &str,
) -> (r: Result<Brick, WorkspaceError>)
    ensures
        match toml_parse_failure(text@) {
            Some(m) => r matches Err(WorkspaceError::TomlParse { path: p, source }) && p == manifest_path && source@
                == m,
            None => r matches Ok(b) && brick_read(b, kind, path, manifest_path, dir_name@, text@),
        },
{
    if let Some(m) = parse_failure(text) {
        return Err(WorkspaceError::TomlParse { path: manifest_path, source: m });
    }
    let name = match str_at(text, &path2("package", "name")) {
        Some(n) => n,
        None => owned(dir_name),
    };
    let deps_path = path1("dependencies");
    let deps = keys_or_none(text, &deps_path);
    let interface = str_at(text, &path4("package", "metadata", "polylith", "interface"));
    let ghost kv = string_views(deps@);
    let mut path_dep_keys_v: Vec<String> = Vec::new();
    let mut i: usize = 0;
    proof {
        assert(kv.take(0) =~= Seq::<Seq<char>>::empty());
        assert(string_views(path_dep_keys_v@) =~= Seq::<Seq<char>>::empty());
    }
    while i < deps.len()
        invariant
            i <= deps@.len(),
            kv == string_views(deps@),
            string_views(path_dep_keys_v@) == path_dep_keys(text@, kv.take(i as int)),
        decreases deps@.len() - i,
    {
        let k = &deps[i];
        proof {
            assert(kv.take(i + 1).drop_last() =~= kv.take(i as int));
            assert(kv.take(i + 1).last() == k@);
        }
        let has_path = str_at(text, &path3("dependencies", k.as_str(), "path")).is_some();
        let from_ws = match bool_at(text, &path3("dependencies", k.as_str(), "workspace")) {
            Some(b) => b,
            None => false,
        };
        if has_path && !from_ws {
            let ghost before = string_views(path_dep_keys_v@);
            path_dep_keys_v.push(k.clone());
            proof {
                assert(string_views(path_dep_keys_v@) =~= before.push(k@));
            }
        }
        i += 1;
    }
    proof {
        assert(kv.take(deps@.len() as int) =~= kv);
    }
    let mut hardwired: Vec<(String, String)> = Vec::new();
    proof {
        assert(pair_views(hardwired@) =~= Seq::<(Seq<char>, Seq<char>)>::empty());
    }
    push_renames(text, "dependencies", &mut hardwired);
    push_renames(text, "dev-dependencies", &mut hardwired);
    push_renames(text, "build-dependencies", &mut hardwired);
    proof {
        assert(pair_views(hardwired@) =~= renames(text@));
    }
    Ok(Brick {
        name,
        kind,
        path,
        deps,
        manifest_path,
        interface,
        path_dep_keys: path_dep_keys_v,
        hardwired_pkg_deps: hardwired,
    })
}

// ---------------------------------------------------------------------------
// Projects.

/// The package dependency `k` pulls in: its `package` when it names one, else `k`.
pub open spec fn dep_package(t: Seq<char>, k: Seq<char>) -> Seq<char> {
    or_else(toml_str_at(t, seq!["dependencies"@, k, "package"@]), k)
}

/// The packages the dependencies `ks` pull in, each once, in order of first mention.
pub open spec fn dep_packages(t: Seq<char>, ks: Seq<Seq<char>>) -> Seq<Seq<char>>
    decreases ks.len(),
{
    if ks.len() == 0 {
        Seq::<Seq<char>>::empty()
    } else {
        let p = dep_packages(t, ks.drop_last());
        let n = dep_package(t, ks.last());
        if p.contains(n) {
            p
        } else {
            p.push(n)
        }
    }
}

/// Dependency `k` names no `package`.
pub open spec fn unaliased(t: Seq<char>, k: Seq<char>) -> bool {
    toml_str_at(t, seq!["dependencies"@, k, "package"@]) is None
}

/// The keys among `ks` of unaliased path dependencies, in order.
pub open spec fn dep_path_keys(t: Seq<char>, ks: Seq<Seq<char>>) -> Seq<Seq<char>>
    decreases ks.len(),
{
    if ks.len() == 0 {
        Seq::<Seq<char>>::empty()
    } else if unaliased(t, ks.last()) && toml_str_at(t, seq!["dependencies"@, ks.last(), "path"@]) is Some {
        dep_path_keys(t, ks.drop_last()).push(ks.last())
    } else {
        dep_path_keys(t, ks.drop_last())
    }
}

/// Dependency `k` comes from a registry: no `package`, no `path`, not from the workspace.
pub open spec fn is_external(t: Seq<char>, k: Seq<char>) -> bool {
    &&& unaliased(t, k)
    &&& toml_str_at(t, seq!["dependencies"@, k, "path"@]) is None
    &&& toml_bool_at(t, seq!["dependencies"@, k, "workspace"@]) != Some(true)
}

/// Library information as plain values: features, version, raw text.
pub open spec fn info_view(i: ExternalDepInfo) -> (Seq<Seq<char>>, Option<Seq<char>>, Option<Seq<char>>) {
    (string_views(i.features@), opt_chars(i.version), opt_chars(i.raw))
}

/// The registry dependencies among `ks` with their features and version.
pub open spec fn externals(t: Seq<char>, ks: Seq<Seq<char>>) -> Map<
    Seq<char>,
    (Seq<Seq<char>>, Option<Seq<char>>, Option<Seq<char>>),
>
    decreases ks.len(),
{
    if ks.len() == 0 {
        Map::empty()
    } else {
        let p = externals(t, ks.drop_last());
        let k = ks.last();
        if is_external(t, k) {
            let at = seq!["dependencies"@, k];
            p.insert(k, (dep_features(t, at), dep_version(t, at), None))
        } else {
            p
        }
    }
}

/// The first components of pairs, as plain values.
pub open spec fn first_views<T>(s: Seq<(String, T)>) -> Seq<Seq<char>> {
    s.map_values(|p: (String, T)| p.0@)
}

/// `p` is the project the manifest text `t` describes, found at `path`.
pub open spec fn project_read(p: Project, path: PathBuf, dir_name: Seq<char>, t: Seq<char>) -> bool {
    &&& p.name@ == or_else(toml_str_at(t, seq!["package"@, "name"@]), dir_name)
    &&& p.path == path
    &&& string_views(p.deps@) == dep_packages(t, dep_keys(t))
    &&& p.has_own_workspace == toml_has(t, seq!["workspace"@])
    &&& opt_chars(p.bin_name) == toml_first_bin_name(t)
    &&& first_views(p.dep_paths@) == dep_path_keys(t, dep_keys(t))
    &&& p.external_deps@.map_values(|i: ExternalDepInfo| info_view(i)) == externals(t, dep_keys(t))
    &&& pair_views(p.hardwired_pkg_deps@) == renames(t)
}

/// `base` joined with the relative path `rel` (`Path::join`). Nothing is
/// stated of the result, a path the library only carries.
#[verifier::external_body]
fn join_path(base: &PathBuf, rel: &str) -> (r: PathBuf) {
    base.join(rel)
}

/// Reads a project from the text of its manifest in the directory `path`
/// (named `dir_name`); a manifest that does not parse gives the parser's message.
/// Each dependency's package counts once; unaliased path dependencies keep their
/// path joined to the project directory; registry dependencies keep their
/// features and version.
pub fn project_from_manifest(path: PathBuf, dir_name: &str, text: &str) -> (r: Result<Project, String>)
    ensures
        match toml_parse_failure(text@) {
            Some(m) => r matches Err(e) && e@ == m,
            None => r matches Ok(p) && project_read(p, path, dir_name@, text@),
        },
{
    if let Some(m) = parse_failure(text) {
        return Err(m);
    }
    let name = match str_at(text, &path2("package", "name")) {
        Some(n) => n,
        None => owned(dir_name),
    };
    let keys = keys_or_none(text, &path1("dependencies"));
    let ghost kv = string_views(keys@);
    let mut deps: Vec<String> = Vec::new();
    let mut dep_paths: Vec<(String, PathBuf)> = Vec::new();
    let mut external_deps: StrMap<ExternalDepInfo> = StrMap::new();
    let mut i: usize = 0;
    proof {
        assert(kv.take(0) =~= Seq::<Seq<char>>::empty());
        assert(string_views(deps@) =~= Seq::<Seq<char>>::empty());
        assert(first_views(dep_paths@) =~= Seq::<Seq<char>>::empty());
        assert(external_deps@.map_values(|i: ExternalDepInfo| info_view(i)) =~= Map::<
            Seq<char>,
            (Seq<Seq<char>>, Option<Seq<char>>, Option<Seq<char>>),
        >::empty());
    }
    while i < keys.len()
        invariant
            i <= keys@.len(),
            kv == string_views(keys@),
            string_views(deps@) == dep_packages(text@, kv.take(i as int)),
            first_views(dep_paths@) == dep_path_keys(text@, kv.take(i as int)),
            external_deps@.map_values(|i: ExternalDepInfo| info_view(i)) == externals(text@, kv.take(i as int)),
        decreases keys@.len() - i,
    {
        let k = &keys[i];
        proof {
            assert(kv.take(i + 1).drop_last() =~= kv.take(i as int));
            assert(kv.take(i + 1).last() == k@);
        }
        let alias = str_at(text, &path3("dependencies", k.as_str(), "package"));
        let pkg = match &alias {
            Some(p) => p.clone(),
            None => k.clone(),
        };
        if !contains_str(&deps, pkg.as_str()) {
            let ghost before = string_views(deps@);
            deps.push(pkg);
            proof {
                assert(string_views(deps@) =~= before.push(dep_package(text@, k@)));
            }
        }
        if alias.is_none() {
            match str_at(text, &path3("dependencies", k.as_str(), "path")) {
                Some(rel) => {
                    let ghost before = first_views(dep_paths@);
                    let joined = join_path(&path, rel.as_str());
                    dep_paths.push((k.clone(), joined));
                    proof {
                        assert(first_views(dep_paths@) =~= before.push(k@));
                    }
                },
                None => {
                    let from_ws = match bool_at(text, &path3("dependencies", k.as_str(), "workspace")) {
                        Some(b) => b,
                        None => false,
                    };
                    if !from_ws {
                        let at = path2("dependencies", k.as_str());
                        let features = dep_features_of(text, &at);
                        let version = dep_version_of(text, &at);
                        let info = ExternalDepInfo { features, version, raw: None };
                        let ghost before = external_deps@;
                        let ghost iv = info_view(info);
                        external_deps.insert(k.clone(), info);
                        proof {
                            assert(external_deps@.map_values(|i: ExternalDepInfo| info_view(i)) =~= before.map_values(
                                |i: ExternalDepInfo| info_view(i),
                            ).insert(k@, iv));
                        }
                    }
                },
            }
        }
        i += 1;
    }
    proof {
        assert(kv.take(keys@.len() as int) =~= kv);
    }
    let has_own_workspace = has_item(text, &path1("workspace"));
    let bin_name = first_bin_name(text);
    let mut hardwired: Vec<(String, String)> = Vec::new();
    proof {
        assert(pair_views(hardwired@) =~= Seq::<(Seq<char>, Seq<char>)>::empty());
    }
    push_renames(text, "dependencies", &mut hardwired);
    push_renames(text, "dev-dependencies", &mut hardwired);
    push_renames(text, "build-dependencies", &mut hardwired);
    proof {
        assert(pair_views(hardwired@) =~= renames(text@));
    }
    Ok(Project {
        name,
        path,
        deps,
        has_own_workspace,
        bin_name,
        dep_paths,
        external_deps,
        hardwired_pkg_deps: hardwired,
    })
}

// ---------------------------------------------------------------------------
// Library tables, string tables and package metadata.

/// The library entries among `ks` of the table at `at`, with their features,
/// version and, when `raw`, their TOML text. When `skip_paths`, entries with a
/// path are left out: those with a `path` string, or with any `path` item when
/// `any_path`.
pub open spec fn libraries_in(
    t: Seq<char>,
    at: Seq<Seq<char>>,
    ks: Seq<Seq<char>>,
    skip_paths: bool,
    any_path: bool,
    raw: bool,
) -> Map<Seq<char>, (Seq<Seq<char>>, Option<Seq<char>>, Option<Seq<char>>)>
    decreases ks.len(),
{
    if ks.len() == 0 {
        Map::empty()
    } else {
        let p = libraries_in(t, at, ks.drop_last(), skip_paths, any_path, raw);
        let k = ks.last();
        let e = at.push(k);
        let has_path = if any_path {
            toml_has(t, e.push("path"@))
        } else {
            toml_str_at(t, e.push("path"@)) is Some
        };
        if skip_paths && has_path {
            p
        } else {
            p.insert(
                k,
                (
                    dep_features(t, e),
                    dep_version(t, e),
                    if raw {
                        Some(dep_raw(t, e))
                    } else {
                        None
                    },
                ),
            )
        }
    }
}

/// The libraries of the table at `at`.
pub open spec fn libraries_at(t: Seq<char>, at: Seq<Seq<char>>, skip_paths: bool, any_path: bool, raw: bool) -> Map<
    Seq<char>,
    (Seq<Seq<char>>, Option<Seq<char>>, Option<Seq<char>>),
> {
    libraries_in(t, at, keys_at(t, at), skip_paths, any_path, raw)
}

fn read_libraries(text: &str, at: &Vec<String>, skip_paths: bool, any_path: bool, raw: bool) -> (r: StrMap<
    ExternalDepInfo,
>)
    ensures
        r@.map_values(|i: ExternalDepInfo| info_view(i)) == libraries_at(
            text@,
            string_views(at@),
            skip_paths,
            any_path,
            raw,
        ),
{
    let keys = keys_or_none(text, at);
    let ghost kv = string_views(keys@);
    let ghost av = string_views(at@);
    let mut out: StrMap<ExternalDepInfo> = StrMap::new();
    let mut i: usize = 0;
    proof {
        assert(kv.take(0) =~= Seq::<Seq<char>>::empty());
        assert(out@.map_values(|i: ExternalDepInfo| info_view(i)) =~= Map::<
            Seq<char>,
            (Seq<Seq<char>>, Option<Seq<char>>, Option<Seq<char>>),
        >::empty());
    }
    while i < keys.len()
        invariant
            i <= keys@.len(),
            kv == string_views(keys@),
            kv == keys_at(text@, av),
            av == string_views(at@),
            out@.map_values(|i: ExternalDepInfo| info_view(i)) == libraries_in(
                text@,
                av,
                kv.take(i as int),
                skip_paths,
                any_path,
                raw,
            ),
        decreases keys@.len() - i,
    {
        let k = &keys[i];
        proof {
            assert(kv.take(i + 1).drop_last() =~= kv.take(i as int));
            assert(kv.take(i + 1).last() == k@);
        }
        let e = child(at, k.as_str());
        let path_at = child(&e, "path");
        let has_path = if any_path {
            has_item(text, &path_at)
        } else {
            str_at(text, &path_at).is_some()
        };
        if !(skip_paths && has_path) {
            let features = dep_features_of(text, &e);
            let version = dep_version_of(text, &e);
            let raw_text = if raw {
                Some(dep_raw_of(text, &e))
            } else {
                None
            };
            let info = ExternalDepInfo { features, version, raw: raw_text };
            let ghost before = out@;
            let ghost iv = info_view(info);
            out.insert(k.clone(), info);
            proof {
                assert(out@.map_values(|i: ExternalDepInfo| info_view(i)) =~= before.map_values(
                    |i: ExternalDepInfo| info_view(i),
                ).insert(k@, iv));
            }
        }
        i += 1;
    }
    proof {
        assert(kv.take(keys@.len() as int) =~= kv);
    }
    out
}

/// The string entries among `ks` of the table at `at`.
pub open spec fn str_entries(t: Seq<char>, at: Seq<Seq<char>>, ks: Seq<Seq<char>>) -> Map<Seq<char>, Seq<char>>
    decreases ks.len(),
{
    if ks.len() == 0 {
        Map::empty()
    } else {
        let p = str_entries(t, at, ks.drop_last());
        match toml_str_at(t, at.push(ks.last())) {
            Some(v) => p.insert(ks.last(), v),
            None => p,
        }
    }
}

/// The string entries of the table at `at`.
pub open spec fn str_table(t: Seq<char>, at: Seq<Seq<char>>) -> Map<Seq<char>, Seq<char>> {
    str_entries(t, at, keys_at(t, at))
}

fn read_str_table(text: &str, at: &Vec<String>) -> (r: StrMap<String>)
    ensures
        r@.map_values(|s: String| s@) == str_table(text@, string_views(at@)),
{
    let keys = keys_or_none(text, at);
    let ghost kv = string_views(keys@);
    let ghost av = string_views(at@);
    let mut out: StrMap<String> = StrMap::new();
    let mut i: usize = 0;
    proof {
        assert(kv.take(0) =~= Seq::<Seq<char>>::empty());
        assert(out@.map_values(|s: String| s@) =~= Map::<Seq<char>, Seq<char>>::empty());
    }
    while i < keys.len()
        invariant
            i <= keys@.len(),
            kv == string_views(keys@),
            kv == keys_at(text@, av),
            av == string_views(at@),
            out@.map_values(|s: String| s@) == str_entries(text@, av, kv.take(i as int)),
        decreases keys@.len() - i,
    {
        let k = &keys[i];
        proof {
            assert(kv.take(i + 1).drop_last() =~= kv.take(i as int));
            assert(kv.take(i + 1).last() == k@);
        }
        match str_at(text, &child(at, k.as_str())) {
            Some(v) => {
                let ghost before = out@;
                let ghost vv = v@;
                out.insert(k.clone(), v);
                proof {
                    assert(out@.map_values(|s: String| s@) =~= before.map_values(|s: String| s@).insert(k@, vv));
                }
            },
            None => {},
        }
        i += 1;
    }
    proof {
        assert(kv.take(keys@.len() as int) =~= kv);
    }
    out
}

/// Package metadata as plain values: version, edition, authors, license, repository.
pub type MetaView = (Option<Seq<char>>, Option<Seq<char>>, Option<Seq<Seq<char>>>, Option<Seq<char>>, Option<Seq<char>>);

/// The package metadata of the table at `at`, when it holds any.
pub open spec fn meta_at(t: Seq<char>, at: Seq<Seq<char>>) -> Option<MetaView> {
    let version = toml_str_at(t, at.push("version"@));
    let edition = toml_str_at(t, at.push("edition"@));
    let authors = toml_str_array(t, at.push("authors"@));
    let license = toml_str_at(t, at.push("license"@));
    let repository = toml_str_at(t, at.push("repository"@));
    let any_authors = match authors {
        Some(a) => a.len() > 0,
        None => false,
    };
    if version is Some || edition is Some || any_authors || license is Some || repository is Some {
        Some((version, edition, authors, license, repository))
    } else {
        None
    }
}

/// The view of optional metadata.
pub open spec fn opt_meta_view(m: Option<WorkspacePackageMeta>) -> Option<MetaView> {
    match m {
        Some(x) => Some(meta_view(x)),
        None => None,
    }
}

fn read_meta(text: &str, at: &Vec<String>) -> (r: Option<WorkspacePackageMeta>)
    ensures
        opt_meta_view(r) == meta_at(text@, string_views(at@)),
{
    let version = str_at(text, &child(at, "version"));
    let edition = str_at(text, &child(at, "edition"));
    let authors = str_array(text, &child(at, "authors"));
    let license = str_at(text, &child(at, "license"));
    let repository = str_at(text, &child(at, "repository"));
    let any_authors = match &authors {
        Some(a) => a.len() > 0,
        None => false,
    };
    if version.is_some() || edition.is_some() || any_authors || license.is_some() || repository.is_some() {
        Some(WorkspacePackageMeta { version, edition, authors, license, repository })
    } else {
        None
    }
}

// ---------------------------------------------------------------------------
// Polylith.toml and profiles.

/// The schema version: `[workspace] schema_version`, else 1.
pub open spec fn schema_of(t: Seq<char>) -> u32 {
    match toml_int_at(t, seq!["workspace"@, "schema_version"@]) {
        Some(n) => n as u32,
        None => 1,
    }
}

/// The string `key` of the `[versioning]` table, when that is a table.
pub open spec fn versioning_str(t: Seq<char>, key: Seq<char>) -> Option<Seq<char>> {
    if toml_table_keys(t, seq!["versioning"@]) is Some {
        toml_str_at(t, seq!["versioning"@, key])
    } else {
        None
    }
}

/// The policy a name stands for.
pub open spec fn policy_of(s: Seq<char>) -> Option<VersioningPolicy> {
    if s == "relaxed"@ {
        Some(VersioningPolicy::Relaxed)
    } else if s == "strict"@ {
        Some(VersioningPolicy::Strict)
    } else {
        None
    }
}

/// The error for an unknown policy name.
pub open spec fn policy_message(s: Seq<char>) -> Seq<char> {
    "unknown versioning policy '"@ + s + "' in Polylith.toml (expected 'relaxed' or 'strict')"@
}

/// `pt` is what the `Polylith.toml` text `t` says.
pub open spec fn polylith_read(pt: PolylithToml, t: Seq<char>) -> bool {
    &&& pt.schema_version == schema_of(t)
    &&& pt.libraries@.map_values(|i: ExternalDepInfo| info_view(i)) == libraries_at(
        t,
        seq!["libraries"@],
        true,
        false,
        true,
    )
    &&& pt.profiles@.map_values(|s: String| s@) == str_table(t, seq!["profiles"@])
    &&& pt.versioning_policy == match versioning_str(t, "policy"@) {
        Some(s) => policy_of(s),
        None => None,
    }
    &&& opt_chars(pt.workspace_version) == versioning_str(t, "version"@)
    &&& opt_chars(pt.tag_prefix) == versioning_str(t, "tag_prefix"@)
}

/// Reads `Polylith.toml` from its text (the file at `path`): the schema
/// version (1 when absent), the libraries other than path dependencies with
/// their TOML text, the profile paths, and the `[versioning]` settings. Text
/// that does not parse, or an unknown versioning policy, is an error.
pub fn polylith_from_text(path: PathBuf, text: &str) -> (r: Result<PolylithToml, WorkspaceError>)
    ensures
        match toml_parse_failure(text@) {
            Some(m) => r matches Err(WorkspaceError::TomlParse { path: p, source }) && p == path && source@ == m,
            None => match versioning_str(text@, "policy"@) {
                Some(s) => if policy_of(s) is None {
                    r matches Err(WorkspaceError::Other(m)) && m@ == policy_message(s)
                } else {
                    r matches Ok(pt) && polylith_read(pt, text@)
                },
                None => r matches Ok(pt) && polylith_read(pt, text@),
            },
        },
{
    if let Some(m) = parse_failure(text) {
        return Err(WorkspaceError::TomlParse { path, source: m });
    }
    let schema_version: u32 = match int_at(text, &path2("workspace", "schema_version")) {
        Some(n) => n as u32,
        None => 1,
    };
    let libraries = read_libraries(text, &path1("libraries"), true, false, true);
    let profiles = read_str_table(text, &path1("profiles"));
    let is_table = table_keys(text, &path1("versioning")).is_some();
    let (versioning_policy, workspace_version, tag_prefix) = if is_table {
        let policy = match str_at(text, &path2("versioning", "policy")) {
            Some(s) => match parse_versioning_policy(s.as_str()) {
                Ok(p) => Some(p),
                Err(e) => {
                    return Err(e);
                },
            },
            None => None,
        };
        (
            policy,
            str_at(text, &path2("versioning", "version")),
            str_at(text, &path2("versioning", "tag_prefix")),
        )
    } else {
        (None, None, None)
    };
    Ok(PolylithToml { schema_version, libraries, profiles, versioning_policy, workspace_version, tag_prefix })
}

/// `p` is the profile named `name`, at `path`, that the text `t` describes.
pub open spec fn profile_read(p: Profile, name: Seq<char>, path: PathBuf, t: Seq<char>) -> bool {
    &&& p.name@ == name
    &&& p.path == path
    &&& p.implementations@.map_values(|s: String| s@) == str_table(t, seq!["implementations"@])
    &&& p.libraries@.map_values(|i: ExternalDepInfo| info_view(i)) == libraries_at(
        t,
        seq!["libraries"@],
        false,
        false,
        false,
    )
}

/// Reads a profile file: its `[implementations]` (interface to component
/// path) and its `[libraries]` (features and version of each). Text that does
/// not parse is an error.
pub fn profile_from_text(name: String, path: PathBuf, text: &str) -> (r: Result<Profile, WorkspaceError>)
    ensures
        match toml_parse_failure(text@) {
            Some(m) => r matches Err(WorkspaceError::TomlParse { path: p, source }) && p == path && source@ == m,
            None => r matches Ok(p) && profile_read(p, name@, path, text@),
        },
{
    if let Some(m) = parse_failure(text) {
        return Err(WorkspaceError::TomlParse { path, source: m });
    }
    let implementations = read_str_table(text, &path1("implementations"));
    let libraries = read_libraries(text, &path1("libraries"), false, false, false);
    Ok(Profile { name, path, implementations, libraries })
}

// ---------------------------------------------------------------------------
// The root manifest.

/// Where the root manifest keeps its package metadata: `[package]`, else
/// `[workspace.package]`.
pub open spec fn root_meta_table(t: Seq<char>) -> Option<Seq<Seq<char>>> {
    if toml_has(t, seq!["package"@]) {
        Some(seq!["package"@])
    } else if toml_has(t, seq!["workspace"@, "package"@]) {
        Some(seq!["workspace"@, "package"@])
    } else {
        None
    }
}

/// The package metadata of the root manifest's text: from `[package]`, else
/// from `[workspace.package]`; none when neither holds any. Text that does not
/// parse gives the parser's message.
pub fn read_root_package_meta(text: &str) -> (r: Result<Option<WorkspacePackageMeta>, String>)
    ensures
        match toml_parse_failure(text@) {
            Some(m) => r matches Err(e) && e@ == m,
            None => r matches Ok(o) && opt_meta_view(o) == match root_meta_table(text@) {
                Some(at) => meta_at(text@, at),
                None => None,
            },
        },
{
    if let Some(m) = parse_failure(text) {
        return Err(m);
    }
    let pkg = path1("package");
    if has_item(text, &pkg) {
        return Ok(read_meta(text, &pkg));
    }
    let ws_pkg = path2("workspace", "package");
    if has_item(text, &ws_pkg) {
        return Ok(read_meta(text, &ws_pkg));
    }
    Ok(None)
}

/// A path dependency as plain values: path, package.
pub open spec fn path_dep_view(d: WorkspacePathDep) -> (Seq<char>, Option<Seq<char>>) {
    (d.path@, opt_chars(d.package))
}

/// The path dependencies among `ks` of `[workspace.dependencies]`.
pub open spec fn interface_deps_in(t: Seq<char>, ks: Seq<Seq<char>>) -> Map<Seq<char>, (Seq<char>, Option<Seq<char>>)>
    decreases ks.len(),
{
    if ks.len() == 0 {
        Map::empty()
    } else {
        let p = interface_deps_in(t, ks.drop_last());
        let k = ks.last();
        match toml_str_at(t, seq!["workspace"@, "dependencies"@, k, "path"@]) {
            Some(path) => p.insert(k, (path, toml_str_at(t, seq!["workspace"@, "dependencies"@, k, "package"@]))),
            None => p,
        }
    }
}

/// The path dependencies of `[workspace.dependencies]`: the interface wiring.
pub open spec fn interface_deps(t: Seq<char>) -> Map<Seq<char>, (Seq<char>, Option<Seq<char>>)> {
    interface_deps_in(t, keys_at(t, seq!["workspace"@, "dependencies"@]))
}

/// The path dependencies of the root manifest's `[workspace.dependencies]`,
/// with their `package` aliases; none when the text does not parse.
pub fn interface_path_deps(text: &str) -> (r: StrMap<WorkspacePathDep>)
    ensures
        r@.map_values(|d: WorkspacePathDep| path_dep_view(d)) == interface_deps(text@),
{
    let keys = keys_or_none(text, &path2("workspace", "dependencies"));
    let ghost kv = string_views(keys@);
    let mut out: StrMap<WorkspacePathDep> = StrMap::new();
    let mut i: usize = 0;
    proof {
        assert(kv.take(0) =~= Seq::<Seq<char>>::empty());
        assert(out@.map_values(|d: WorkspacePathDep| path_dep_view(d)) =~= Map::<
            Seq<char>,
            (Seq<char>, Option<Seq<char>>),
        >::empty());
    }
    while i < keys.len()
        invariant
            i <= keys@.len(),
            kv == string_views(keys@),
            out@.map_values(|d: WorkspacePathDep| path_dep_view(d)) == interface_deps_in(text@, kv.take(i as int)),
        decreases keys@.len() - i,
    {
        let k = &keys[i];
        proof {
            assert(kv.take(i + 1).drop_last() =~= kv.take(i as int));
            assert(kv.take(i + 1).last() == k@);
        }
        match str_at(text, &path4("workspace", "dependencies", k.as_str(), "path")) {
            Some(path) => {
                let package = str_at(text, &path4("workspace", "dependencies", k.as_str(), "package"));
                let dep = WorkspacePathDep { path, package };
                let ghost before = out@;
                let ghost dv = path_dep_view(dep);
                out.insert(k.clone(), dep);
                proof {
                    assert(out@.map_values(|d: WorkspacePathDep| path_dep_view(d)) =~= before.map_values(
                        |d: WorkspacePathDep| path_dep_view(d),
                    ).insert(k@, dv));
                }
            },
            None => {},
        }
        i += 1;
    }
    proof {
        assert(kv.take(keys@.len() as int) =~= kv);
    }
    out
}

/// The interface wiring of the root manifest at `path`, from its text; text
/// that does not parse is an error.
pub fn collect_root_interface_deps(path: PathBuf, text: &str) -> (r: Result<StrMap<WorkspacePathDep>, WorkspaceError>)
    ensures
        match toml_parse_failure(text@) {
            Some(m) => r matches Err(WorkspaceError::TomlParse { path: p, source }) && p == path && source@ == m,
            None => r matches Ok(d) && d@.map_values(|d: WorkspacePathDep| path_dep_view(d)) == interface_deps(text@),
        },
{
    if let Some(m) = parse_failure(text) {
        return Err(WorkspaceError::TomlParse { path, source: m });
    }
    Ok(interface_path_deps(text))
}

/// The implementations of a dev profile made from the root's interface wiring:
/// each interface key with the path it is wired to, in key order.
pub fn dev_profile_pairs(deps: &StrMap<WorkspacePathDep>) -> (r: Vec<(String, String)>)
    ensures
        r@.map_values(|p: (String, String)| p.0@) == sorted_keys(deps@.dom()),
        forall|i: int| 0 <= i < r@.len() ==> #[trigger] r@[i].1@ == deps@[r@[i].0@].path@,
{
    let keys = sorted_key_list(deps);
    let ghost ks = string_views(keys@);
    let mut out: Vec<(String, String)> = Vec::new();
    let mut i: usize = 0;
    while i < keys.len()
        invariant
            i <= keys@.len(),
            ks == string_views(keys@),
            ks.to_set() == deps@.dom(),
            out@.map_values(|p: (String, String)| p.0@) == ks.take(i as int),
            forall|j: int| 0 <= j < out@.len() ==> #[trigger] out@[j].1@ == deps@[out@[j].0@].path@,
        decreases keys@.len() - i,
    {
        let key = &keys[i];
        proof {
            assert(ks[i as int] == key@);
            assert(ks.to_set().contains(key@));
        }
        match deps.get(key.as_str()) {
            Some(dep) => {
                let ghost before = out@;
                let k = key.clone();
                let v = dep.path.clone();
                out.push((k, v));
                proof {
                    assert(out@[before.len() as int].1@ == deps@[out@[before.len() as int].0@].path@);
                    assert forall|j: int| 0 <= j < out@.len() implies #[trigger] out@[j].1@ == deps@[out@[j].0@].path@ by {
                        if j < before.len() {
                            assert(out@[j] == before[j]);
                        }
                    }
                    assert(out@.map_values(|p: (String, String)| p.0@) =~= before.map_values(
                        |p: (String, String)| p.0@,
                    ).push(key@));
                    assert(ks.take(i + 1) =~= ks.take(i as int).push(key@));
                }
            },
            None => {
                proof {
                    assert(false);
                }
            },
        }
        i += 1;
    }
    proof {
        assert(ks.take(keys@.len() as int) =~= ks);
    }
    out
}

/// The profile file path recorded for profile `name`.
pub open spec fn profile_file(name: Seq<char>) -> Seq<char> {
    "profiles/"@ + name + ".profile"@
}

/// The profile files recorded for the first `k` names.
pub open spec fn profile_files(names: Seq<Seq<char>>, k: int) -> Map<Seq<char>, Seq<char>>
    decreases k,
{
    if k <= 0 {
        Map::empty()
    } else {
        profile_files(names, k - 1).insert(names[k - 1], profile_file(names[k - 1]))
    }
}

/// What migrating the root workspace carries over into `Polylith.toml`, read
/// from the root manifest's text and the names of the profiles found under
/// `profiles/`: the `[workspace.package]` metadata, the libraries of
/// `[workspace.dependencies]` (path dependencies left out) with their TOML text,
/// and each profile's file path. Text that does not parse gives the parser's message.
pub fn plan_root_demotion(text: &str, profile_names: &Vec<String>) -> (r: Result<RootDemotionPlan, String>)
    ensures
        match toml_parse_failure(text@) {
            Some(m) => r matches Err(e) && e@ == m,
            None => r matches Ok(plan) && {
                &&& opt_meta_view(plan.workspace_package) == meta_at(text@, seq!["workspace"@, "package"@])
                &&& plan.libraries@.map_values(|i: ExternalDepInfo| info_view(i)) == libraries_at(
                    text@,
                    seq!["workspace"@, "dependencies"@],
                    true,
                    true,
                    true,
                )
                &&& plan.profiles@.map_values(|s: String| s@) == profile_files(
                    string_views(profile_names@),
                    profile_names@.len() as int,
                )
            },
        },
{
    if let Some(m) = parse_failure(text) {
        return Err(m);
    }
    let workspace_package = read_meta(text, &path2("workspace", "package"));
    let libraries = read_libraries(text, &path2("workspace", "dependencies"), true, true, true);
    let ghost nv = string_views(profile_names@);
    let mut profiles: StrMap<String> = StrMap::new();
    let mut i: usize = 0;
    proof {
        assert(profiles@.map_values(|s: String| s@) =~= Map::<Seq<char>, Seq<char>>::empty());
    }
    while i < profile_names.len()
        invariant
            i <= profile_names@.len(),
            nv == string_views(profile_names@),
            profiles@.map_values(|s: String| s@) == profile_files(nv, i as int),
        decreases profile_names@.len() - i,
    {
        let name = &profile_names[i];
        let mut file = owned("profiles/");
        file.append(name.as_str());
        file.append(".profile");
        let ghost before = profiles@;
        let ghost fv = file@;
        profiles.insert(name.clone(), file);
        proof {
            assert(nv[i as int] == name@);
            assert(fv == profile_file(name@));
            assert(profiles@.map_values(|s: String| s@) =~= before.map_values(|s: String| s@).insert(name@, fv));
        }
        i += 1;
    }
    Ok(RootDemotionPlan { workspace_package, libraries, profiles })
}

/// The `[package] version` a manifest's text declares; none when the text
/// does not parse or declares none.
pub fn extract_version_from_cargo_toml_content(content: &str) -> (r: Option<String>)
    ensures
        opt_chars(r) == toml_str_at(content@, seq!["package"@, "version"@]),
{
    str_at(content, &path2("package", "version"))
}

/// Whether a brick's manifest text takes its version from the workspace
/// (`version = { workspace = true }` under `[package]`); none when the text does
/// not parse.
pub fn uses_workspace_version(text: &str) -> (r: Option<bool>)
    ensures
        r == match toml_parse_failure(text@) {
            Some(_) => None,
            None => Some(toml_inline_bool(text@, seq!["package"@, "version"@], "workspace"@) == Some(true)),
        },
{
    if parse_failure(text).is_some() {
        return None;
    }
    match inline_bool(text, &path2("package", "version"), "workspace") {
        Some(b) => Some(b),
        None => Some(false),
    }
}

/// Whether the root manifest's text has a `[workspace.package]` table; text
/// that does not parse gives the parser's message.
pub fn root_has_workspace_package(text: &str) -> (r: Result<bool, String>)
    ensures
        match toml_parse_failure(text@) {
            Some(m) => r matches Err(e) && e@ == m,
            None => r == Ok::<bool, String>(toml_has(text@, seq!["workspace"@, "package"@])),
        },
{
    if let Some(m) = parse_failure(text) {
        return Err(m);
    }
    Ok(has_item(text, &path2("workspace", "package")))
}

// ---------------------------------------------------------------------------
// Whole directories of manifests.

impl Named for Brick {
    open spec fn key_view(&self) -> Seq<char> {
        self.name@
    }

    fn sort_key(&self) -> (r: &str) {
        self.name.as_str()
    }
}

impl Named for Project {
    open spec fn key_view(&self) -> Seq<char> {
        self.name@
    }

    fn sort_key(&self) -> (r: &str) {
        self.name.as_str()
    }
}

impl Named for Profile {
    open spec fn key_view(&self) -> Seq<char> {
        self.name@
    }

    fn sort_key(&self) -> (r: &str) {
        self.name.as_str()
    }
}

/// A manifest found on disk: the directory's name and path, the manifest's
/// path, and its text.
pub struct ManifestEntry {
    pub dir_name: String,
    pub path: PathBuf,
    pub manifest_path: PathBuf,
    pub text: String,
}

/// The manifest's text parses.
pub open spec fn entry_parses(e: ManifestEntry) -> bool {
    toml_parse_failure(e.text@) is None
}

/// `e` is the parse error of the manifest `m`.
pub open spec fn parse_error_of(e: WorkspaceError, path: PathBuf, text: Seq<char>) -> bool {
    match toml_parse_failure(text) {
        Some(m) => e matches WorkspaceError::TomlParse { path: p, source } && p == path && source@ == m,
        None => false,
    }
}

/// Reads every brick of one kind from its manifest and sorts them by name.
/// The first manifest, in the order given, that does not parse is the error.
pub fn bricks_from_manifests(kind: BrickKind, entries: Vec<ManifestEntry>) -> (r: Result<Vec<Brick>, WorkspaceError>)
    ensures
        match r {
            Err(e) => exists|i: int|
                0 <= i < entries@.len() && (forall|j: int| 0 <= j < i ==> entry_parses(#[trigger] entries@[j]))
                    && parse_error_of(e, entries@[i].manifest_path, entries@[i].text@),
            Ok(bs) => {
                &&& forall|i: int| 0 <= i < entries@.len() ==> entry_parses(#[trigger] entries@[i])
                &&& exists|made: Seq<Brick>|
                    {
                        &&& made.len() == entries@.len()
                        &&& forall|i: int|
                            0 <= i < entries@.len() ==> brick_read(
                                #[trigger] made[i],
                                kind,
                                entries@[i].path,
                                entries@[i].manifest_path,
                                entries@[i].dir_name@,
                                entries@[i].text@,
                            )
                        &&& bs@.to_multiset() == made.to_multiset()
                        &&& names_of(bs@) == names_of(made).sort_by(name_order())
                    }
            },
        },
{
    let ghost orig = entries@;
    let n = entries.len();
    let mut rest = entries;
    let mut made: Vec<Brick> = Vec::new();
    let mut i: usize = 0;
    while rest.len() > 0
        invariant
            orig.len() == n,
            orig == entries@,
            i <= orig.len(),
            rest@ == orig.skip(i as int),
            made@.len() == i,
            forall|j: int| 0 <= j < i ==> entry_parses(#[trigger] orig[j]),
            forall|j: int|
                0 <= j < i ==> brick_read(
                    #[trigger] made@[j],
                    kind,
                    orig[j].path,
                    orig[j].manifest_path,
                    orig[j].dir_name@,
                    orig[j].text@,
                ),
        decreases rest@.len(),
    {
        let ghost r0 = rest@;
        let e = rest.remove(0);
        proof {
            assert(e == orig[i as int]);
            assert(rest@ =~= orig.skip(i + 1));
        }
        let ManifestEntry { dir_name, path, manifest_path, text } = e;
        match brick_from_manifest(kind, path, manifest_path, dir_name.as_str(), text.as_str()) {
            Ok(b) => {
                made.push(b);
            },
            Err(err) => {
                proof {
                    let k = i as int;
                    assert(parse_error_of(err, orig[k].manifest_path, orig[k].text@));
                    assert(0 <= k < orig.len() && (forall|j: int| 0 <= j < k ==> entry_parses(#[trigger] orig[j]))
                        && parse_error_of(err, orig[k].manifest_path, orig[k].text@));
                }
                return Err(err);
            },
        }
        i += 1;
    }
    let sorted = sort_by_name(made);
    Ok(sorted)
}

/// Reads every project from its manifest and sorts them by name; manifests
/// that do not parse are passed over and listed, in the order given, with the
/// parser's message.
pub fn projects_from_manifests(entries: Vec<ManifestEntry>) -> (r: (Vec<Project>, Vec<(PathBuf, String)>))
    ensures
        exists|made: Seq<Project>, kept: Seq<ManifestEntry>|
            {
                &&& kept == parsed_entries(entries@)
                &&& made.len() == kept.len()
                &&& forall|i: int|
                    0 <= i < kept.len() ==> project_read(
                        #[trigger] made[i],
                        kept[i].path,
                        kept[i].dir_name@,
                        kept[i].text@,
                    )
                &&& r.0@.to_multiset() == made.to_multiset()
                &&& names_of(r.0@) == names_of(made).sort_by(name_order())
            },
        r.1@.map_values(|p: (PathBuf, String)| (p.0, p.1@)) == failures(entries@),
{
    let ghost orig = entries@;
    let n = entries.len();
    let mut rest = entries;
    let mut made: Vec<Project> = Vec::new();
    let mut skipped: Vec<(PathBuf, String)> = Vec::new();
    let mut i: usize = 0;
    proof {
        assert(parsed_entries(orig.take(0)) =~= Seq::<ManifestEntry>::empty());
        assert(skipped@.map_values(|p: (PathBuf, String)| (p.0, p.1@)) =~= failures(orig.take(0)));
    }
    while rest.len() > 0
        invariant
            orig.len() == n,
            i <= orig.len(),
            rest@ == orig.skip(i as int),
            made@.len() == parsed_entries(orig.take(i as int)).len(),
            forall|j: int|
                0 <= j < made@.len() ==> {
                    let k = parsed_entries(orig.take(i as int))[j];
                    project_read(#[trigger] made@[j], k.path, k.dir_name@, k.text@)
                },
            skipped@.map_values(|p: (PathBuf, String)| (p.0, p.1@)) == failures(orig.take(i as int)),
        decreases rest@.len(),
    {
        let e = rest.remove(0);
        let ghost pre = orig.take(i as int);
        proof {
            assert(e == orig[i as int]);
            assert(rest@ =~= orig.skip(i + 1));
            assert(orig.take(i + 1) =~= pre.push(e));
            assert(orig.take(i + 1).drop_last() =~= pre);
        }
        let ManifestEntry { dir_name, path, manifest_path, text } = e;
        let ghost tv = text@;
        match project_from_manifest(path, dir_name.as_str(), text.as_str()) {
            Ok(p) => {
                made.push(p);
            },
            Err(m) => {
                let ghost before = skipped@.map_values(|p: (PathBuf, String)| (p.0, p.1@));
                let ghost mv = m@;
                skipped.push((manifest_path, m));
                proof {
                    assert(skipped@.map_values(|p: (PathBuf, String)| (p.0, p.1@)) =~= before.push(
                        (orig[i as int].manifest_path, mv),
                    ));
                }
            },
        }
        i += 1;
    }
    proof {
        assert(orig.take(i as int) =~= orig);
    }
    let sorted = sort_by_name(made);
    (sorted, skipped)
}

/// The manifests among `es` that parse, in order.
pub open spec fn parsed_entries(es: Seq<ManifestEntry>) -> Seq<ManifestEntry>
    decreases es.len(),
{
    if es.len() == 0 {
        es
    } else if entry_parses(es.last()) {
        parsed_entries(es.drop_last()).push(es.last())
    } else {
        parsed_entries(es.drop_last())
    }
}

/// The manifests among `es` that do not parse, with the parser's message, in order.
pub open spec fn failures(es: Seq<ManifestEntry>) -> Seq<(PathBuf, Seq<char>)>
    decreases es.len(),
{
    if es.len() == 0 {
        Seq::<(PathBuf, Seq<char>)>::empty()
    } else {
        let p = failures(es.drop_last());
        match toml_parse_failure(es.last().text@) {
            Some(m) => p.push((es.last().manifest_path, m)),
            None => p,
        }
    }
}

/// A profile file found on disk: the profile's name, the file's path and text.
pub struct ProfileFile {
    pub name: String,
    pub path: PathBuf,
    pub text: String,
}

/// Reads every profile from its file and sorts them by name. The first file,
/// in the order given, that does not parse is the error.
pub fn profiles_from_files(files: Vec<ProfileFile>) -> (r: Result<Vec<Profile>, WorkspaceError>)
    ensures
        match r {
            Err(e) => exists|i: int|
                0 <= i < files@.len() && (forall|j: int|
                    0 <= j < i ==> toml_parse_failure((#[trigger] files@[j]).text@) is None) && parse_error_of(
                    e,
                    files@[i].path,
                    files@[i].text@,
                ),
            Ok(ps) => {
                &&& forall|i: int| 0 <= i < files@.len() ==> toml_parse_failure((#[trigger] files@[i]).text@) is None
                &&& exists|made: Seq<Profile>|
                    {
                        &&& made.len() == files@.len()
                        &&& forall|i: int|
                            0 <= i < files@.len() ==> profile_read(
                                #[trigger] made[i],
                                files@[i].name@,
                                files@[i].path,
                                files@[i].text@,
                            )
                        &&& ps@.to_multiset() == made.to_multiset()
                        &&& names_of(ps@) == names_of(made).sort_by(name_order())
                    }
            },
        },
{
    let ghost orig = files@;
    let n = files.len();
    let mut rest = files;
    let mut made: Vec<Profile> = Vec::new();
    let mut i: usize = 0;
    while rest.len() > 0
        invariant
            orig.len() == n,
            orig == files@,
            i <= orig.len(),
            rest@ == orig.skip(i as int),
            made@.len() == i,
            forall|j: int| 0 <= j < i ==> toml_parse_failure((#[trigger] orig[j]).text@) is None,
            forall|j: int| 0 <= j < i ==> profile_read(#[trigger] made@[j], orig[j].name@, orig[j].path, orig[j].text@),
        decreases rest@.len(),
    {
        let f = rest.remove(0);
        proof {
            assert(f == orig[i as int]);
            assert(rest@ =~= orig.skip(i + 1));
        }
        let ProfileFile { name, path, text } = f;
        match profile_from_text(name, path, text.as_str()) {
            Ok(p) => {
                made.push(p);
            },
            Err(err) => {
                proof {
                    let k = i as int;
                    assert(parse_error_of(err, orig[k].path, orig[k].text@));
                    assert(0 <= k < orig.len() && (forall|j: int|
                        0 <= j < k ==> toml_parse_failure((#[trigger] orig[j]).text@) is None) && parse_error_of(
                        err,
                        orig[k].path,
                        orig[k].text@,
                    ));
                }
                return Err(err);
            },
        }
        i += 1;
    }
    let sorted = sort_by_name(made);
    Ok(sorted)
}

// ---------------------------------------------------------------------------
// The workspace map.

/// A `[workspace.dependencies]` entry of the root manifest, as Cargo reads it:
/// its key, `path`, `version` (when written out), requirement (`*` when none)
/// and features.
pub struct WorkspaceDep {
    pub key: String,
    pub path: Option<String>,
    pub version: Option<String>,
    pub req: String,
    pub features: Vec<String>,
}

/// The root manifest: whether Cargo reads a `[workspace]` in it, the member
/// patterns and dependencies of that workspace, and the manifest's text.
pub struct RootManifest {
    pub is_workspace: bool,
    pub members: Vec<String>,
    pub deps: Vec<WorkspaceDep>,
    pub text: String,
}

/// The libraries among the workspace dependencies `ds`: the entries without a
/// path, each with its sorted features and its version (the one written out,
/// else the requirement unless it is `*`).
pub open spec fn workspace_libraries(ds: Seq<WorkspaceDep>) -> Map<
    Seq<char>,
    (Seq<Seq<char>>, Option<Seq<char>>, Option<Seq<char>>),
>
    decreases ds.len(),
{
    if ds.len() == 0 {
        Map::empty()
    } else {
        let p = workspace_libraries(ds.drop_last());
        let d = ds.last();
        if d.path is Some {
            p
        } else {
            let version = match d.version {
                Some(v) => Some(v@),
                None => not_star(Some(d.req@)),
            };
            p.insert(d.key@, (string_views(d.features@).sort_by(name_order()), version, None))
        }
    }
}

fn read_workspace_libraries(ds: &Vec<WorkspaceDep>) -> (r: StrMap<ExternalDepInfo>)
    ensures
        r@.map_values(|i: ExternalDepInfo| info_view(i)) == workspace_libraries(ds@),
{
    let mut out: StrMap<ExternalDepInfo> = StrMap::new();
    let mut i: usize = 0;
    proof {
        assert(ds@.take(0) =~= Seq::<WorkspaceDep>::empty());
        assert(out@.map_values(|i: ExternalDepInfo| info_view(i)) =~= Map::<
            Seq<char>,
            (Seq<Seq<char>>, Option<Seq<char>>, Option<Seq<char>>),
        >::empty());
    }
    while i < ds.len()
        invariant
            i <= ds@.len(),
            out@.map_values(|i: ExternalDepInfo| info_view(i)) == workspace_libraries(ds@.take(i as int)),
        decreases ds@.len() - i,
    {
        let d = &ds[i];
        proof {
            assert(ds@.take(i + 1).drop_last() =~= ds@.take(i as int));
            assert(ds@.take(i + 1).last() == *d);
        }
        if d.path.is_none() {
            let version = match &d.version {
                Some(v) => Some(v.clone()),
                None => if str_eq(d.req.as_str(), "*") {
                    None
                } else {
                    Some(d.req.clone())
                },
            };
            let features = crate::order::sort_strings(crate::graph::clone_names(&d.features));
            let info = ExternalDepInfo { features, version, raw: None };
            let ghost before = out@;
            let ghost iv = info_view(info);
            out.insert(d.key.clone(), info);
            proof {
                assert(out@.map_values(|i: ExternalDepInfo| info_view(i)) =~= before.map_values(
                    |i: ExternalDepInfo| info_view(i),
                ).insert(d.key@, iv));
            }
        }
        i += 1;
    }
    proof {
        assert(ds@.take(ds@.len() as int) =~= ds@);
    }
    out
}

fn copy_string(o: &Option<String>) -> (r: Option<String>)
    ensures
        opt_chars(r) == opt_chars(*o),
{
    match o {
        Some(s) => Some(s.clone()),
        None => None,
    }
}

/// A copy of a library table.
fn copy_libraries(m: &StrMap<ExternalDepInfo>) -> (r: StrMap<ExternalDepInfo>)
    ensures
        r@.map_values(|i: ExternalDepInfo| info_view(i)) == m@.map_values(|i: ExternalDepInfo| info_view(i)),
{
    let n = m.len();
    let ghost ks = m.key_seq();
    let mut out: StrMap<ExternalDepInfo> = StrMap::new();
    let mut i: usize = 0;
    proof {
        assert(ks.take(0).to_set() =~= Set::<Seq<char>>::empty());
    }
    while i < n
        invariant
            i <= n,
            n == ks.len(),
            ks == m.key_seq(),
            ks.no_duplicates(),
            m@.dom() == ks.to_set(),
            out@.dom() == ks.take(i as int).to_set(),
            forall|k: Seq<char>| #[trigger] out@.contains_key(k) ==> info_view(out@[k]) == info_view(m@[k]),
        decreases n - i,
    {
        let k = m.key_at(i);
        let v = m.value_at(i);
        let info = ExternalDepInfo {
            features: crate::graph::clone_names(&v.features),
            version: copy_string(&v.version),
            raw: copy_string(&v.raw),
        };
        out.insert(k.clone(), info);
        proof {
            assert(ks.take(i + 1) =~= ks.take(i as int).push(ks[i as int]));
            assert(ks.take(i + 1).to_set() =~= ks.take(i as int).to_set().insert(ks[i as int])) by {
                broadcast use vstd::seq_lib::group_seq_properties;
            }
        }
        i += 1;
    }
    proof {
        assert(ks.take(n as int) =~= ks);
        assert(out@.map_values(|i: ExternalDepInfo| info_view(i)) =~= m@.map_values(|i: ExternalDepInfo| info_view(i)));
    }
    out
}

/// The libraries the workspace map records: those of `Polylith.toml` when it
/// lists any, else those of the root manifest's `[workspace.dependencies]`.
pub open spec fn recorded_libraries(root_manifest: Option<RootManifest>, polylith_toml: Option<PolylithToml>) -> Map<
    Seq<char>,
    (Seq<Seq<char>>, Option<Seq<char>>, Option<Seq<char>>),
> {
    let own = match root_manifest {
        Some(r) => workspace_libraries(r.deps@),
        None => Map::empty(),
    };
    match polylith_toml {
        Some(p) => if p.libraries@.dom().len() > 0 {
            p.libraries@.map_values(|i: ExternalDepInfo| info_view(i))
        } else {
            own
        },
        None => own,
    }
}

/// Puts the workspace map together from what was read: the bricks and
/// projects, the root manifest (when there is one), `Polylith.toml` and the root
/// package metadata. The map is a workspace when Cargo reads a `[workspace]` in
/// the root manifest or when there is a `Polylith.toml`; its libraries are
/// those of `Polylith.toml` when it lists any; its indexes are built.
pub fn workspace_map_from(
    root: PathBuf,
    components: Vec<Brick>,
    bases: Vec<Brick>,
    projects: Vec<Project>,
    root_manifest: Option<RootManifest>,
    polylith_toml: Option<PolylithToml>,
    root_package_meta: Option<WorkspacePackageMeta>,
) -> (m: WorkspaceMap)
    ensures
        m.root == root,
        m.components@ == components@,
        m.bases@ == bases@,
        m.projects@ == projects@,
        string_views(m.root_members@) == match root_manifest {
            Some(r) => string_views(r.members@),
            None => Seq::<Seq<char>>::empty(),
        },
        m.is_workspace == ((root_manifest matches Some(r) && r.is_workspace) || polylith_toml is Some),
        m.root_workspace_deps@.map_values(|i: ExternalDepInfo| info_view(i)) == recorded_libraries(
            root_manifest,
            polylith_toml,
        ),
        m.root_workspace_interface_deps@.map_values(|d: WorkspacePathDep| path_dep_view(d)) == match root_manifest {
            Some(r) => interface_deps(r.text@),
            None => Map::<Seq<char>, (Seq<char>, Option<Seq<char>>)>::empty(),
        },
        m.polylith_toml == polylith_toml,
        m.root_package_meta == root_package_meta,
        m.indexes_consistent(),
{
    let (root_members, is_ws, own, interface) = match &root_manifest {
        Some(r) => (
            crate::graph::clone_names(&r.members),
            r.is_workspace,
            read_workspace_libraries(&r.deps),
            interface_path_deps(r.text.as_str()),
        ),
        None => {
            let e: Vec<String> = Vec::new();
            let own: StrMap<ExternalDepInfo> = StrMap::new();
            let interface: StrMap<WorkspacePathDep> = StrMap::new();
            proof {
                assert(string_views(e@) =~= Seq::<Seq<char>>::empty());
                assert(own@.map_values(|i: ExternalDepInfo| info_view(i)) =~= Map::<
                    Seq<char>,
                    (Seq<Seq<char>>, Option<Seq<char>>, Option<Seq<char>>),
                >::empty());
                assert(interface@.map_values(|d: WorkspacePathDep| path_dep_view(d)) =~= Map::<
                    Seq<char>,
                    (Seq<char>, Option<Seq<char>>),
                >::empty());
            }
            (e, false, own, interface)
        },
    };
    let root_workspace_deps = match &polylith_toml {
        Some(p) => if p.libraries.len() > 0 {
            copy_libraries(&p.libraries)
        } else {
            own
        },
        None => own,
    };
    let is_workspace = is_ws || polylith_toml.is_some();
    let component_by_name = index_by_name(&components);
    let component_by_interface = index_by_interface(&components);
    let base_by_name = index_by_name(&bases);
    WorkspaceMap {
        root,
        components,
        bases,
        projects,
        root_members,
        is_workspace,
        root_workspace_deps,
        root_workspace_interface_deps: interface,
        polylith_toml,
        root_package_meta,
        component_by_name,
        component_by_interface,
        base_by_name,
    }
}

// ---------------------------------------------------------------------------
// Replacing workspace inheritance in a manifest.

/// Whether `text` parses as a single TOML value.
pub uninterp spec fn toml_value_parses(text: Seq<char>) -> bool;

/// Parses `text` as a `toml_edit::Value` and says whether that succeeded.
#[verifier::external_body]
pub(crate) fn value_parses(text: &str) -> (r: bool)
    ensures
        r == toml_value_parses(text@),
{
    text.parse::<toml_edit::Value>().is_ok()
}

/// One change to a manifest that inherits from the workspace, or a warning
/// about an entry left as it is.
pub enum InheritanceEdit {
    /// Set `[package] field` to `value`.
    PackageField { field: String, value: String },
    /// Set `[package] authors` to `authors`.
    Authors { authors: Vec<String> },
    /// Set dependency `key` of `table` to the version string `version`.
    DepVersion { table: String, key: String, version: String },
    /// Set dependency `key` of `table` to the TOML value `raw`.
    DepRaw { table: String, key: String, raw: String },
    /// Set dependency `key` of `table` to an inline table of `version` (when
    /// given) and `features`.
    DepTable { table: String, key: String, version: Option<String>, features: Vec<String> },
    /// Leave an entry as it is, for the reason given.
    Warning { message: String },
}

/// An edit as plain values.
pub enum InheritanceView {
    PackageField(Seq<char>, Seq<char>),
    Authors(Seq<Seq<char>>),
    DepVersion(Seq<char>, Seq<char>, Seq<char>),
    DepRaw(Seq<char>, Seq<char>, Seq<char>),
    DepTable(Seq<char>, Seq<char>, Option<Seq<char>>, Seq<Seq<char>>),
    Warning(Seq<char>),
}

pub open spec fn inheritance_view(e: InheritanceEdit) -> InheritanceView {
    match e {
        InheritanceEdit::PackageField { field, value } => InheritanceView::PackageField(field@, value@),
        InheritanceEdit::Authors { authors } => InheritanceView::Authors(string_views(authors@)),
        InheritanceEdit::DepVersion { table, key, version } => InheritanceView::DepVersion(table@, key@, version@),
        InheritanceEdit::DepRaw { table, key, raw } => InheritanceView::DepRaw(table@, key@, raw@),
        InheritanceEdit::DepTable { table, key, version, features } => InheritanceView::DepTable(
            table@,
            key@,
            opt_chars(version),
            string_views(features@),
        ),
        InheritanceEdit::Warning { message } => InheritanceView::Warning(message@),
    }
}

/// Edits as plain values.
pub open spec fn inheritance_views(es: Seq<InheritanceEdit>) -> Seq<InheritanceView> {
    es.map_values(|e: InheritanceEdit| inheritance_view(e))
}

/// The item at `at` is `{ workspace = true }`.
pub open spec fn inherits(t: Seq<char>, at: Seq<Seq<char>>) -> bool {
    toml_bool_at(t, at.push("workspace"@)) == Some(true)
}

/// Setting `[package] field` from the metadata value `v`, when the field inherits.
pub open spec fn field_edit(t: Seq<char>, field: Seq<char>, v: Option<Seq<char>>) -> Seq<InheritanceView> {
    match v {
        Some(x) => if inherits(t, seq!["package"@, field]) {
            seq![InheritanceView::PackageField(field, x)]
        } else {
            Seq::<InheritanceView>::empty()
        },
        None => Seq::<InheritanceView>::empty(),
    }
}

/// The package fields that inherit from the workspace, set from `meta`.
pub open spec fn package_edits(t: Seq<char>, meta: Option<MetaView>) -> Seq<InheritanceView> {
    match meta {
        Some(m) => field_edit(t, "version"@, m.0) + field_edit(t, "edition"@, m.1) + field_edit(t, "license"@, m.3)
            + field_edit(t, "repository"@, m.4) + match m.2 {
            Some(a) => if inherits(t, seq!["package"@, "authors"@]) {
                seq![InheritanceView::Authors(a)]
            } else {
                Seq::<InheritanceView>::empty()
            },
            None => Seq::<InheritanceView>::empty(),
        },
        None => Seq::<InheritanceView>::empty(),
    }
}

/// The warning for a library that has no version to write.
pub open spec fn no_version_warning(k: Seq<char>) -> Seq<char> {
    "dep '"@ + k + "' uses workspace = true but Polylith.toml has no version — left unchanged"@
}

/// The warning for a library whose TOML text does not parse.
pub open spec fn bad_raw_warning(k: Seq<char>) -> Seq<char> {
    "dep '"@ + k + "' — could not parse raw value from Polylith.toml, left unchanged"@
}

/// The warning for an inheriting dependency that is no library.
pub open spec fn not_library_warning(k: Seq<char>) -> Seq<char> {
    "dep '"@ + k + "' uses workspace = true but is not in Polylith.toml [libraries] or [implementations] — left unchanged"@
}

/// What replaces inheriting dependency `k` of `table`, given the libraries.
pub open spec fn dep_edit(
    table: Seq<char>,
    k: Seq<char>,
    libs: Map<Seq<char>, (Seq<Seq<char>>, Option<Seq<char>>, Option<Seq<char>>)>,
) -> InheritanceView {
    if libs.contains_key(k) {
        let (features, version, raw) = libs[k];
        if features.len() == 0 {
            match version {
                Some(v) => InheritanceView::DepVersion(table, k, v),
                None => match raw {
                    Some(r) => if toml_value_parses(r) {
                        InheritanceView::DepRaw(table, k, r)
                    } else {
                        InheritanceView::Warning(bad_raw_warning(k))
                    },
                    None => InheritanceView::Warning(no_version_warning(k)),
                },
            }
        } else {
            InheritanceView::DepTable(table, k, version, features)
        }
    } else {
        InheritanceView::Warning(not_library_warning(k))
    }
}

/// The edits for the inheriting dependencies among `ks` of `table`.
pub open spec fn dep_edits_in(
    t: Seq<char>,
    table: Seq<char>,
    ks: Seq<Seq<char>>,
    libs: Map<Seq<char>, (Seq<Seq<char>>, Option<Seq<char>>, Option<Seq<char>>)>,
) -> Seq<InheritanceView>
    decreases ks.len(),
{
    if ks.len() == 0 {
        Seq::<InheritanceView>::empty()
    } else {
        let p = dep_edits_in(t, table, ks.drop_last(), libs);
        if inherits(t, seq![table, ks.last()]) {
            p.push(dep_edit(table, ks.last(), libs))
        } else {
            p
        }
    }
}

/// The edits for the inheriting dependencies of `table`.
pub open spec fn dep_edits(
    t: Seq<char>,
    table: Seq<char>,
    libs: Map<Seq<char>, (Seq<Seq<char>>, Option<Seq<char>>, Option<Seq<char>>)>,
) -> Seq<InheritanceView> {
    dep_edits_in(t, table, keys_at(t, seq![table]), libs)
}

/// Every edit that replaces workspace inheritance in the manifest text `t`.
pub open spec fn inheritance_edits_spec(
    t: Seq<char>,
    libs: Map<Seq<char>, (Seq<Seq<char>>, Option<Seq<char>>, Option<Seq<char>>)>,
    meta: Option<MetaView>,
) -> Seq<InheritanceView> {
    package_edits(t, meta) + dep_edits(t, "dependencies"@, libs) + dep_edits(t, "dev-dependencies"@, libs)
        + dep_edits(t, "build-dependencies"@, libs)
}

fn push_field_edit(out: &mut Vec<InheritanceEdit>, text: &str, field: &str, v: &Option<String>)
    ensures
        inheritance_views(final(out)@) == inheritance_views(old(out)@) + field_edit(text@, field@, opt_chars(*v)),
{
    match v {
        Some(x) => {
            let inh = bool_at(text, &path3("package", field, "workspace"));
            let ghost before = inheritance_views(out@);
            if inh == Some(true) {
                out.push(InheritanceEdit::PackageField { field: owned(field), value: x.clone() });
            }
            proof {
                assert(seq!["package"@, field@].push("workspace"@) =~= seq!["package"@, field@, "workspace"@]);
                assert(inheritance_views(out@) =~= before + field_edit(text@, field@, opt_chars(*v)));
            }
        },
        None => {
            proof {
                assert(inheritance_views(out@) =~= inheritance_views(out@) + field_edit(text@, field@, opt_chars(*v)));
            }
        },
    }
}

/// What replaces an inheriting dependency.
fn dep_edit_of(table: &str, k: &str, libs: &StrMap<ExternalDepInfo>) -> (r: InheritanceEdit)
    ensures
        inheritance_view(r) == dep_edit(table@, k@, libs@.map_values(|i: ExternalDepInfo| info_view(i))),
{
    match libs.get(k) {
        Some(info) => {
            if info.features.len() == 0 {
                match &info.version {
                    Some(v) => InheritanceEdit::DepVersion { table: owned(table), key: owned(k), version: v.clone() },
                    None => match &info.raw {
                        Some(r) => if value_parses(r.as_str()) {
                            InheritanceEdit::DepRaw { table: owned(table), key: owned(k), raw: r.clone() }
                        } else {
                            let mut m = owned("dep '");
                            m.append(k);
                            m.append("' — could not parse raw value from Polylith.toml, left unchanged");
                            InheritanceEdit::Warning { message: m }
                        },
                        None => {
                            let mut m = owned("dep '");
                            m.append(k);
                            m.append("' uses workspace = true but Polylith.toml has no version — left unchanged");
                            InheritanceEdit::Warning { message: m }
                        },
                    },
                }
            } else {
                InheritanceEdit::DepTable {
                    table: owned(table),
                    key: owned(k),
                    version: copy_string(&info.version),
                    features: crate::graph::clone_names(&info.features),
                }
            }
        },
        None => {
            let mut m = owned("dep '");
            m.append(k);
            m.append(
                "' uses workspace = true but is not in Polylith.toml [libraries] or [implementations] — left unchanged",
            );
            InheritanceEdit::Warning { message: m }
        },
    }
}

fn push_dep_edits(out: &mut Vec<InheritanceEdit>, text: &str, table: &str, libs: &StrMap<ExternalDepInfo>)
    ensures
        inheritance_views(final(out)@) == inheritance_views(old(out)@) + dep_edits(
            text@,
            table@,
            libs@.map_values(|i: ExternalDepInfo| info_view(i)),
        ),
{
    let ghost lv = libs@.map_values(|i: ExternalDepInfo| info_view(i));
    let keys = keys_or_none(text, &path1(table));
    let ghost kv = string_views(keys@);
    let ghost start = inheritance_views(out@);
    let mut i: usize = 0;
    proof {
        assert(kv.take(0) =~= Seq::<Seq<char>>::empty());
        assert(start + dep_edits_in(text@, table@, kv.take(0), lv) =~= start);
    }
    while i < keys.len()
        invariant
            i <= keys@.len(),
            kv == string_views(keys@),
            kv == keys_at(text@, seq![table@]),
            lv == libs@.map_values(|i: ExternalDepInfo| info_view(i)),
            inheritance_views(out@) == start + dep_edits_in(text@, table@, kv.take(i as int), lv),
        decreases keys@.len() - i,
    {
        let k = &keys[i];
        proof {
            assert(kv.take(i + 1).drop_last() =~= kv.take(i as int));
            assert(kv.take(i + 1).last() == k@);
            assert(seq![table@, k@].push("workspace"@) =~= seq![table@, k@, "workspace"@]);
        }
        if bool_at(text, &path3(table, k.as_str(), "workspace")) == Some(true) {
            let e = dep_edit_of(table, k.as_str(), libs);
            let ghost before = inheritance_views(out@);
            out.push(e);
            proof {
                assert(inheritance_views(out@) =~= before.push(inheritance_view(e)));
            }
        }
        i += 1;
    }
    proof {
        assert(kv.take(keys@.len() as int) =~= kv);
    }
}

/// What replaces workspace inheritance in a brick's or project's manifest
/// text: each package field written `{ workspace = true }` takes the
/// workspace metadata's value, when it has one; each dependency written so
/// takes the library's version, TOML text or features from `Polylith.toml`,
/// and one that is no library is left with a warning. Text that does not
/// parse gives the parser's message.
pub fn inheritance_edits(text: &str, polylith_toml: &PolylithToml, meta: Option<&WorkspacePackageMeta>) -> (r:
    Result<Vec<InheritanceEdit>, String>)
    ensures
        match toml_parse_failure(text@) {
            Some(m) => r matches Err(e) && e@ == m,
            None => r matches Ok(es) && inheritance_views(es@) == inheritance_edits_spec(
                text@,
                polylith_toml.libraries@.map_values(|i: ExternalDepInfo| info_view(i)),
                match meta {
                    Some(m) => Some(meta_view(*m)),
                    None => None,
                },
            ),
        },
{
    if let Some(m) = parse_failure(text) {
        return Err(m);
    }
    let mut out: Vec<InheritanceEdit> = Vec::new();
    proof {
        assert(inheritance_views(out@) =~= Seq::<InheritanceView>::empty());
    }
    match meta {
        Some(m) => {
            push_field_edit(&mut out, text, "version", &m.version);
            push_field_edit(&mut out, text, "edition", &m.edition);
            push_field_edit(&mut out, text, "license", &m.license);
            push_field_edit(&mut out, text, "repository", &m.repository);
            match &m.authors {
                Some(a) => {
                    if bool_at(text, &path3("package", "authors", "workspace")) == Some(true) {
                        let ghost before = inheritance_views(out@);
                        out.push(InheritanceEdit::Authors { authors: crate::graph::clone_names(a) });
                        proof {
                            assert(inheritance_views(out@) =~= before.push(InheritanceView::Authors(string_views(a@))));
                        }
                    }
                },
                None => {},
            }
            proof {
                assert(seq!["package"@, "authors"@].push("workspace"@) =~= seq!["package"@, "authors"@, "workspace"@]);
            }
        },
        None => {},
    }
    push_dep_edits(&mut out, text, "dependencies", &polylith_toml.libraries);
    push_dep_edits(&mut out, text, "dev-dependencies", &polylith_toml.libraries);
    push_dep_edits(&mut out, text, "build-dependencies", &polylith_toml.libraries);
    Ok(out)
}

// ---------------------------------------------------------------------------
// Moving package metadata out of Polylith.toml.

/// All package metadata of the table at `at`, whether or not it holds any.
pub open spec fn meta_fields(t: Seq<char>, at: Seq<Seq<char>>) -> MetaView {
    (
        toml_str_at(t, at.push("version"@)),
        toml_str_at(t, at.push("edition"@)),
        toml_str_array(t, at.push("authors"@)),
        toml_str_at(t, at.push("license"@)),
        toml_str_at(t, at.push("repository"@)),
    )
}

/// The `[workspace.package]` table of `Polylith.toml`'s text, when there is
/// one; text that does not parse gives the parser's message.
pub fn read_polylith_workspace_package(text: &str) -> (r: Result<Option<WorkspacePackageMeta>, String>)
    ensures
        match toml_parse_failure(text@) {
            Some(m) => r matches Err(e) && e@ == m,
            None => r matches Ok(o) && opt_meta_view(o) == if toml_has(text@, seq!["workspace"@, "package"@]) {
                Some(meta_fields(text@, seq!["workspace"@, "package"@]))
            } else {
                None
            },
        },
{
    if let Some(m) = parse_failure(text) {
        return Err(m);
    }
    let at = path2("workspace", "package");
    if !has_item(text, &at) {
        return Ok(None);
    }
    Ok(
        Some(
            WorkspacePackageMeta {
                version: str_at(text, &child(&at, "version")),
                edition: str_at(text, &child(&at, "edition")),
                authors: str_array(text, &child(&at, "authors")),
                license: str_at(text, &child(&at, "license")),
                repository: str_at(text, &child(&at, "repository")),
            },
        ),
    )
}

/// The fields moved into the root `[package]`, as written there; unlike a
/// profile's manifest, an empty author list is kept.
pub open spec fn moved_fields(m: MetaView) -> Seq<Seq<char>> {
    crate::discover::opt_line("version"@, m.0) + crate::discover::opt_line("edition"@, m.1) + match m.2 {
        Some(a) => seq!["authors = ["@ + crate::check::join_spec(crate::discover::quoted(a), ", "@) + "]"@],
        None => Seq::<Seq<char>>::empty(),
    } + crate::discover::opt_line("license"@, m.3) + crate::discover::opt_line("repository"@, m.4)
}

/// What moving the metadata `m` reports.
pub open spec fn move_summary(m: MetaView) -> Seq<char> {
    let fields = moved_fields(m);
    if fields.len() == 0 {
        "Polylith.toml [workspace.package] removed; no recognized fields to migrate"@
    } else {
        "Migrated from Polylith.toml [workspace.package] to root Cargo.toml [package]: "@
            + crate::check::join_spec(fields, ", "@)
    }
}

fn push_moved(out: &mut Vec<String>, key: &str, v: &Option<String>)
    ensures
        string_views(final(out)@) == string_views(old(out)@) + crate::discover::opt_line(key@, opt_chars(*v)),
{
    match v {
        Some(x) => {
            let mut l = owned(key);
            l.append(" = \"");
            l.append(x.as_str());
            l.append("\"");
            let ghost before = string_views(out@);
            out.push(l);
            proof {
                assert(string_views(out@) =~= before + crate::discover::opt_line(key@, opt_chars(*v)));
            }
        },
        None => {
            proof {
                assert(string_views(out@) =~= string_views(out@) + crate::discover::opt_line(key@, opt_chars(*v)));
            }
        },
    }
}

/// The report of moving the metadata `m` into the root `[package]` (see [`move_summary`]).
pub fn package_move_summary(m: &WorkspacePackageMeta) -> (r: String)
    ensures
        r@ == move_summary(meta_view(*m)),
{
    let mut fields: Vec<String> = Vec::new();
    proof {
        assert(string_views(fields@) =~= Seq::<Seq<char>>::empty());
    }
    push_moved(&mut fields, "version", &m.version);
    push_moved(&mut fields, "edition", &m.edition);
    match &m.authors {
        Some(a) => {
            let mut l = owned("authors = [");
            l.append(crate::check::join(&crate::discover::quote_all(a), ", ").as_str());
            l.append("]");
            let ghost before = string_views(fields@);
            fields.push(l);
            proof {
                assert(string_views(fields@) =~= before.push(l@));
            }
        },
        None => {},
    }
    push_moved(&mut fields, "license", &m.license);
    push_moved(&mut fields, "repository", &m.repository);
    proof {
        assert(string_views(fields@) =~= moved_fields(meta_view(*m)));
    }
    if fields.len() == 0 {
        owned("Polylith.toml [workspace.package] removed; no recognized fields to migrate")
    } else {
        let mut r = owned("Migrated from Polylith.toml [workspace.package] to root Cargo.toml [package]: ");
        r.append(crate::check::join(&fields, ", ").as_str());
        r
    }
}

} // verus!
