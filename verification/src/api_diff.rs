//! The public API surface of a Rust source file, and how two versions of it differ.
//!
//! The source is parsed by `syn`; the parse is read into the plain shapes below,
//! and everything after that (which items count, how each is written, the order,
//! the comparison) is this module's own, verified logic.
use vstd::prelude::*;

use quote::ToTokens;

use crate::check::{join, join_spec};
use crate::corsett::string_views;
use crate::order::{lemma_lex_asymmetric, lemma_lex_irreflexive, lemma_lex_total, lemma_lex_transitive, lex_less, lex_lt};
use crate::text::{decimal, decimal_spec, occurs, owned, str_eq, trim, trim_spec};
use vstd::relations::{sorted_by, total_ordering};

verus! {

/// A function parameter: a `self` receiver, or a typed parameter written as its type.
pub enum ArgShape {
    Receiver { by_ref: bool, mutable: bool },
    Typed(String),
}

/// A function signature: name, generic parameters, parameters and return type.
pub struct SigShape {
    pub name: String,
    /// Each generic parameter as written.
    pub generics: Vec<String>,
    pub args: Vec<ArgShape>,
    /// The return type as written; `None` for `()` by default.
    pub ret: Option<String>,
}

/// A struct or variant field.
pub struct FieldShape {
    /// Declared `pub` (not `pub(crate)` or `pub(super)`).
    pub public: bool,
    /// `None` for a tuple field.
    pub name: Option<String>,
    /// The field's type as written.
    pub ty: String,
}

/// The fields of a struct or variant.
pub enum FieldsShape {
    Named(Vec<FieldShape>),
    Unnamed(Vec<FieldShape>),
    Unit,
}

/// An enum variant.
pub struct VariantShape {
    pub name: String,
    pub fields: FieldsShape,
}

/// The tree of a `use` item.
pub enum UseShape {
    Path(String, Box<UseShape>),
    Name(String),
    Rename(String, String),
    Glob,
    Group(Vec<UseShape>),
}

/// A top-level item of a source file, as far as its public API goes.
pub enum ItemShape {
    Fn { public: bool, sig: SigShape },
    Struct { public: bool, name: String, generics: Vec<String>, fields: FieldsShape },
    Enum { public: bool, name: String, generics: Vec<String>, variants: Vec<VariantShape> },
    /// `members` has one entry per trait item: its signature for a method, `None` otherwise.
    Trait { public: bool, name: String, generics: Vec<String>, members: Vec<Option<SigShape>> },
    Type { public: bool, name: String, generics: Vec<String>, target: String },
    Const { public: bool, name: String, ty: String },
    Static { public: bool, name: String, ty: String },
    Use { public: bool, tree: UseShape },
    Other,
}

/// Represents a single public API item extracted from source code.
#[derive(Debug, Clone, PartialEq, Eq, PartialOrd, Ord)]
pub struct PubApiItem {
    /// "fn", "struct", "enum", "trait", "type", "const", "static" or "use".
    pub kind: &'static str,
    /// The normalized signature (no body, no docs).
    pub signature: String,
}

/// Result of comparing two API surfaces.
#[derive(Debug, Clone, Copy, PartialEq, Eq, Structural)]
pub enum ApiDiff {
    Unchanged,
    InterfaceChanged,
    InternalsOnly,
}

/// An API item as its kind and signature.
pub open spec fn item_view(p: PubApiItem) -> (Seq<char>, Seq<char>) {
    (p.kind@, p.signature@)
}

/// A list of API items as kinds and signatures.
pub open spec fn items_view(s: Seq<PubApiItem>) -> Seq<(Seq<char>, Seq<char>)> {
    s.map_values(|p: PubApiItem| item_view(p))
}

/// Generic parameters as `<A, B>`, or nothing when there are none.
pub open spec fn generics_text(gs: Seq<String>) -> Seq<char> {
    if gs.len() == 0 {
        Seq::empty()
    } else {
        "<"@ + join_spec(string_views(gs), ", "@) + ">"@
    }
}

/// A parameter as the signature writes it: `self`, `&self`, `&mut self` or its type.
pub open spec fn arg_text(a: ArgShape) -> Seq<char> {
    match a {
        ArgShape::Receiver { by_ref, mutable } => (if by_ref {
            "&"@ + if mutable {
                "mut "@
            } else {
                Seq::empty()
            }
        } else {
            Seq::empty()
        }) + "self"@,
        ArgShape::Typed(t) => t@,
    }
}

/// The parameters, comma-separated.
pub open spec fn args_text(args: Seq<ArgShape>) -> Seq<char> {
    join_spec(args.map_values(|a: ArgShape| arg_text(a)), ", "@)
}

/// ` -> T`, or nothing for the default return type.
pub open spec fn ret_text(r: Option<String>) -> Seq<char> {
    match r {
        None => Seq::empty(),
        Some(t) => " -> "@ + t@,
    }
}

/// A free function's signature: `fn name<G>(args) -> T`.
pub open spec fn fn_text(s: SigShape) -> Seq<char> {
    "fn "@ + s.name@ + generics_text(s.generics@) + "("@ + args_text(s.args@) + ")"@ + ret_text(s.ret)
}

/// A trait method's signature: `fn name(args) -> T`, without generics.
pub open spec fn method_text(s: SigShape) -> Seq<char> {
    "fn "@ + s.name@ + "("@ + args_text(s.args@) + ")"@ + ret_text(s.ret)
}

/// A field's name, or nothing for a tuple field.
pub open spec fn field_name(f: FieldShape) -> Seq<char> {
    match f.name {
        Some(n) => n@,
        None => Seq::empty(),
    }
}

/// The public named fields as `name: Type`, in order.
pub open spec fn named_pub_fields(fs: Seq<FieldShape>) -> Seq<Seq<char>>
    decreases fs.len(),
{
    if fs.len() == 0 {
        Seq::empty()
    } else {
        let f = fs.last();
        if f.public {
            named_pub_fields(fs.drop_last()).push(field_name(f) + ": "@ + f.ty@)
        } else {
            named_pub_fields(fs.drop_last())
        }
    }
}

/// The public tuple fields as `index: Type`, in order.
pub open spec fn unnamed_pub_fields(fs: Seq<FieldShape>) -> Seq<Seq<char>>
    decreases fs.len(),
{
    if fs.len() == 0 {
        Seq::empty()
    } else {
        let f = fs.last();
        if f.public {
            unnamed_pub_fields(fs.drop_last()).push(decimal_spec((fs.len() - 1) as nat) + ": "@ + f.ty@)
        } else {
            unnamed_pub_fields(fs.drop_last())
        }
    }
}

/// The entry of the tuple field at position `i`: its position among all the
/// fields, then its type.
pub open spec fn tuple_field_entry(i: int, ty: Seq<char>) -> Seq<char> {
    decimal_spec(i as nat) + ": "@ + ty
}

/// Law: the public tuple fields are listed by their positions among all the
/// struct's fields: every public field at position `i` is listed as `i: Type`,
/// and every listed entry is such a field. Moving a public field to another
/// position changes the list.
pub proof fn law_tuple_fields_keep_positions(fs: Seq<FieldShape>)
    ensures
        forall|i: int|
            0 <= i < fs.len() && (#[trigger] fs[i]).public ==> unnamed_pub_fields(fs).contains(
                tuple_field_entry(i, fs[i].ty@),
            ),
        forall|e: Seq<char>|
            #[trigger] unnamed_pub_fields(fs).contains(e) ==> exists|i: int|
                0 <= i < fs.len() && fs[i].public && e == tuple_field_entry(i, (#[trigger] fs[i]).ty@),
    decreases fs.len(),
{
    if fs.len() > 0 {
        let p = fs.drop_last();
        law_tuple_fields_keep_positions(p);
        let n = fs.len() - 1;
        let u = unnamed_pub_fields(fs);
        let up = unnamed_pub_fields(p);
        assert forall|i: int| 0 <= i < fs.len() && (#[trigger] fs[i]).public implies u.contains(
            tuple_field_entry(i, fs[i].ty@),
        ) by {
            if i < n {
                assert(p[i] == fs[i]);
                let k = choose|k: int| 0 <= k < up.len() && up[k] == tuple_field_entry(i, p[i].ty@);
                if fs.last().public {
                    assert(u[k] == up[k]);
                } else {
                    assert(u == up);
                }
            } else {
                assert(u[up.len() as int] == tuple_field_entry(i, fs[i].ty@));
            }
        }
        assert forall|e: Seq<char>| #[trigger] u.contains(e) implies exists|i: int|
            0 <= i < fs.len() && fs[i].public && e == tuple_field_entry(i, (#[trigger] fs[i]).ty@) by {
            let k = choose|k: int| 0 <= k < u.len() && u[k] == e;
            if fs.last().public && k == up.len() {
                assert(fs[n].public && e == tuple_field_entry(n, fs[n].ty@));
            } else {
                assert(u[k] == up[k]);
                assert(up.contains(e));
                let i = choose|i: int| 0 <= i < p.len() && p[i].public && e == tuple_field_entry(i, (#[trigger] p[i]).ty@);
                assert(fs[i] == p[i]);
            }
        }
    }
}

/// Law: in a tuple struct's entry, every public field stands as `i: Type`
/// with `i` its position among all the fields.
pub proof fn law_tuple_struct_entry_keeps_positions(v: Vec<FieldShape>, i: int)
    requires
        0 <= i < v@.len(),
        v@[i].public,
    ensures
        occurs(tuple_field_entry(i, v@[i].ty@), struct_fields_text(FieldsShape::Unnamed(v))),
{
    law_tuple_fields_keep_positions(v@);
    let u = unnamed_pub_fields(v@);
    let k = choose|k: int| 0 <= k < u.len() && u[k] == tuple_field_entry(i, v@[i].ty@);
    crate::discover::lemma_join_keeps_parts(u, ", "@, k);
}

/// The public fields of a struct, comma-separated.
pub open spec fn struct_fields_text(f: FieldsShape) -> Seq<char> {
    match f {
        FieldsShape::Named(v) => join_spec(named_pub_fields(v@), ", "@),
        FieldsShape::Unnamed(v) => join_spec(unnamed_pub_fields(v@), ", "@),
        FieldsShape::Unit => Seq::empty(),
    }
}

/// A variant as written in the enum's signature; all its fields count.
pub open spec fn variant_text(v: VariantShape) -> Seq<char> {
    match v.fields {
        FieldsShape::Named(fs) => v.name@ + " { "@ + join_spec(
            fs@.map_values(|f: FieldShape| field_name(f) + ": "@ + f.ty@),
            ", "@,
        ) + " }"@,
        FieldsShape::Unnamed(fs) => v.name@ + "("@ + join_spec(fs@.map_values(|f: FieldShape| f.ty@), ", "@)
            + ")"@,
        FieldsShape::Unit => v.name@,
    }
}

/// The methods of a trait, in order; other trait items do not count.
pub open spec fn trait_methods(ms: Seq<Option<SigShape>>) -> Seq<Seq<char>>
    decreases ms.len(),
{
    if ms.len() == 0 {
        Seq::empty()
    } else {
        match ms.last() {
            Some(s) => trait_methods(ms.drop_last()).push(method_text(s)),
            None => trait_methods(ms.drop_last()),
        }
    }
}

/// A `use` tree as written: `a::b`, `x as y`, `*`, `{a, b}`.
pub open spec fn use_text(u: UseShape) -> Seq<char>
    decreases u, 0int,
{
    match u {
        UseShape::Path(p, t) => p@ + "::"@ + use_text(*t),
        UseShape::Name(n) => n@,
        UseShape::Rename(a, b) => a@ + " as "@ + b@,
        UseShape::Glob => "*"@,
        UseShape::Group(items) => "{"@ + use_list_text(items@, items@.len() as int) + "}"@,
    }
}

/// The first `k` trees of a group, comma-separated.
pub open spec fn use_list_text(items: Seq<UseShape>, k: int) -> Seq<char>
    decreases items, k,
{
    if k <= 0 || k > items.len() {
        Seq::empty()
    } else if k == 1 {
        use_text(items[0])
    } else {
        use_list_text(items, k - 1) + ", "@ + use_text(items[k - 1])
    }
}

/// The API entry of an item: its kind and signature, when the item is `pub`.
pub open spec fn api_entry(i: ItemShape) -> Option<(Seq<char>, Seq<char>)> {
    match i {
        ItemShape::Fn { public, sig } => if public {
            Some(("fn"@, fn_text(sig)))
        } else {
            None
        },
        ItemShape::Struct { public, name, generics, fields } => if public {
            Some(
                (
                    "struct"@,
                    "struct "@ + name@ + generics_text(generics@) + " { "@ + struct_fields_text(fields) + " }"@,
                ),
            )
        } else {
            None
        },
        ItemShape::Enum { public, name, generics, variants } => if public {
            Some(
                (
                    "enum"@,
                    "enum "@ + name@ + generics_text(generics@) + " { "@ + join_spec(
                        variants@.map_values(|v: VariantShape| variant_text(v)),
                        ", "@,
                    ) + " }"@,
                ),
            )
        } else {
            None
        },
        ItemShape::Trait { public, name, generics, members } => if public {
            Some(
                (
                    "trait"@,
                    "trait "@ + name@ + generics_text(generics@) + " { "@ + join_spec(trait_methods(members@), ", "@)
                        + " }"@,
                ),
            )
        } else {
            None
        },
        ItemShape::Type { public, name, generics, target } => if public {
            Some(("type"@, "type "@ + name@ + generics_text(generics@) + " = "@ + target@))
        } else {
            None
        },
        ItemShape::Const { public, name, ty } => if public {
            Some(("const"@, "const "@ + name@ + ": "@ + ty@))
        } else {
            None
        },
        ItemShape::Static { public, name, ty } => if public {
            Some(("static"@, "static "@ + name@ + ": "@ + ty@))
        } else {
            None
        },
        ItemShape::Use { public, tree } => if public {
            Some(("use"@, "use "@ + use_text(tree)))
        } else {
            None
        },
        ItemShape::Other => None,
    }
}

/// The API entries of the items, in source order.
pub open spec fn api_entries(shapes: Seq<ItemShape>) -> Seq<(Seq<char>, Seq<char>)>
    decreases shapes.len(),
{
    if shapes.len() == 0 {
        Seq::empty()
    } else {
        api_entries(shapes.drop_last()) + match api_entry(shapes.last()) {
            Some(e) => seq![e],
            None => Seq::empty(),
        }
    }
}

/// `a` sorts before `b`: by kind, then by signature.
pub open spec fn entry_lt(a: (Seq<char>, Seq<char>), b: (Seq<char>, Seq<char>)) -> bool {
    lex_lt(a.0, b.0) || (a.0 == b.0 && lex_lt(a.1, b.1))
}

/// `a` sorts before `b` or equals it.
pub open spec fn entry_leq(a: (Seq<char>, Seq<char>), b: (Seq<char>, Seq<char>)) -> bool {
    entry_lt(a, b) || a == b
}

/// The order of API entries, as a relation.
pub open spec fn api_order() -> spec_fn((Seq<char>, Seq<char>), (Seq<char>, Seq<char>)) -> bool {
    |a: (Seq<char>, Seq<char>), b: (Seq<char>, Seq<char>)| entry_leq(a, b)
}

/// The public API of the items: their entries, sorted.
pub open spec fn sorted_api(shapes: Seq<ItemShape>) -> Seq<(Seq<char>, Seq<char>)> {
    api_entries(shapes).sort_by(api_order())
}

/// Entries are totally ordered by kind, then signature.
pub proof fn lemma_entry_order()
    ensures
        total_ordering(api_order()),
{
    let leq = api_order();
    assert forall|x: (Seq<char>, Seq<char>), y: (Seq<char>, Seq<char>)| #[trigger] leq(x, y) && #[trigger] leq(
        y,
        x,
    ) implies x == y by {
        if lex_lt(x.0, y.0) {
            lemma_lex_asymmetric(x.0, y.0);
        }
        if lex_lt(x.1, y.1) {
            lemma_lex_asymmetric(x.1, y.1);
        }
        if lex_lt(y.0, x.0) {
            lemma_lex_asymmetric(y.0, x.0);
        }
    }
    assert forall|x: (Seq<char>, Seq<char>), y: (Seq<char>, Seq<char>), z: (Seq<char>, Seq<char>)| #[trigger] leq(
        x,
        y,
    ) && #[trigger] leq(y, z) implies leq(x, z) by {
        if lex_lt(x.0, y.0) && lex_lt(y.0, z.0) {
            lemma_lex_transitive(x.0, y.0, z.0);
        }
        if lex_lt(x.1, y.1) && lex_lt(y.1, z.1) {
            lemma_lex_transitive(x.1, y.1, z.1);
        }
    }
    assert forall|x: (Seq<char>, Seq<char>), y: (Seq<char>, Seq<char>)| #[trigger] leq(x, y) || #[trigger] leq(
        y,
        x,
    ) by {
        lemma_lex_total(x.0, y.0);
        lemma_lex_total(x.1, y.1);
    }
}

/// Whether `a` sorts before `b`.
fn item_less(a: &PubApiItem, b: &PubApiItem) -> (r: bool)
    ensures
        r == entry_lt(item_view(*a), item_view(*b)),
{
    if lex_less(a.kind, b.kind) {
        true
    } else if str_eq(a.kind, b.kind) {
        lex_less(a.signature.as_str(), b.signature.as_str())
    } else {
        false
    }
}

/// Sorts the items by kind, then signature.
fn sort_items(items: Vec<PubApiItem>) -> (r: Vec<PubApiItem>)
    ensures
        items_view(r@) == items_view(items@).sort_by(api_order()),
{
    let ghost leq = api_order();
    proof {
        lemma_entry_order();
    }
    let mut out: Vec<PubApiItem> = Vec::new();
    let mut i: usize = 0;
    proof {
        assert(items_view(out@) =~= items_view(items@).take(0));
    }
    while i < items.len()
        invariant
            i <= items@.len(),
            leq == api_order(),
            total_ordering(leq),
            sorted_by(items_view(out@), leq),
            items_view(out@).to_multiset() == items_view(items@).take(i as int).to_multiset(),
        decreases items@.len() - i,
    {
        let x = PubApiItem { kind: items[i].kind, signature: items[i].signature.clone() };
        proof {
            assert(item_view(x) == item_view(items@[i as int]));
        }
        let ghost before = items_view(out@);
        let mut p: usize = 0;
        while p < out.len() && !item_less(&x, &out[p])
            invariant
                p <= out@.len(),
                leq == api_order(),
                before == items_view(out@),
                forall|k: int| 0 <= k < p ==> leq(#[trigger] before[k], item_view(x)),
            decreases out@.len() - p,
        {
            proof {
                assert(before[p as int] == item_view(out@[p as int]));
                lemma_lex_total(item_view(x).0, before[p as int].0);
                lemma_lex_total(item_view(x).1, before[p as int].1);
            }
            p += 1;
        }
        proof {
            if p < out.len() {
                assert(before[p as int] == item_view(out@[p as int]));
                assert(entry_lt(item_view(x), before[p as int]));
            }
        }
        out.insert(p, x);
        proof {
            let v = item_view(x);
            let after = items_view(out@);
            assert(after =~= before.insert(p as int, v));
            assert forall|a: int, b: int| 0 <= a < b < after.len() implies #[trigger] leq(after[a], after[b]) by {
                if b < p {
                    assert(after[a] == before[a] && after[b] == before[b]);
                } else if b == p {
                    assert(after[a] == before[a]);
                } else if a < p {
                    assert(after[a] == before[a] && after[b] == before[b - 1]);
                    assert(leq(v, before[p as int]));
                    assert(leq(before[p as int], before[b - 1]) || b - 1 == p);
                } else if a == p {
                    assert(after[b] == before[b - 1]);
                    assert(leq(v, before[p as int]));
                    assert(leq(before[p as int], before[b - 1]) || b - 1 == p);
                } else {
                    assert(after[a] == before[a - 1] && after[b] == before[b - 1]);
                }
            }
            vstd::seq_lib::to_multiset_insert(before, p as int, v);
            assert(items_view(items@).take(i + 1) =~= items_view(items@).take(i as int).push(v));
            vstd::seq_lib::to_multiset_build(items_view(items@).take(i as int), v);
        }
        i += 1;
    }
    proof {
        assert(items_view(items@).take(items@.len() as int) =~= items_view(items@));
        items_view(items@).lemma_sort_by_ensures(leq);
        vstd::seq_lib::lemma_sorted_unique(items_view(out@), items_view(items@).sort_by(leq), leq);
    }
    out
}

/// Builds `a + b + c`.
fn cat(a: &str, b: &str, c: &str) -> (r: String)
    ensures
        r@ == a@ + b@ + c@,
{
    let mut r = owned(a);
    r.append(b);
    r.append(c);
    r
}

fn generics_str(gs: &Vec<String>) -> (r: String)
    ensures
        r@ == generics_text(gs@),
{
    if gs.len() == 0 {
        String::new()
    } else {
        let j = join(gs, ", ");
        cat("<", j.as_str(), ">")
    }
}

fn arg_str(a: &ArgShape) -> (r: String)
    ensures
        r@ == arg_text(*a),
{
    match a {
        ArgShape::Receiver { by_ref, mutable } => {
            if *by_ref {
                if *mutable {
                    let r = cat("&", "mut ", "self");
                    proof {
                        assert(r@ =~= ("&"@ + "mut "@) + "self"@);
                    }
                    r
                } else {
                    let mut r = owned("&");
                    r.append("self");
                    proof {
                        assert(r@ =~= ("&"@ + Seq::<char>::empty()) + "self"@);
                    }
                    r
                }
            } else {
                let r = owned("self");
                proof {
                    assert(r@ =~= Seq::<char>::empty() + "self"@);
                }
                r
            }
        },
        ArgShape::Typed(t) => t.clone(),
    }
}

fn args_str(args: &Vec<ArgShape>) -> (r: String)
    ensures
        r@ == args_text(args@),
{
    let mut parts: Vec<String> = Vec::new();
    let mut i: usize = 0;
    while i < args.len()
        invariant
            i <= args@.len(),
            string_views(parts@) == args@.take(i as int).map_values(|a: ArgShape| arg_text(a)),
        decreases args@.len() - i,
    {
        let t = arg_str(&args[i]);
        let ghost before = string_views(parts@);
        parts.push(t);
        proof {
            assert(string_views(parts@) =~= before.push(t@));
            assert(args@.take(i + 1).map_values(|a: ArgShape| arg_text(a)) =~= args@.take(i as int).map_values(
                |a: ArgShape| arg_text(a),
            ).push(arg_text(args@[i as int])));
        }
        i += 1;
    }
    proof {
        assert(args@.take(args@.len() as int) =~= args@);
    }
    join(&parts, ", ")
}

fn ret_str(r: &Option<String>) -> (s: String)
    ensures
        s@ == ret_text(*r),
{
    match r {
        None => String::new(),
        Some(t) => {
            let mut s = owned(" -> ");
            s.append(t.as_str());
            s
        },
    }
}

/// `fn name<G>(args) -> T`, with the generics when `with_generics`.
fn sig_str(sig: &SigShape, with_generics: bool) -> (r: String)
    ensures
        with_generics ==> r@ == fn_text(*sig),
        !with_generics ==> r@ == method_text(*sig),
{
    let mut r = owned("fn ");
    r.append(sig.name.as_str());
    if with_generics {
        let g = generics_str(&sig.generics);
        r.append(g.as_str());
    }
    r.append("(");
    let a = args_str(&sig.args);
    r.append(a.as_str());
    r.append(")");
    let t = ret_str(&sig.ret);
    r.append(t.as_str());
    r
}

fn field_str(f: &FieldShape) -> (r: String)
    ensures
        r@ == field_name(*f) + ": "@ + f.ty@,
{
    let mut r = match &f.name {
        Some(n) => n.clone(),
        None => String::new(),
    };
    r.append(": ");
    r.append(f.ty.as_str());
    r
}

/// The public fields of a struct, comma-separated.
fn struct_fields_str(fields: &FieldsShape) -> (r: String)
    ensures
        r@ == struct_fields_text(*fields),
{
    match fields {
        FieldsShape::Named(fs) => {
            let mut parts: Vec<String> = Vec::new();
            let mut i: usize = 0;
            while i < fs.len()
                invariant
                    i <= fs@.len(),
                    string_views(parts@) == named_pub_fields(fs@.take(i as int)),
                decreases fs@.len() - i,
            {
                proof {
                    assert(fs@.take(i + 1).drop_last() =~= fs@.take(i as int));
                }
                if fs[i].public {
                    let t = field_str(&fs[i]);
                    let ghost before = string_views(parts@);
                    parts.push(t);
                    proof {
                        assert(string_views(parts@) =~= before.push(t@));
                    }
                }
                i += 1;
            }
            proof {
                assert(fs@.take(fs@.len() as int) =~= fs@);
            }
            join(&parts, ", ")
        },
        FieldsShape::Unnamed(fs) => {
            let mut parts: Vec<String> = Vec::new();
            let mut i: usize = 0;
            while i < fs.len()
                invariant
                    i <= fs@.len(),
                    string_views(parts@) == unnamed_pub_fields(fs@.take(i as int)),
                decreases fs@.len() - i,
            {
                proof {
                    assert(fs@.take(i + 1).drop_last() =~= fs@.take(i as int));
                }
                if fs[i].public {
                    let n = decimal(i);
                    let t = cat(n.as_str(), ": ", fs[i].ty.as_str());
                    let ghost before = string_views(parts@);
                    parts.push(t);
                    proof {
                        assert(string_views(parts@) =~= before.push(t@));
                    }
                }
                i += 1;
            }
            proof {
                assert(fs@.take(fs@.len() as int) =~= fs@);
            }
            join(&parts, ", ")
        },
        FieldsShape::Unit => String::new(),
    }
}

/// A variant as the enum's signature writes it.
fn variant_str(v: &VariantShape) -> (r: String)
    ensures
        r@ == variant_text(*v),
{
    match &v.fields {
        FieldsShape::Named(fs) => {
            let mut parts: Vec<String> = Vec::new();
            let mut i: usize = 0;
            while i < fs.len()
                invariant
                    i <= fs@.len(),
                    string_views(parts@) == fs@.take(i as int).map_values(
                        |f: FieldShape| field_name(f) + ": "@ + f.ty@,
                    ),
                decreases fs@.len() - i,
            {
                let t = field_str(&fs[i]);
                let ghost before = string_views(parts@);
                parts.push(t);
                proof {
                    assert(string_views(parts@) =~= before.push(t@));
                    assert(fs@.take(i + 1).map_values(|f: FieldShape| field_name(f) + ": "@ + f.ty@) =~= fs@.take(
                        i as int,
                    ).map_values(|f: FieldShape| field_name(f) + ": "@ + f.ty@).push(t@));
                }
                i += 1;
            }
            proof {
                assert(fs@.take(fs@.len() as int) =~= fs@);
            }
            let j = join(&parts, ", ");
            let mut r = cat(v.name.as_str(), " { ", j.as_str());
            r.append(" }");
            r
        },
        FieldsShape::Unnamed(fs) => {
            let mut parts: Vec<String> = Vec::new();
            let mut i: usize = 0;
            while i < fs.len()
                invariant
                    i <= fs@.len(),
                    string_views(parts@) == fs@.take(i as int).map_values(|f: FieldShape| f.ty@),
                decreases fs@.len() - i,
            {
                let t = fs[i].ty.clone();
                let ghost before = string_views(parts@);
                parts.push(t);
                proof {
                    assert(string_views(parts@) =~= before.push(t@));
                    assert(fs@.take(i + 1).map_values(|f: FieldShape| f.ty@) =~= fs@.take(i as int).map_values(
                        |f: FieldShape| f.ty@,
                    ).push(t@));
                }
                i += 1;
            }
            proof {
                assert(fs@.take(fs@.len() as int) =~= fs@);
            }
            let j = join(&parts, ", ");
            let mut r = cat(v.name.as_str(), "(", j.as_str());
            r.append(")");
            r
        },
        FieldsShape::Unit => v.name.clone(),
    }
}

/// A `use` tree as written.
fn use_str(u: &UseShape) -> (r: String)
    ensures
        r@ == use_text(*u),
    decreases u,
{
    match u {
        UseShape::Path(p, t) => {
            let rest = use_str(t);
            cat(p.as_str(), "::", rest.as_str())
        },
        UseShape::Name(n) => n.clone(),
        UseShape::Rename(a, b) => cat(a.as_str(), " as ", b.as_str()),
        UseShape::Glob => owned("*"),
        UseShape::Group(items) => {
            let mut r = owned("{");
            let mut i: usize = 0;
            while i < items.len()
                invariant
                    i <= items@.len(),
                    *u == UseShape::Group(*items),
                    r@ == "{"@ + use_list_text(items@, i as int),
                decreases items@.len() - i,
            {
                if i > 0 {
                    r.append(", ");
                }
                proof {
                    assert(decreases_to!(*u => u->Group_0));
                    assert(u->Group_0 == *items);
                    assert(decreases_to!(*items => items@));
                    assert(decreases_to!(items@ => items@[i as int]));
                    assert(decreases_to!(*u => items@[i as int]));
                }
                let t = use_str(&items[i]);
                r.append(t.as_str());
                i += 1;
            }
            r.append("}");
            r
        },
    }
}

/// `kind head name generics open body close`.
fn item_sig(head: &str, name: &str, generics: &Vec<String>, open: &str, body: &str, close: &str) -> (r: String)
    ensures
        r@ == head@ + name@ + generics_text(generics@) + open@ + body@ + close@,
{
    let mut r = owned(head);
    r.append(name);
    let g = generics_str(generics);
    r.append(g.as_str());
    r.append(open);
    r.append(body);
    r.append(close);
    r
}

/// An entry from a kind and a signature.
fn entry(kind: &'static str, signature: String) -> (r: Option<PubApiItem>)
    ensures
        r matches Some(p) && item_view(p) == (kind@, signature@),
{
    Some(PubApiItem { kind, signature })
}

/// The API entry of an item, when it is `pub`.
fn entry_of(i: &ItemShape) -> (r: Option<PubApiItem>)
    ensures
        match r {
            Some(p) => api_entry(*i) == Some(item_view(p)),
            None => api_entry(*i) is None,
        },
{
    match i {
        ItemShape::Fn { public, sig } => if *public {
            entry("fn", sig_str(sig, true))
        } else {
            None
        },
        ItemShape::Struct { public, name, generics, fields } => if *public {
            let body = struct_fields_str(fields);
            entry("struct", item_sig("struct ", name.as_str(), generics, " { ", body.as_str(), " }"))
        } else {
            None
        },
        ItemShape::Enum { public, name, generics, variants } => if *public {
            let mut parts: Vec<String> = Vec::new();
            let mut k: usize = 0;
            while k < variants.len()
                invariant
                    k <= variants@.len(),
                    string_views(parts@) == variants@.take(k as int).map_values(|v: VariantShape| variant_text(v)),
                decreases variants@.len() - k,
            {
                let t = variant_str(&variants[k]);
                let ghost before = string_views(parts@);
                parts.push(t);
                proof {
                    assert(string_views(parts@) =~= before.push(t@));
                    assert(variants@.take(k + 1).map_values(|v: VariantShape| variant_text(v)) =~= variants@.take(
                        k as int,
                    ).map_values(|v: VariantShape| variant_text(v)).push(t@));
                }
                k += 1;
            }
            proof {
                assert(variants@.take(variants@.len() as int) =~= variants@);
            }
            let body = join(&parts, ", ");
            entry("enum", item_sig("enum ", name.as_str(), generics, " { ", body.as_str(), " }"))
        } else {
            None
        },
        ItemShape::Trait { public, name, generics, members } => if *public {
            let mut parts: Vec<String> = Vec::new();
            let mut k: usize = 0;
            while k < members.len()
                invariant
                    k <= members@.len(),
                    string_views(parts@) == trait_methods(members@.take(k as int)),
                decreases members@.len() - k,
            {
                proof {
                    assert(members@.take(k + 1).drop_last() =~= members@.take(k as int));
                }
                match &members[k] {
                    Some(m) => {
                        let t = sig_str(m, false);
                        let ghost before = string_views(parts@);
                        parts.push(t);
                        proof {
                            assert(string_views(parts@) =~= before.push(t@));
                        }
                    },
                    None => {},
                }
                k += 1;
            }
            proof {
                assert(members@.take(members@.len() as int) =~= members@);
            }
            let body = join(&parts, ", ");
            entry("trait", item_sig("trait ", name.as_str(), generics, " { ", body.as_str(), " }"))
        } else {
            None
        },
        ItemShape::Type { public, name, generics, target } => if *public {
            let mut r = owned("type ");
            r.append(name.as_str());
            let g = generics_str(generics);
            r.append(g.as_str());
            r.append(" = ");
            r.append(target.as_str());
            entry("type", r)
        } else {
            None
        },
        ItemShape::Const { public, name, ty } => if *public {
            let mut r = cat("const ", name.as_str(), ": ");
            r.append(ty.as_str());
            entry("const", r)
        } else {
            None
        },
        ItemShape::Static { public, name, ty } => if *public {
            let mut r = cat("static ", name.as_str(), ": ");
            r.append(ty.as_str());
            entry("static", r)
        } else {
            None
        },
        ItemShape::Use { public, tree } => if *public {
            let t = use_str(tree);
            let mut r = owned("use ");
            r.append(t.as_str());
            entry("use", r)
        } else {
            None
        },
        ItemShape::Other => None,
    }
}

/// The public API of a file's items: the entry of each `pub` item, sorted by
/// kind, then signature.
pub fn pub_api_of(shapes: &Vec<ItemShape>) -> (r: Vec<PubApiItem>)
    ensures
        items_view(r@) == sorted_api(shapes@),
{
    let mut found: Vec<PubApiItem> = Vec::new();
    let mut i: usize = 0;
    while i < shapes.len()
        invariant
            i <= shapes@.len(),
            items_view(found@) == api_entries(shapes@.take(i as int)),
        decreases shapes@.len() - i,
    {
        proof {
            assert(shapes@.take(i + 1).drop_last() =~= shapes@.take(i as int));
        }
        let ghost before = items_view(found@);
        match entry_of(&shapes[i]) {
            Some(p) => {
                found.push(p);
            },
            None => {},
        }
        proof {
            assert(items_view(found@) =~= api_entries(shapes@.take(i + 1)));
        }
        i += 1;
    }
    proof {
        assert(shapes@.take(shapes@.len() as int) =~= shapes@);
    }
    sort_items(found)
}

/// Whether two API lists are the same, item by item.
fn same_api(a: &Vec<PubApiItem>, b: &Vec<PubApiItem>) -> (r: bool)
    ensures
        r == (items_view(a@) == items_view(b@)),
{
    if a.len() != b.len() {
        proof {
            assert(items_view(a@).len() != items_view(b@).len());
        }
        return false;
    }
    let mut i: usize = 0;
    while i < a.len()
        invariant
            i <= a@.len(),
            a@.len() == b@.len(),
            forall|k: int| 0 <= k < i ==> item_view(a@[k]) == item_view(b@[k]),
        decreases a@.len() - i,
    {
        if !str_eq(a[i].kind, b[i].kind) || !str_eq(a[i].signature.as_str(), b[i].signature.as_str()) {
            proof {
                assert(items_view(a@)[i as int] != items_view(b@)[i as int]);
            }
            return false;
        }
        i += 1;
    }
    proof {
        assert(items_view(a@) =~= items_view(b@));
    }
    true
}

/// How two versions of a file differ, given the public API of each: a changed
/// API is an interface change; otherwise the file is unchanged when the two
/// texts agree but for surrounding whitespace, and changed internally when not.
pub open spec fn api_change(
    old_api: Seq<(Seq<char>, Seq<char>)>,
    new_api: Seq<(Seq<char>, Seq<char>)>,
    old_source: Seq<char>,
    new_source: Seq<char>,
) -> ApiDiff {
    if old_api != new_api {
        ApiDiff::InterfaceChanged
    } else if trim_spec(old_source) == trim_spec(new_source) {
        ApiDiff::Unchanged
    } else {
        ApiDiff::InternalsOnly
    }
}

/// Classifies the change between two versions of a file from their public APIs.
pub fn classify_api_change(
    old_api: &Vec<PubApiItem>,
    new_api: &Vec<PubApiItem>,
    old_source: &str,
    new_source: &str,
) -> (r: ApiDiff)
    ensures
        r == api_change(items_view(old_api@), items_view(new_api@), old_source@, new_source@),
{
    if !same_api(old_api, new_api) {
        return ApiDiff::InterfaceChanged;
    }
    let a = trim(old_source);
    let b = trim(new_source);
    if str_eq(a.as_str(), b.as_str()) {
        ApiDiff::Unchanged
    } else {
        ApiDiff::InternalsOnly
    }
}

/// A parsed top-level item of a Rust file.
#[verifier::external_type_specification]
#[verifier::external_body]
pub struct ExSynItem(syn::Item);

/// A parsed function signature.
#[verifier::external_type_specification]
#[verifier::external_body]
pub struct ExSynSignature(syn::Signature);

/// The parsed fields of a struct or variant.
#[verifier::external_type_specification]
#[verifier::external_body]
pub struct ExSynFields(syn::Fields);

/// A parsed `use` tree.
#[verifier::external_type_specification]
#[verifier::external_body]
pub struct ExSynUseTree(syn::UseTree);

/// The shapes of the top-level items that `syn` parses a source text into, or
/// `None` when the text is not a Rust file.
pub uninterp spec fn parsed_item_shapes(source: Seq<char>) -> Option<Seq<ItemShape>>;

/// Parses `source` with `syn::parse_file` and reads the shape of each top-level
/// item. Parsing and the token text of types and generic parameters depend on
/// the text alone; the contract names the result.
#[verifier::external_body]
fn parse_item_shapes(source: &str) -> (r: Option<Vec<ItemShape>>)
    ensures
        match r {
            Some(v) => parsed_item_shapes(source@) == Some(v@),
            None => parsed_item_shapes(source@) is None,
        },
{
    syn::parse_file(source).ok().map(|f| f.items.iter().map(|i| item_shape(i)).collect())
}

/// A `syn::Item::Fn`: whether it is `pub`, and its signature.
#[verifier::external_body]
fn as_fn(i: &syn::Item) -> Option<(bool, &syn::Signature)> {
    match i {
        syn::Item::Fn(x) => Some((matches!(x.vis, syn::Visibility::Public(_)), &x.sig)),
        _ => None,
    }
}

/// A `syn::Item::Struct`: `pub`, name, generic parameters as token text, fields.
#[verifier::external_body]
fn as_struct(i: &syn::Item) -> Option<(bool, String, Vec<String>, &syn::Fields)> {
    match i {
        syn::Item::Struct(x) => Some((
            matches!(x.vis, syn::Visibility::Public(_)),
            x.ident.to_string(),
            x.generics.params.iter().map(|p| p.to_token_stream().to_string()).collect(),
            &x.fields,
        )),
        _ => None,
    }
}

/// A `syn::Item::Enum`: `pub`, name, generic parameters, and each variant's name and fields.
#[verifier::external_body]
fn as_enum(i: &syn::Item) -> Option<(bool, String, Vec<String>, Vec<(String, &syn::Fields)>)> {
    match i {
        syn::Item::Enum(x) => Some((
            matches!(x.vis, syn::Visibility::Public(_)),
            x.ident.to_string(),
            x.generics.params.iter().map(|p| p.to_token_stream().to_string()).collect(),
            x.variants.iter().map(|v| (v.ident.to_string(), &v.fields)).collect(),
        )),
        _ => None,
    }
}

/// A `syn::Item::Trait`: `pub`, name, generic parameters, and per trait item its
/// signature when it is a method.
#[verifier::external_body]
fn as_trait(i: &syn::Item) -> Option<(bool, String, Vec<String>, Vec<Option<&syn::Signature>>)> {
    match i {
        syn::Item::Trait(x) => Some((
            matches!(x.vis, syn::Visibility::Public(_)),
            x.ident.to_string(),
            x.generics.params.iter().map(|p| p.to_token_stream().to_string()).collect(),
            x.items.iter().map(|t| match t { syn::TraitItem::Fn(m) => Some(&m.sig), _ => None }).collect(),
        )),
        _ => None,
    }
}

/// A `syn::Item::Type`: `pub`, name, generic parameters, and the aliased type as token text.
#[verifier::external_body]
fn as_type(i: &syn::Item) -> Option<(bool, String, Vec<String>, String)> {
    match i {
        syn::Item::Type(x) => Some((
            matches!(x.vis, syn::Visibility::Public(_)),
            x.ident.to_string(),
            x.generics.params.iter().map(|p| p.to_token_stream().to_string()).collect(),
            x.ty.to_token_stream().to_string(),
        )),
        _ => None,
    }
}

/// A `syn::Item::Const`: `pub`, name, and type as token text.
#[verifier::external_body]
fn as_const(i: &syn::Item) -> Option<(bool, String, String)> {
    match i {
        syn::Item::Const(x) => Some((
            matches!(x.vis, syn::Visibility::Public(_)),
            x.ident.to_string(),
            x.ty.to_token_stream().to_string(),
        )),
        _ => None,
    }
}

/// A `syn::Item::Static`: `pub`, name, and type as token text.
#[verifier::external_body]
fn as_static(i: &syn::Item) -> Option<(bool, String, String)> {
    match i {
        syn::Item::Static(x) => Some((
            matches!(x.vis, syn::Visibility::Public(_)),
            x.ident.to_string(),
            x.ty.to_token_stream().to_string(),
        )),
        _ => None,
    }
}

/// A `syn::Item::Use`: `pub`, and its tree.
#[verifier::external_body]
fn as_use(i: &syn::Item) -> Option<(bool, &syn::UseTree)> {
    match i {
        syn::Item::Use(x) => Some((matches!(x.vis, syn::Visibility::Public(_)), &x.tree)),
        _ => None,
    }
}

/// A `syn::Signature` read as a shape: name, generic parameters and types as
/// token text, receivers by their `&` and `mut`.
#[verifier::external_body]
fn sig_shape(s: &syn::Signature) -> SigShape {
    SigShape {
        name: s.ident.to_string(),
        generics: s.generics.params.iter().map(|p| p.to_token_stream().to_string()).collect(),
        args: s.inputs.iter().map(|a| match a {
            syn::FnArg::Receiver(r) => ArgShape::Receiver { by_ref: r.reference.is_some(), mutable: r.mutability.is_some() },
            syn::FnArg::Typed(t) => ArgShape::Typed(t.ty.to_token_stream().to_string()),
        }).collect(),
        ret: match &s.output { syn::ReturnType::Default => None, syn::ReturnType::Type(_, t) => Some(t.to_token_stream().to_string()) },
    }
}

/// `syn::Fields` read as a shape: each field's `pub`, name and type as token text.
#[verifier::external_body]
fn fields_shape(f: &syn::Fields) -> FieldsShape {
    let one = |x: &syn::Field| FieldShape {
        public: matches!(x.vis, syn::Visibility::Public(_)),
        name: x.ident.as_ref().map(|n| n.to_string()),
        ty: x.ty.to_token_stream().to_string(),
    };
    match f {
        syn::Fields::Named(n) => FieldsShape::Named(n.named.iter().map(one).collect()),
        syn::Fields::Unnamed(u) => FieldsShape::Unnamed(u.unnamed.iter().map(one).collect()),
        syn::Fields::Unit => FieldsShape::Unit,
    }
}

/// A `syn::UseTree` read as a shape, node by node.
#[verifier::external_body]
fn use_shape(t: &syn::UseTree) -> UseShape {
    match t {
        syn::UseTree::Path(p) => UseShape::Path(p.ident.to_string(), Box::new(use_shape(&p.tree))),
        syn::UseTree::Name(n) => UseShape::Name(n.ident.to_string()),
        syn::UseTree::Rename(r) => UseShape::Rename(r.ident.to_string(), r.rename.to_string()),
        syn::UseTree::Glob(_) => UseShape::Glob,
        syn::UseTree::Group(g) => UseShape::Group(g.items.iter().map(use_shape).collect()),
    }
}

/// The shape of a parsed item.
fn item_shape(i: &syn::Item) -> ItemShape {
    if let Some((public, s)) = as_fn(i) {
        return ItemShape::Fn { public, sig: sig_shape(s) };
    }
    if let Some((public, name, generics, fields)) = as_struct(i) {
        return ItemShape::Struct { public, name, generics, fields: fields_shape(fields) };
    }
    if let Some((public, name, generics, vs)) = as_enum(i) {
        let mut variants: Vec<VariantShape> = Vec::new();
        let mut k: usize = 0;
        while k < vs.len()
            decreases vs@.len() - k,
        {
            variants.push(VariantShape { name: vs[k].0.clone(), fields: fields_shape(vs[k].1) });
            k += 1;
        }
        return ItemShape::Enum { public, name, generics, variants };
    }
    if let Some((public, name, generics, ms)) = as_trait(i) {
        let mut members: Vec<Option<SigShape>> = Vec::new();
        let mut k: usize = 0;
        while k < ms.len()
            decreases ms@.len() - k,
        {
            match ms[k] {
                Some(m) => members.push(Some(sig_shape(m))),
                None => members.push(None),
            }
            k += 1;
        }
        return ItemShape::Trait { public, name, generics, members };
    }
    if let Some((public, name, generics, target)) = as_type(i) {
        return ItemShape::Type { public, name, generics, target };
    }
    if let Some((public, name, ty)) = as_const(i) {
        return ItemShape::Const { public, name, ty };
    }
    if let Some((public, name, ty)) = as_static(i) {
        return ItemShape::Static { public, name, ty };
    }
    if let Some((public, tree)) = as_use(i) {
        return ItemShape::Use { public, tree: use_shape(tree) };
    }
    ItemShape::Other
}

/// The public API of a source text: nothing when it does not parse, else the
/// sorted entries of its `pub` items.
pub open spec fn api_of_source(source: Seq<char>) -> Seq<(Seq<char>, Seq<char>)> {
    match parsed_item_shapes(source) {
        Some(shapes) => sorted_api(shapes),
        None => Seq::empty(),
    }
}

/// Extracts all public API items from a Rust source string, sorted; empty when
/// the source does not parse.
pub fn extract_pub_api(source: &str) -> (r: Vec<PubApiItem>)
    ensures
        items_view(r@) == api_of_source(source@),
{
    match parse_item_shapes(source) {
        Some(shapes) => pub_api_of(&shapes),
        None => {
            let r: Vec<PubApiItem> = Vec::new();
            proof {
                assert(items_view(r@) =~= Seq::<(Seq<char>, Seq<char>)>::empty());
            }
            r
        },
    }
}

/// Compares two versions of a Rust source file and classifies the difference.
pub fn compare_pub_api(old_source: &str, new_source: &str) -> (r: ApiDiff)
    ensures
        r == api_change(api_of_source(old_source@), api_of_source(new_source@), old_source@, new_source@),
{
    let old_api = extract_pub_api(old_source);
    let new_api = extract_pub_api(new_source);
    classify_api_change(&old_api, &new_api, old_source, new_source)
}

/// The public API lists every `pub` item's entry once per occurrence, sorted by
/// kind, then signature.
pub proof fn law_api_is_sorted_entries(shapes: Seq<ItemShape>)
    ensures
        sorted_by(sorted_api(shapes), api_order()),
        sorted_api(shapes).to_multiset() == api_entries(shapes).to_multiset(),
{
    lemma_entry_order();
    api_entries(shapes).lemma_sort_by_ensures(api_order());
}

/// Two files whose `pub` items have the same entries, in whatever order, have the same API.
pub proof fn law_api_ignores_item_order(a: Seq<ItemShape>, b: Seq<ItemShape>)
    requires
        api_entries(a).to_multiset() == api_entries(b).to_multiset(),
    ensures
        sorted_api(a) == sorted_api(b),
{
    lemma_entry_order();
    api_entries(a).lemma_sort_by_ensures(api_order());
    api_entries(b).lemma_sort_by_ensures(api_order());
    vstd::seq_lib::lemma_sorted_unique(sorted_api(a), sorted_api(b), api_order());
}

/// A file compared with itself is unchanged.
pub proof fn law_compare_with_itself_is_unchanged(source: Seq<char>)
    ensures
        api_change(api_of_source(source), api_of_source(source), source, source) == ApiDiff::Unchanged,
{
}

/// Comparing two versions gives the same answer in either direction.
pub proof fn law_compare_is_symmetric(
    old_api: Seq<(Seq<char>, Seq<char>)>,
    new_api: Seq<(Seq<char>, Seq<char>)>,
    old_source: Seq<char>,
    new_source: Seq<char>,
)
    ensures
        api_change(old_api, new_api, old_source, new_source) == api_change(new_api, old_api, new_source, old_source),
{
}

} // verus!
