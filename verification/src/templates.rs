//! File templates written when bricks and projects are created.
use vstd::prelude::*;

use crate::check::{sorted_key_list, sorted_keys};
use crate::corsett::string_views;
use crate::discover::opt_chars;
use crate::model::{ExternalDepInfo, RootDemotionPlan};
use crate::text::{occurs, owned};

verus! {

/// `.cargo/config.toml` for a new polylith workspace: a shared `target/` directory.
pub fn cargo_config_toml() -> (r: &'static str)
    ensures
        r@ == "[build]\ntarget-dir = \"target\"\n"@,
{
    "[build]\ntarget-dir = \"target\"\n"
}

/// `Cargo.toml` of a new component, declaring its interface.
pub fn component_cargo_toml(name: &str, interface: &str) -> (r: String)
    ensures
        r@ == "[package]\nname = \""@ + name@ + "\"\nversion = \"0.1.0\"\nedition = \"2021\"\n\n[package.metadata.polylith]\ninterface = \""@ + interface@ + "\"\n\n[dependencies]\n"@,
        occurs("[package.metadata.polylith]\ninterface = \""@ + interface@ + "\"\n"@, r@),
{
    let mut r = owned("[package]\nname = \"");
    r.append(name);
    r.append("\"\nversion = \"0.1.0\"\nedition = \"2021\"\n\n[package.metadata.polylith]\ninterface = \"");
    r.append(interface);
    r.append("\"\n\n[dependencies]\n");
    proof {
        reveal_strlit("\"\nversion = \"0.1.0\"\nedition = \"2021\"\n\n[package.metadata.polylith]\ninterface = \"");
        reveal_strlit("\"\nversion = \"0.1.0\"\nedition = \"2021\"\n\n");
        reveal_strlit("[package.metadata.polylith]\ninterface = \"");
        reveal_strlit("\"\n\n[dependencies]\n");
        reveal_strlit("\"\n");
        reveal_strlit("\n[dependencies]\n");
        let a = "[package]\nname = \""@ + name@ + "\"\nversion = \"0.1.0\"\nedition = \"2021\"\n\n"@;
        let m = "[package.metadata.polylith]\ninterface = \""@ + interface@ + "\"\n"@;
        assert(r@ =~= a + m + "\n[dependencies]\n"@);
    }
    r
}

/// `src/lib.rs` of a new component: the implementation module, and a commented
/// hint to declare the public interface explicitly (no wildcard re-export).
pub fn component_lib_rs(name: &str) -> (r: String)
    ensures
        r@ == "mod "@ + name@ + ";\n// Declare your public interface explicitly, e.g.:\n// pub use "@ + name@ + "::{MyType, my_function};\n"@,
        occurs("mod "@ + name@ + ";\n"@, r@),
        occurs("// pub use "@ + name@ + "::"@, r@),
{
    let mut r = owned("mod ");
    r.append(name);
    r.append(";\n// Declare your public interface explicitly, e.g.:\n// pub use ");
    r.append(name);
    r.append("::{MyType, my_function};\n");
    proof {
        reveal_strlit(";\n// Declare your public interface explicitly, e.g.:\n// pub use ");
        reveal_strlit(";\n");
        reveal_strlit("// Declare your public interface explicitly, e.g.:\n");
        reveal_strlit("// pub use ");
        reveal_strlit("::{MyType, my_function};\n");
        reveal_strlit("::");
        reveal_strlit("{MyType, my_function};\n");
        let decl = "mod "@ + name@ + ";\n"@;
        let hint = "// pub use "@ + name@ + "::"@;
        let note = "// Declare your public interface explicitly, e.g.:\n"@;
        let tail = "{MyType, my_function};\n"@;
        assert(r@ =~= Seq::<char>::empty() + decl + (note + hint + tail));
        assert(r@ =~= (decl + note) + hint + tail);
    }
    r
}

/// `src/<name>.rs` of a new component.
pub fn component_impl_rs() -> (r: &'static str)
    ensures
        r@ == "// Implementation goes here\n"@,
{
    "// Implementation goes here\n"
}

/// `Cargo.toml` of a new base: a library (bases expose `run()`), with no binary target.
pub fn base_cargo_toml(name: &str) -> (r: String)
    ensures
        r@ == "[package]\nname = \""@ + name@ + "\"\nversion = \"0.1.0\"\nedition = \"2021\"\n\n[dependencies]\n"@,
{
    let mut r = owned("[package]\nname = \"");
    r.append(name);
    r.append("\"\nversion = \"0.1.0\"\nedition = \"2021\"\n\n[dependencies]\n");
    r
}

/// `src/main.rs` of a new base.
pub fn base_main_rs() -> (r: &'static str)
    ensures
        r@ == "fn main() {\n    println!(\"Hello from base!\");\n}\n"@,
{
    "fn main() {\n    println!(\"Hello from base!\");\n}\n"
}

/// `src/lib.rs` of a new base: the `run()` entry point that projects call.
pub fn base_lib_rs() -> (r: &'static str)
    ensures
        r@ == "pub fn run() {}\n"@,
{
    "pub fn run() {}\n"
}

/// `Cargo.toml` of a new project: a bin crate with commented dependency examples.
pub open spec fn project_cargo_toml_spec(name: Seq<char>) -> Seq<char> {
    "[package]\nname = \""@ + name + "\"\nversion = \"0.1.0\"\nedition = \"2021\"\n\n[[bin]]\nname = \""@ + name + "\"\npath = \"src/main.rs\"\n\n[dependencies]\n# Add base and component deps here, e.g.:\n# my-base = { path = \"../../bases/my-base\" }\n# my-component-stub = { path = \"../../components/my-component-stub\", package = \"my-component-stub\" }\n"@
}

/// Law: a new project's manifest names the crate and declares its binary at
/// `src/main.rs`, the file that project creation writes.
pub proof fn law_project_binary_is_main_rs(name: Seq<char>)
    ensures
        occurs("[package]\nname = \""@ + name + "\"\n"@, project_cargo_toml_spec(name)),
        occurs("[[bin]]\nname = \""@ + name + "\"\npath = \"src/main.rs\"\n"@, project_cargo_toml_spec(name)),
{
    reveal_strlit("[package]\nname = \"");
    reveal_strlit("\"\nversion = \"0.1.0\"\nedition = \"2021\"\n\n[[bin]]\nname = \"");
    reveal_strlit("\"\npath = \"src/main.rs\"\n\n[dependencies]\n# Add base and component deps here, e.g.:\n# my-base = { path = \"../../bases/my-base\" }\n# my-component-stub = { path = \"../../components/my-component-stub\", package = \"my-component-stub\" }\n");
    reveal_strlit("[[bin]]\nname = \"");
    reveal_strlit("\"\npath = \"src/main.rs\"\n");
    reveal_strlit("\"\n");
    reveal_strlit("\"\nversion = \"0.1.0\"\nedition = \"2021\"\n\n");
    reveal_strlit("\n[dependencies]\n# Add base and component deps here, e.g.:\n# my-base = { path = \"../../bases/my-base\" }\n# my-component-stub = { path = \"../../components/my-component-stub\", package = \"my-component-stub\" }\n");
    reveal_strlit("version = \"0.1.0\"\nedition = \"2021\"\n\n[[bin]]\nname = \"");
    let t = project_cargo_toml_spec(name);
    let head = "\"\nversion = \"0.1.0\"\nedition = \"2021\"\n\n"@;
    let tail = "\n[dependencies]\n# Add base and component deps here, e.g.:\n# my-base = { path = \"../../bases/my-base\" }\n# my-component-stub = { path = \"../../components/my-component-stub\", package = \"my-component-stub\" }\n"@;
    let bin = "[[bin]]\nname = \""@ + name + "\"\npath = \"src/main.rs\"\n"@;
    assert(t =~= ("[package]\nname = \""@ + name + head) + bin + tail);
    let pkg = "[package]\nname = \""@ + name + "\"\n"@;
    let rest = "version = \"0.1.0\"\nedition = \"2021\"\n\n[[bin]]\nname = \""@ + name + "\"\npath = \"src/main.rs\"\n"@ + tail;
    assert(t =~= Seq::<char>::empty() + pkg + rest);
}

/// `Cargo.toml` of a new project (see [`project_cargo_toml_spec`]).
pub fn project_cargo_toml(name: &str) -> (r: String)
    ensures
        r@ == project_cargo_toml_spec(name@),
{
    let mut r = owned("[package]\nname = \"");
    r.append(name);
    r.append("\"\nversion = \"0.1.0\"\nedition = \"2021\"\n\n[[bin]]\nname = \"");
    r.append(name);
    r.append("\"\npath = \"src/main.rs\"\n\n[dependencies]\n# Add base and component deps here, e.g.:\n# my-base = { path = \"../../bases/my-base\" }\n# my-component-stub = { path = \"../../components/my-component-stub\", package = \"my-component-stub\" }\n");
    r
}

/// The first line of every manifest the tool writes and rewrites itself:
/// a project's, and the root manifest made from a profile.
pub fn managed_header() -> (r: &'static str)
    ensures
        r@ == "# GENERATED BY cargo-polylith -- DO NOT EDIT\n"@,
{
    "# GENERATED BY cargo-polylith -- DO NOT EDIT\n"
}

/// The manifest of a new project: the header, then [`project_cargo_toml`].
pub fn project_manifest(name: &str) -> (r: String)
    ensures
        r@ == "# GENERATED BY cargo-polylith -- DO NOT EDIT\n"@ + project_cargo_toml_spec(name@),
{
    let mut r = owned(managed_header());
    let body = project_cargo_toml(name);
    r.append(body.as_str());
    r
}

/// `Polylith.toml` of a new workspace: schema 1, relaxed versioning from 0.1.0.
pub fn polylith_toml_initial() -> (r: &'static str)
    ensures
        r@ == "[workspace]\nschema_version = 1\n\n[versioning]\npolicy = \"relaxed\"\nversion = \"0.1.0\"\n"@,
{
    "[workspace]\nschema_version = 1\n\n[versioning]\npolicy = \"relaxed\"\nversion = \"0.1.0\"\n"
}

/// Lines written one after another.
pub open spec fn concat_lines(ls: Seq<Seq<char>>) -> Seq<char>
    decreases ls.len(),
{
    if ls.len() == 0 {
        Seq::empty()
    } else {
        concat_lines(ls.drop_last()) + ls.last()
    }
}

/// A `[libraries]` line: the dependency as written, or `"*"` when nothing was.
pub open spec fn library_line(key: Seq<char>, info: ExternalDepInfo) -> Seq<char> {
    key + " = "@ + match opt_chars(info.raw) {
        Some(raw) => raw,
        None => "\"*\""@,
    } + "\n"@
}

/// A `[profiles]` line: the profile's name and its path.
pub open spec fn profile_entry_line(name: Seq<char>, path: Seq<char>) -> Seq<char> {
    name + " = \""@ + path + "\"\n"@
}

/// `Polylith.toml` as a migration writes it: schema 1, then the libraries and
/// the profiles of the plan, each table in key order and left out when empty.
pub open spec fn migrated_polylith_toml(plan: RootDemotionPlan) -> Seq<char> {
    let lk = sorted_keys(plan.libraries@.dom());
    let pk = sorted_keys(plan.profiles@.dom());
    "[workspace]\nschema_version = 1\n"@ + (if lk.len() > 0 {
        "\n[libraries]\n"@ + concat_lines(lk.map_values(|k: Seq<char>| library_line(k, plan.libraries@[k])))
    } else {
        Seq::empty()
    }) + (if pk.len() > 0 {
        "\n[profiles]\n"@ + concat_lines(pk.map_values(|k: Seq<char>| profile_entry_line(k, plan.profiles@[k]@)))
    } else {
        Seq::empty()
    })
}

/// The text of `Polylith.toml` written from a migration plan.
pub fn polylith_toml_content(plan: &RootDemotionPlan) -> (r: String)
    ensures
        r@ == migrated_polylith_toml(*plan),
{
    let mut out = owned("[workspace]\nschema_version = 1\n");
    let ghost head = out@;
    let lk = sorted_key_list(&plan.libraries);
    let ghost lks = string_views(lk@);
    let ghost lib_lines = lks.map_values(|k: Seq<char>| library_line(k, plan.libraries@[k]));
    if lk.len() > 0 {
        out.append("\n[libraries]\n");
        let ghost start = out@;
        let mut i: usize = 0;
        while i < lk.len()
            invariant
                i <= lk@.len(),
                lks == string_views(lk@),
                lks.to_set() == plan.libraries@.dom(),
                lib_lines == lks.map_values(|k: Seq<char>| library_line(k, plan.libraries@[k])),
                out@ == start + concat_lines(lib_lines.take(i as int)),
            decreases lk@.len() - i,
        {
            let key = lk[i].as_str();
            proof {
                assert(lks[i as int] == key@);
                assert(lks.to_set().contains(key@));
            }
            let info = match plan.libraries.get(key) {
                Some(info) => info,
                None => {
                    proof {
                        assert(false);
                    }
                    return out;
                },
            };
            let ghost before = out@;
            out.append(key);
            out.append(" = ");
            match &info.raw {
                Some(raw) => out.append(raw.as_str()),
                None => out.append("\"*\""),
            }
            out.append("\n");
            proof {
                assert(lib_lines.take(i + 1).drop_last() =~= lib_lines.take(i as int));
                assert(lib_lines[i as int] == library_line(key@, *info));
                assert(out@ =~= before + library_line(key@, *info));
            }
            i += 1;
        }
        proof {
            assert(lib_lines.take(lk@.len() as int) =~= lib_lines);
        }
    }
    let ghost mid = out@;
    proof {
        assert(mid == head + (if lks.len() > 0 {
            "\n[libraries]\n"@ + concat_lines(lib_lines)
        } else {
            Seq::<char>::empty()
        }));
    }
    let pk = sorted_key_list(&plan.profiles);
    let ghost pks = string_views(pk@);
    let ghost prof_lines = pks.map_values(|k: Seq<char>| profile_entry_line(k, plan.profiles@[k]@));
    if pk.len() > 0 {
        out.append("\n[profiles]\n");
        let ghost start = out@;
        let mut j: usize = 0;
        while j < pk.len()
            invariant
                j <= pk@.len(),
                pks == string_views(pk@),
                pks.to_set() == plan.profiles@.dom(),
                prof_lines == pks.map_values(|k: Seq<char>| profile_entry_line(k, plan.profiles@[k]@)),
                out@ == start + concat_lines(prof_lines.take(j as int)),
            decreases pk@.len() - j,
        {
            let name = pk[j].as_str();
            proof {
                assert(pks[j as int] == name@);
                assert(pks.to_set().contains(name@));
            }
            let path = match plan.profiles.get(name) {
                Some(path) => path,
                None => {
                    proof {
                        assert(false);
                    }
                    return out;
                },
            };
            let ghost before = out@;
            out.append(name);
            out.append(" = \"");
            out.append(path.as_str());
            out.append("\"\n");
            proof {
                assert(prof_lines.take(j + 1).drop_last() =~= prof_lines.take(j as int));
                assert(prof_lines[j as int] == profile_entry_line(name@, path@));
                assert(out@ =~= before + profile_entry_line(name@, path@));
            }
            j += 1;
        }
        proof {
            assert(prof_lines.take(pk@.len() as int) =~= prof_lines);
        }
    }
    proof {
        assert(out@ =~= migrated_polylith_toml(*plan));
    }
    out
}

} // verus!
