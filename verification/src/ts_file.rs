//! The TypeScript source files of a model: its options, the paths of the
//! files and of their imports, and the files themselves.
use vstd::prelude::*;
use core::cmp::Ordering;
use crate::text::{append_str, str_eq, chars_of};
use crate::names::{PackageName, QualifiedName, package_from_str, strings_view};
use crate::model::{NameView, names_of, add_unseen, type_names, versions_names, Named, Constant, VersionedTypeDefinitionData,
    NamedTypeDefinition, TypeDefinition, Verilization, ScopeLookup, ScopeLookupView};
use crate::scope::Scope;
use crate::generator::{
    LangTypeV, LangExprV, OperationInfo, OperationInfoV, TypeGenerator, ConstGenerator, TypeVersionOutput, ConstantVersionOutput,
    generate_type_spec, generate_constant_spec, type_version_list, versioned_scope, constant_output_view,
};
use crate::java_file::{constant_scope, outputs_view, ops_view, lemma_type_versions_len, text_result};
use crate::ts::{
    ts_type_text, ts_write_type, ts_expr_text, ts_write_expr, ts_operation_text, ts_write_operation, impl_convs, ts_version_header,
    ts_write_version_header, conv_imports_text, imported_after, ts_write_version_footer, cur_view,
};
use crate::java::{ok_text, wrote};
use crate::lang::{TypeScriptLanguage, make_type_name};
use crate::lang::{Language, LanguageOptions, LanguageOptionsBuilder};
use crate::util::capitalized;
use crate::generator::{GeneratorError, GeneratorErrorV};
use crate::java::{map_get, map_insert, has_prefix, strip_prefix, option_error, unit_result, lemma_map_insert_at, lemma_map_insert_new};
use crate::order::{names_order, lemma_names_order, lemma_names_order_trans};

verus! {

/// The view of a mapping from packages to directories.
pub open spec fn dir_map_view(m: Seq<(PackageName, String)>) -> Seq<(Seq<Seq<char>>, Seq<char>)> {
    m.map_values(|e: (PackageName, String)| (e.0@, e.1@))
}

/// The finished options for TypeScript: the output directory, the directory
/// of each package that is generated (under the output directory), and the
/// module path of each library package.
pub struct TSOptions {
    pub output_dir: String,
    pub package_mapping: Vec<(PackageName, String)>,
    pub library_mapping: Vec<(PackageName, String)>,
}

/// Options for TypeScript as they are given, one at a time.
pub struct TSOptionsBuilder {
    pub output_dir: Option<String>,
    pub package_mapping: Vec<(PackageName, String)>,
    pub library_mapping: Vec<(PackageName, String)>,
}

/// The view of the TypeScript options being given.
pub struct TSBuilderV {
    pub output_dir: Option<Seq<char>>,
    pub packages: Seq<(Seq<Seq<char>>, Seq<char>)>,
    pub libraries: Seq<(Seq<Seq<char>>, Seq<char>)>,
}

impl View for TSOptionsBuilder {
    type V = TSBuilderV;

    open spec fn view(&self) -> TSBuilderV {
        TSBuilderV {
            output_dir: match self.output_dir {
                Some(d) => Some(d@),
                None => None,
            },
            packages: dir_map_view(self.package_mapping@),
            libraries: dir_map_view(self.library_mapping@),
        }
    }
}

/// The options after one more is given, and whether it was accepted.
///
/// `out_dir` sets the output directory, once. `pkg:P` maps package `P` to
/// the directory given, and `lib:P` maps a library package to the module
/// path given; a package mapped either way before is refused, and one
/// mapped the same way takes the new mapping all the same. Any other option
/// is unknown.
pub open spec fn ts_add_option_spec(b: TSBuilderV, name: Seq<char>, value: Seq<char>) -> (TSBuilderV, Result<(), GeneratorErrorV>) {
    if name == "out_dir"@ {
        if b.output_dir is Some {
            (b, Err(GeneratorErrorV::InvalidOptions("Output directory already specified"@)))
        } else {
            (TSBuilderV { output_dir: Some(value), ..b }, Ok(()))
        }
    } else if has_prefix(name, "pkg:"@) {
        let pkg = name.skip(4);
        let package = package_from_str(pkg);
        if map_get(b.libraries, package) is Some {
            (b, Err(GeneratorErrorV::InvalidOptions("Package already mapped: "@ + pkg)))
        } else {
            let b2 = TSBuilderV { packages: map_insert(b.packages, package, value), ..b };
            if map_get(b.packages, package) is Some {
                (b2, Err(GeneratorErrorV::InvalidOptions("Package already mapped: "@ + pkg)))
            } else {
                (b2, Ok(()))
            }
        }
    } else if has_prefix(name, "lib:"@) {
        let pkg = name.skip(4);
        let package = package_from_str(pkg);
        if map_get(b.packages, package) is Some {
            (b, Err(GeneratorErrorV::InvalidOptions("Package already mapped: "@ + pkg)))
        } else {
            let b2 = TSBuilderV { libraries: map_insert(b.libraries, package, value), ..b };
            if map_get(b.libraries, package) is Some {
                (b2, Err(GeneratorErrorV::InvalidOptions("Package already mapped: "@ + pkg)))
            } else {
                (b2, Ok(()))
            }
        }
    } else {
        (b, Err(GeneratorErrorV::InvalidOptions("Unknown option: "@ + name)))
    }
}

/// The position of the first entry for package `k`.
fn find_dir(m: &Vec<(PackageName, String)>, k: &PackageName) -> (r: Option<usize>)
    ensures
        match r {
            None => map_get(dir_map_view(m@), k@) is None,
            Some(i) => i < m@.len() && map_get(dir_map_view(m@), k@) == Some(m@[i as int].1@)
                && dir_map_view(m@)[i as int].0 == k@
                && forall|j: int| 0 <= j < i ==> dir_map_view(m@)[j].0 != k@,
        },
{
    let ghost mv = dir_map_view(m@);
    assert(mv.skip(0) =~= mv);
    let mut i: usize = 0;
    while i < m.len()
        invariant
            i <= m@.len(),
            mv == dir_map_view(m@),
            map_get(mv, k@) == map_get(mv.skip(i as int), k@),
            forall|j: int| 0 <= j < i ==> mv[j].0 != k@,
        decreases m@.len() - i,
    {
        assert(mv.skip(i as int)[0] == mv[i as int]);
        if m[i].0.equals(k) {
            return Some(i);
        }
        assert(mv.skip(i as int).drop_first() =~= mv.skip(i + 1));
        i = i + 1;
    }
    assert(mv.skip(i as int).len() == 0);
    None
}

/// Sets package `k` to `v` in a directory mapping.
fn insert_dir(m: &mut Vec<(PackageName, String)>, k: PackageName, v: String)
    ensures
        dir_map_view(final(m)@) == map_insert(dir_map_view(old(m)@), k@, v@),
{
    let ghost (kv, vv) = (k@, v@);
    match find_dir(m, &k) {
        Some(i) => {
            proof {
                lemma_map_insert_at(dir_map_view(old(m)@), kv, vv, i as int);
            }
            m.set(i, (k, v));
            assert(dir_map_view(m@) =~= dir_map_view(old(m)@).update(i as int, (kv, vv)));
        },
        None => {
            proof {
                lemma_map_insert_new(dir_map_view(old(m)@), kv, vv);
            }
            m.push((k, v));
            assert(dir_map_view(m@) =~= dir_map_view(old(m)@).push((kv, vv)));
        },
    }
}

impl LanguageOptionsBuilder for TSOptionsBuilder {
    open spec fn nothing_given(&self) -> bool {
        self@ == (TSBuilderV { output_dir: None, packages: Seq::empty(), libraries: Seq::empty() })
    }

    open spec fn adds(&self, name: Seq<char>, value: Seq<char>, after: Self, r: Result<(), GeneratorError>) -> bool {
        &&& after@ == ts_add_option_spec(self@, name, value).0
        &&& unit_result(r) == ts_add_option_spec(self@, name, value).1
    }

    /// Options with nothing set.
    fn empty() -> (r: TSOptionsBuilder) {
        let r = TSOptionsBuilder { output_dir: None, package_mapping: Vec::new(), library_mapping: Vec::new() };
        assert(r@.packages =~= Seq::<(Seq<Seq<char>>, Seq<char>)>::empty());
        assert(r@.libraries =~= Seq::<(Seq<Seq<char>>, Seq<char>)>::empty());
        r
    }

    /// Sets one option.
    fn add(&mut self, name: &str, value: &str) -> (r: Result<(), GeneratorError>) {
        if str_eq(name, "out_dir") {
            if self.output_dir.is_some() {
                return Err(GeneratorError::InvalidOptions("Output directory already specified".to_owned()));
            }
            self.output_dir = Some(value.to_owned());
            return Ok(());
        }
        assert(name@ != "out_dir"@);
        if let Some(pkg) = strip_prefix(name, "pkg:") {
            proof {
                reveal_strlit("pkg:");
            }
            let package = PackageName::from_str(pkg.as_str());
            if find_dir(&self.library_mapping, &package).is_some() {
                return Err(option_error("Package already mapped: ", pkg.as_str()));
            }
            let existed = find_dir(&self.package_mapping, &package).is_some();
            insert_dir(&mut self.package_mapping, package, value.to_owned());
            if existed {
                return Err(option_error("Package already mapped: ", pkg.as_str()));
            }
            return Ok(());
        }
        if let Some(pkg) = strip_prefix(name, "lib:") {
            proof {
                reveal_strlit("lib:");
            }
            let package = PackageName::from_str(pkg.as_str());
            if find_dir(&self.package_mapping, &package).is_some() {
                return Err(option_error("Package already mapped: ", pkg.as_str()));
            }
            let existed = find_dir(&self.library_mapping, &package).is_some();
            insert_dir(&mut self.library_mapping, package, value.to_owned());
            if existed {
                return Err(option_error("Package already mapped: ", pkg.as_str()));
            }
            return Ok(());
        }
        Err(option_error("Unknown option: ", name))
    }

}

impl LanguageOptions for TSOptions {
    type Builder = TSOptionsBuilder;

    open spec fn builds(builder: TSOptionsBuilder, r: Result<TSOptions, GeneratorError>) -> bool {
        match r {
            Ok(o) => builder.output_dir matches Some(d) && o.output_dir@ == d@
                && o.package_mapping@ == builder.package_mapping@
                && o.library_mapping@ == builder.library_mapping@,
            Err(e) => builder.output_dir is None && e@ == GeneratorErrorV::InvalidOptions("Output directory not specified"@),
        }
    }

    /// The finished options; the output directory must have been given.
    fn build(builder: TSOptionsBuilder) -> (r: Result<TSOptions, GeneratorError>) {
        match builder.output_dir {
            None => Err(GeneratorError::InvalidOptions("Output directory not specified".to_owned())),
            Some(d) => Ok(TSOptions { output_dir: d, package_mapping: builder.package_mapping, library_mapping: builder.library_mapping }),
        }
    }
}

/// `a` with `b` pushed onto it as a path: `b` itself where it is absolute or
/// `a` is empty, else the two with one `/` between them.
pub open spec fn path_join(a: Seq<char>, b: Seq<char>) -> Seq<char> {
    if b.len() > 0 && b[0] == '/' {
        b
    } else if a.len() == 0 {
        b
    } else if a.last() == '/' {
        a + b
    } else {
        a + seq!['/'] + b
    }
}

/// Pushes `b` onto the path `a`.
pub fn path_join_exec(a: &str, b: &str) -> (r: String)
    ensures
        r@ == path_join(a@, b@),
{
    let ac = chars_of(a);
    let bc = chars_of(b);
    let mut r = String::new();
    if bc.len() > 0 && bc[0] == '/' {
        append_str(&mut r, b);
    } else if ac.len() == 0 {
        append_str(&mut r, b);
    } else if ac[ac.len() - 1] == '/' {
        append_str(&mut r, a);
        append_str(&mut r, b);
    } else {
        append_str(&mut r, a);
        append_str(&mut r, "/");
        append_str(&mut r, b);
        proof {
            reveal_strlit("/");
        }
    }
    assert(r@ =~= path_join(a@, b@));
    r
}

/// The relative path from the directory `base` to `path` that
/// `pathdiff::diff_paths` gives, as text; none where it gives none.
pub uninterp spec fn relative_path(path: Seq<char>, base: Seq<char>) -> Option<Seq<char>>;

/// The view of an optional text.
pub open spec fn opt_text(o: Option<String>) -> Option<Seq<char>> {
    match o {
        Some(s) => Some(s@),
        None => None,
    }
}

/// Calls `pathdiff::diff_paths` on two paths given as text: the relative
/// path from `base` to `path`. Its result is taken to be a function of the
/// two texts alone, named `relative_path`; nothing more is said of it.
#[verifier::external_body]
fn diff_paths_text(path: &str, base: &str) -> (r: Option<String>)
    ensures
        opt_text(r) == relative_path(path@, base@),
{
    match pathdiff::diff_paths(path, base) {
        Some(p) => Some(p.to_string_lossy().into_owned()),
        None => None,
    }
}

/// The directory of the files of the package `pkg`: its directory under the
/// output directory, or else its library module path pushed onto it.
pub open spec fn package_dir(o: TSOptions, pkg: Seq<Seq<char>>) -> Result<Seq<char>, GeneratorErrorV> {
    match map_get(dir_map_view(o.package_mapping@), pkg) {
        Some(d) => Ok(path_join(o.output_dir@, d)),
        None => match map_get(dir_map_view(o.library_mapping@), pkg) {
            Some(d) => Ok(path_join(o.output_dir@, d)),
            None => Err(GeneratorErrorV::UnmappedPackage(pkg)),
        },
    }
}

/// The directory of the files of a package.
pub fn package_dir_exec(o: &TSOptions, pkg: &PackageName) -> (r: Result<String, GeneratorError>)
    ensures
        match package_dir(*o, pkg@) {
            Ok(d) => r matches Ok(x) && x@ == d,
            Err(e) => r matches Err(x) && x@ == e,
        },
{
    match find_dir(&o.package_mapping, pkg) {
        Some(i) => Ok(path_join_exec(o.output_dir.as_str(), o.package_mapping[i].1.as_str())),
        None => match find_dir(&o.library_mapping, pkg) {
            Some(i) => Ok(path_join_exec(o.output_dir.as_str(), o.library_mapping[i].1.as_str())),
            None => Err(GeneratorError::UnmappedPackage(pkg.copy())),
        },
    }
}

/// The line that imports the module of the type `t` from a file in the
/// directory `current`: by a relative path for a generated package, by its
/// module path for a library package. A type's module is named after the
/// type, with its first character in upper case.
pub open spec fn import_line(o: TSOptions, t: NameView, current: Seq<char>) -> Result<Seq<char>, GeneratorErrorV> {
    let file = capitalized(t.1) + ".js"@;
    let head = "import * as "@ + crate::ts::import_name(t) + " from \""@;
    match map_get(dir_map_view(o.package_mapping@), t.0) {
        Some(d) => match relative_path(path_join(o.output_dir@, d), current) {
            None => Err(GeneratorErrorV::InvalidOptions("Could not find relative path."@)),
            Some(rel) => Ok(head + "./"@ + path_join(rel, file) + "\";\n"@),
        },
        None => match map_get(dir_map_view(o.library_mapping@), t.0) {
            Some(lib) => Ok(head + path_join(lib, file) + "\";\n"@),
            None => Err(GeneratorErrorV::UnmappedPackage(t.0)),
        },
    }
}

/// Writes the line that imports the module of the type `t`.
fn write_import_line(o: &TSOptions, out: &mut String, t: &QualifiedName, current: &str) -> (r: Result<(), GeneratorError>)
    ensures
        crate::java::wrote(r, old(out)@, final(out)@, import_line(*o, t@, current@)),
{
    let mut file = make_type_name(t.name.as_str());
    append_str(&mut file, ".js");
    let ghost before = out@;
    match find_dir(&o.package_mapping, &t.package) {
        Some(i) => {
            let abs = path_join_exec(o.output_dir.as_str(), o.package_mapping[i].1.as_str());
            match diff_paths_text(abs.as_str(), current) {
                None => Err(GeneratorError::InvalidOptions("Could not find relative path.".to_owned())),
                Some(rel) => {
                    let p = path_join_exec(rel.as_str(), file.as_str());
                    append_str(out, "import * as ");
                    crate::ts::write_import_name(out, t);
                    append_str(out, " from \"");
                    append_str(out, "./");
                    append_str(out, p.as_str());
                    append_str(out, "\";\n");
                    assert(out@ =~= before + ok_import(import_line(*o, t@, current@)));
                    Ok(())
                },
            }
        },
        None => match find_dir(&o.library_mapping, &t.package) {
            Some(i) => {
                let p = path_join_exec(o.library_mapping[i].1.as_str(), file.as_str());
                append_str(out, "import * as ");
                crate::ts::write_import_name(out, t);
                append_str(out, " from \"");
                append_str(out, p.as_str());
                append_str(out, "\";\n");
                assert(out@ =~= before + ok_import(import_line(*o, t@, current@)));
                Ok(())
            },
            None => Err(GeneratorError::UnmappedPackage(t.package.copy())),
        },
    }
}

/// The text of a successful import line.
pub open spec fn ok_import(r: Result<Seq<char>, GeneratorErrorV>) -> Seq<char> {
    crate::java::ok_text(r)
}

/// Whether the name `x` comes before the name `y`.
pub open spec fn names_before(x: NameView, y: NameView) -> bool {
    names_order(x, y) == Ordering::Less
}

/// Whether the name `x` comes before the name `y`.
fn comes_before(x: &QualifiedName, y: &QualifiedName) -> (r: bool)
    ensures
        r == names_before(x@, y@),
{
    match x.cmp(y) {
        Ordering::Less => true,
        Ordering::Equal => false,
        Ordering::Greater => false,
    }
}

/// The position at which `x` goes into `s`, searching from `i`: before the
/// first name that comes after it, or at the end.
pub open spec fn insert_pos(s: Seq<NameView>, x: NameView, i: nat) -> nat
    decreases s.len() - i,
{
    if i >= s.len() {
        s.len()
    } else if names_before(x, s[i as int]) {
        i
    } else {
        insert_pos(s, x, i + 1)
    }
}

/// The first `n` names of `s` in order: each inserted in turn before the
/// first name already placed that comes after it.
pub open spec fn sorted_names(s: Seq<NameView>, n: nat) -> Seq<NameView>
    decreases n,
{
    if n == 0 || n > s.len() {
        Seq::empty()
    } else {
        let p = sorted_names(s, (n - 1) as nat);
        p.insert(insert_pos(p, s[n - 1], 0) as int, s[n - 1])
    }
}

/// Sorts names into order.
pub fn sort_names(v: &Vec<QualifiedName>) -> (r: Vec<QualifiedName>)
    ensures
        names_of(r@) == sorted_names(names_of(v@), v@.len()),
        names_sorted(names_of(r@)),
        names_of(r@).to_multiset() == names_of(v@).to_multiset(),
{
    let ghost vv = names_of(v@);
    let mut out: Vec<QualifiedName> = Vec::new();
    assert(names_of(out@) =~= sorted_names(vv, 0));
    let mut i: usize = 0;
    while i < v.len()
        invariant
            i <= v@.len(),
            vv == names_of(v@),
            names_of(out@) == sorted_names(vv, i as nat),
        decreases v@.len() - i,
    {
        let x = v[i].copy();
        let ghost ov = names_of(out@);
        let mut j: usize = 0;
        while j < out.len() && !comes_before(&x, &out[j])
            invariant
                j <= out@.len(),
                ov == names_of(out@),
                x@ == vv[i as int],
                insert_pos(ov, x@, j as nat) == insert_pos(ov, x@, 0),
            decreases out@.len() - j,
        {
            assert(ov[j as int] == out@[j as int]@);
            j = j + 1;
        }
        proof {
            if j < out@.len() {
                assert(ov[j as int] == out@[j as int]@);
            }
        }
        assert(insert_pos(ov, x@, j as nat) == j);
        out.insert(j, x);
        assert(names_of(out@) =~= ov.insert(j as int, vv[i as int]));
        i = i + 1;
    }
    proof {
        lemma_sorted_names(vv, vv.len());
        assert(vv.take(vv.len() as int) =~= vv);
    }
    out
}


/// The import lines for the names `names[..n]` of a file for the element
/// `cur` in the directory `current`: none for the element itself or for a
/// type parameter.
pub open spec fn imports_text(o: TSOptions, cur: NameView, scope: Scope, names: Seq<NameView>, current: Seq<char>, n: nat) -> Result<Seq<char>, GeneratorErrorV>
    decreases n,
{
    if n == 0 || n > names.len() {
        Ok(Seq::empty())
    } else {
        match imports_text(o, cur, scope, names, current, (n - 1) as nat) {
            Err(e) => Err(e),
            Ok(p) => if names[n - 1] == cur {
                Ok(p)
            } else {
                match scope.lookup_view(names[n - 1]) {
                    ScopeLookupView::TypeParameter(_) => Ok(p),
                    ScopeLookupView::NamedType(t) => match import_line(o, t, current) {
                        Err(e) => Err(e),
                        Ok(l) => Ok(p + l),
                    },
                }
            },
        }
    }
}

/// Once the imports before `k` fail, so do those before any later `n`.
proof fn lemma_imports_err(o: TSOptions, cur: NameView, scope: Scope, names: Seq<NameView>, current: Seq<char>, k: nat, n: nat)
    requires
        k <= n <= names.len(),
        imports_text(o, cur, scope, names, current, k) is Err,
    ensures
        imports_text(o, cur, scope, names, current, n) == imports_text(o, cur, scope, names, current, k),
    decreases n,
{
    if n > k {
        lemma_imports_err(o, cur, scope, names, current, k, (n - 1) as nat);
    }
}

/// The imports of a file for the element `cur` that refers to the names
/// `refs`: one line for each, in the order of the names.
pub open spec fn file_imports(o: TSOptions, cur: NameView, scope: Scope, refs: Seq<NameView>) -> Result<Seq<char>, GeneratorErrorV> {
    match package_dir(o, cur.0) {
        Err(e) => Err(e),
        Ok(current) => {
            let names = sorted_names(refs, refs.len());
            imports_text(o, cur, scope, names, current, names.len())
        },
    }
}

/// Sorting keeps the number of names.
proof fn lemma_sorted_names_len(s: Seq<NameView>, n: nat)
    requires
        n <= s.len(),
    ensures
        sorted_names(s, n).len() == n,
    decreases n,
{
    if n > 0 {
        lemma_sorted_names_len(s, (n - 1) as nat);
        lemma_insert_pos_bound(sorted_names(s, (n - 1) as nat), s[n - 1], 0);
    }
}

/// The position of an insertion lies within the sequence.
proof fn lemma_insert_pos_bound(s: Seq<NameView>, x: NameView, i: nat)
    ensures
        insert_pos(s, x, i) <= s.len(),
        i <= s.len() ==> i <= insert_pos(s, x, i),
    decreases s.len() - i,
{
    if i < s.len() && !names_before(x, s[i as int]) {
        lemma_insert_pos_bound(s, x, i + 1);
    }
}

/// Writes the imports of a file for the element `cur` that refers to the
/// names `refs`.
fn write_imports(o: &TSOptions, out: &mut String, cur: &QualifiedName, scope: &Scope, refs: &Vec<QualifiedName>) -> (r: Result<(), GeneratorError>)
    ensures
        wrote(r, old(out)@, final(out)@, file_imports(*o, cur@, *scope, names_of(refs@))),
{
    let current = match package_dir_exec(o, &cur.package) {
        Ok(d) => d,
        Err(x) => return Err(x),
    };
    let n = refs.len();
    let ghost rv = names_of(refs@);
    let names = sort_names(refs);
    let ghost nv = names_of(names@);
    proof {
        lemma_sorted_names_len(names_of(refs@), n as nat);
    }
    let ghost start = out@;
    let mut i: usize = 0;
    while i < names.len()
        invariant
            i <= names@.len(),
            nv == names_of(names@),
            nv.len() == names@.len(),
            nv == sorted_names(rv, rv.len()),
            rv == names_of(refs@),
            package_dir(*o, cur@.0) == Ok::<Seq<char>, GeneratorErrorV>(current@),
            imports_text(*o, cur@, *scope, nv, current@, i as nat) is Ok,
            out@ == start + ok_text(imports_text(*o, cur@, *scope, nv, current@, i as nat)),
        decreases names@.len() - i,
    {
        assert(nv[i as int] == names@[i as int]@);
        if !names[i].equals(cur) {
            match scope.lookup(names[i].copy()) {
                ScopeLookup::TypeParameter(_) => {},
                ScopeLookup::NamedType(t) => {
                    assert(scope.lookup_view(nv[i as int]) == ScopeLookupView::NamedType(t@));
                    match write_import_line(o, out, &t, current.as_str()) {
                        Ok(()) => {},
                        Err(x) => {
                            assert(imports_text(*o, cur@, *scope, nv, current@, (i + 1) as nat) == Err::<Seq<char>, GeneratorErrorV>(x@));
                            proof {
                                lemma_imports_err(*o, cur@, *scope, nv, current@, (i + 1) as nat, nv.len());
                            }
                            assert(file_imports(*o, cur@, *scope, rv) == Err::<Seq<char>, GeneratorErrorV>(x@));
                            return Err(x);
                        },
                    }
                },
            }
        }
        assert(out@ =~= start + ok_text(imports_text(*o, cur@, *scope, nv, current@, (i + 1) as nat)));
        i = i + 1;
    }
    Ok(())
}

/// The members `outs[..n]` of a constant's module: one exported constant
/// for each version.
pub open spec fn const_members(cur: Option<NameView>, outs: Seq<(Seq<char>, LangTypeV, LangExprV)>, n: nat) -> Seq<char>
    decreases n,
{
    if n == 0 || n > outs.len() {
        Seq::empty()
    } else {
        const_members(cur, outs, (n - 1) as nat) + "export const "@ + outs[n - 1].0 + ": "@ + ts_type_text(cur, outs[n - 1].1) + " = "@
            + ts_expr_text(cur, outs[n - 1].2) + ";\n"@
    }
}

/// The TypeScript module of a constant: its imports, then an exported
/// constant for each version.
#[verifier::opaque]
pub open spec fn const_module_text<'a>(o: TSOptions, c: Named<'a, Constant>) -> Result<Seq<char>, GeneratorErrorV> {
    match file_imports(o, c.name@, constant_scope(c), add_unseen(Seq::empty(), type_names(c.value.value_type))) {
        Err(e) => Err(e),
        Ok(imps) => match generate_constant_spec(c.model, constant_scope(c), c) {
            Err(e) => Err(e),
            Ok(outs) => Ok(imps + const_members(Some(c.name@), outs, outs.len())),
        },
    }
}

/// Writes the members of a constant's module.
fn write_const_members<'a>(cur: &QualifiedName, out: &mut String, outs: &Vec<ConstantVersionOutput<'a>>)
    ensures
        final(out)@ == old(out)@ + const_members(Some(cur@), outs@.map_values(|x: ConstantVersionOutput<'a>| constant_output_view(x)), outs@.len()),
{
    let ghost ov = outs@.map_values(|x: ConstantVersionOutput<'a>| constant_output_view(x));
    let ghost start = out@;
    let mut convs: Vec<String> = Vec::new();
    let mut i: usize = 0;
    while i < outs.len()
        invariant
            i <= outs@.len(),
            ov == outs@.map_values(|x: ConstantVersionOutput<'a>| constant_output_view(x)),
            out@ == start + const_members(Some(cur@), ov, i as nat),
        decreases outs@.len() - i,
    {
        append_str(out, "export const ");
        append_str(out, outs[i].version_name.as_str());
        append_str(out, ": ");
        ts_write_type(Some(cur), out, &outs[i].value_type);
        append_str(out, " = ");
        ts_write_expr(Some(cur), out, &mut convs, &outs[i].value);
        append_str(out, ";\n");
        assert(out@ =~= start + const_members(Some(cur@), ov, (i + 1) as nat));
        i = i + 1;
    }
}

/// The TypeScript module of a constant.
pub fn ts_const_module<'a>(o: &TSOptions, c: Named<'a, Constant>) -> (r: Result<String, GeneratorError>)
    ensures
        text_result(r) == const_module_text(*o, c),
{
    reveal(const_module_text);
    let mut out = String::new();
    proof {
        assert(out@ == Seq::<char>::empty());
    }
    let scope = Scope::of_constant(&c);
    assert(scope == constant_scope(c));
    let refs = c.value.referenced_types();
    match write_imports(o, &mut out, c.name, &scope, &refs) {
        Ok(()) => {},
        Err(x) => return Err(x),
    }
    let cg = ConstGenerator::new(c.share());
    assert(cg.gen.scope == constant_scope(c));
    let outs = match cg.generate() {
        Ok(os) => os,
        Err(x) => return Err(x),
    };
    write_const_members(c.name, &mut out, &outs);
    Ok(out)
}

/// The operations `ops[..n]` as exported members at indentation `ind`.
pub open spec fn ts_ops_text(cur: Option<NameView>, ind: nat, ops: Seq<OperationInfoV>, n: nat) -> Seq<char>
    decreases n,
{
    if n == 0 || n > ops.len() {
        Seq::empty()
    } else {
        ts_ops_text(cur, ind, ops, (n - 1) as nat) + ts_operation_text(cur, ind, ops[n - 1])
    }
}

/// The user converters that the operations `ops[..n]` call.
pub open spec fn ops_convs(ops: Seq<OperationInfoV>, n: nat) -> Seq<Seq<char>>
    decreases n,
{
    if n == 0 || n > ops.len() {
        Seq::empty()
    } else {
        ops_convs(ops, (n - 1) as nat) + impl_convs(ops[n - 1].implementation)
    }
}

/// Writes operations as exported members, and adds the user converters
/// they call to `convs`.
fn write_ts_ops(cur: &QualifiedName, out: &mut String, convs: &mut Vec<String>, ind: usize, ops: &Vec<OperationInfo>)
    ensures
        final(out)@ == old(out)@ + ts_ops_text(Some(cur@), ind as nat, ops_view(ops@), ops@.len()),
        strings_view(final(convs)@) == strings_view(old(convs)@) + ops_convs(ops_view(ops@), ops@.len()),
{
    let ghost ov = ops_view(ops@);
    let ghost start = out@;
    let ghost cs = strings_view(convs@);
    let mut i: usize = 0;
    while i < ops.len()
        invariant
            i <= ops@.len(),
            ov == ops_view(ops@),
            out@ == start + ts_ops_text(Some(cur@), ind as nat, ov, i as nat),
            strings_view(convs@) == cs + ops_convs(ov, i as nat),
        decreases ops@.len() - i,
    {
        ts_write_operation(Some(cur), out, convs, ind, &ops[i]);
        assert(cur_view(Some(cur)) == Some(cur@));
        assert(out@ =~= start + ts_ops_text(Some(cur@), ind as nat, ov, (i + 1) as nat));
        assert(strings_view(convs@) =~= cs + ops_convs(ov, (i + 1) as nat));
        i = i + 1;
    }
}

/// The user converters imported after the versions `outs[..n]`.
pub open spec fn imported_before(outs: Seq<(LangTypeV, Seq<OperationInfoV>)>, n: nat) -> Seq<Seq<char>>
    decreases n,
{
    if n == 0 || n > outs.len() {
        Seq::empty()
    } else {
        let ops = outs[n - 1].1;
        imported_after(imported_before(outs, (n - 1) as nat), ops_convs(ops, ops.len()), ops_convs(ops, ops.len()).len())
    }
}

/// One version of a struct or enum: its declarations, its namespace of
/// operations, and the imports of the user converters they call that are
/// not imported yet.
pub open spec fn ts_version_text(
    cur: NameView,
    tps: Seq<Seq<char>>,
    t: LangTypeV,
    ops: Seq<OperationInfoV>,
    imported: Seq<Seq<char>>,
) -> Result<Seq<char>, GeneratorErrorV> {
    match ts_version_header(Some(cur), tps, t) {
        Err(e) => Err(e),
        Ok(h) => {
            let pending = ops_convs(ops, ops.len());
            Ok(h + ts_ops_text(Some(cur), 1, ops, ops.len()) + "}\n"@ + conv_imports_text(imported, pending, cur.1, pending.len()))
        },
    }
}

/// The versions `outs[..n]` of a struct or enum.
pub open spec fn ts_versions_text(cur: NameView, tps: Seq<Seq<char>>, outs: Seq<(LangTypeV, Seq<OperationInfoV>)>, n: nat) -> Result<Seq<char>, GeneratorErrorV>
    decreases n,
{
    if n == 0 || n > outs.len() {
        Ok(Seq::empty())
    } else {
        match ts_versions_text(cur, tps, outs, (n - 1) as nat) {
            Err(e) => Err(e),
            Ok(p) => match ts_version_text(cur, tps, outs[n - 1].0, outs[n - 1].1, imported_before(outs, (n - 1) as nat)) {
                Err(e) => Err(e),
                Ok(v) => Ok(p + v),
            },
        }
    }
}

/// Once the versions before `k` fail, so do those before any later `n`.
proof fn lemma_ts_versions_err(cur: NameView, tps: Seq<Seq<char>>, outs: Seq<(LangTypeV, Seq<OperationInfoV>)>, k: nat, n: nat)
    requires
        k <= n <= outs.len(),
        ts_versions_text(cur, tps, outs, k) is Err,
    ensures
        ts_versions_text(cur, tps, outs, n) == ts_versions_text(cur, tps, outs, k),
    decreases n,
{
    if n > k {
        lemma_ts_versions_err(cur, tps, outs, k, (n - 1) as nat);
    }
}

/// The line that imports the runtime library.
pub open spec fn runtime_import() -> Seq<char> {
    "import {Codec, FormatWriter, FormatReader, Converter, natCodec, RemoteObjectId, RemoteConnection, RemoteObject} from \"@verilization/runtime\";\n"@
}

/// The TypeScript module of a struct or enum: the runtime import, its
/// imports, then each version.
#[verifier::opaque]
pub open spec fn type_module_text<'a>(o: TSOptions, td: Named<'a, VersionedTypeDefinitionData>) -> Result<Seq<char>, GeneratorErrorV> {
    match file_imports(o, td.name@, versioned_scope(td), add_unseen(Seq::empty(), versions_names(td.value.versions@))) {
        Err(e) => Err(e),
        Ok(imps) => match generate_type_spec(td.model, versioned_scope(td), td) {
            Err(e) => Err(e),
            Ok(outs) => match ts_versions_text(td.name@, strings_view(td.value.type_params@), outs, outs.len()) {
                Err(e) => Err(e),
                Ok(vs) => Ok(runtime_import() + imps + vs),
            },
        },
    }
}

/// Writes one version of a struct or enum.
#[verifier::spinoff_prover]
fn write_ts_version<'a>(
    cur: &QualifiedName,
    out: &mut String,
    imported: &mut Vec<String>,
    tps: &Vec<String>,
    o: &TypeVersionOutput<'a>,
) -> (r: Result<(), GeneratorError>)
    ensures
        wrote(r, old(out)@, final(out)@, ts_version_text(cur@, strings_view(tps@), o.version_type@, ops_view(o.operations@),
            strings_view(old(imported)@))),
        r is Ok ==> strings_view(final(imported)@) == imported_after(strings_view(old(imported)@),
            ops_convs(ops_view(o.operations@), o.operations@.len()), ops_convs(ops_view(o.operations@), o.operations@.len()).len()),
{
    let ghost before = out@;
    match ts_write_version_header(Some(cur), out, tps, &o.version_type) {
        Ok(()) => {},
        Err(x) => return Err(x),
    }
    let ghost hv = ok_text(ts_version_header(Some(cur@), strings_view(tps@), o.version_type@));
    assert(cur_view(Some(cur)) == Some(cur@));
    assert(ts_version_header(Some(cur@), strings_view(tps@), o.version_type@) == Ok::<Seq<char>, GeneratorErrorV>(hv));
    assert(out@ == before + hv);
    let ghost ov = ops_view(o.operations@);
    let mut convs: Vec<String> = Vec::new();
    assert(strings_view(convs@) =~= Seq::<Seq<char>>::empty());
    write_ts_ops(cur, out, &mut convs, 1, &o.operations);
    let ghost ot = ts_ops_text(Some(cur@), 1, ov, ov.len());
    let ghost pending = ops_convs(ov, ov.len());
    assert(strings_view(convs@) =~= pending);
    let ghost mid = out@;
    assert(mid == before + hv + ot);
    ts_write_version_footer(out, imported, &convs, cur.name.as_str());
    let ghost ci = conv_imports_text(strings_view(old(imported)@), pending, cur@.1, pending.len());
    assert(out@ == mid + ("}\n"@ + ci));
    assert(out@ =~= before + (hv + ot + "}\n"@ + ci));
    assert(ts_version_text(cur@, strings_view(tps@), o.version_type@, ov, strings_view(old(imported)@)) == Ok::<Seq<char>, GeneratorErrorV>(hv + ot + "}\n"@ + ci));
    assert(strings_view(imported@) == imported_after(strings_view(old(imported)@), pending, pending.len()));
    Ok(())
}

/// Writes the versions of a struct or enum.
fn write_ts_versions<'a>(cur: &QualifiedName, out: &mut String, tps: &Vec<String>, outs: &Vec<TypeVersionOutput<'a>>) -> (r: Result<(), GeneratorError>)
    ensures
        wrote(r, old(out)@, final(out)@, ts_versions_text(cur@, strings_view(tps@), outputs_view(outs@), outs@.len())),
{
    let ghost ov = outputs_view(outs@);
    let ghost start = out@;
    let mut imported: Vec<String> = Vec::new();
    assert(strings_view(imported@) =~= imported_before(ov, 0));
    let mut i: usize = 0;
    while i < outs.len()
        invariant
            i <= outs@.len(),
            ov == outputs_view(outs@),
            ov.len() == outs@.len(),
            strings_view(imported@) == imported_before(ov, i as nat),
            ts_versions_text(cur@, strings_view(tps@), ov, i as nat) is Ok,
            out@ == start + ok_text(ts_versions_text(cur@, strings_view(tps@), ov, i as nat)),
        decreases outs@.len() - i,
    {
        assert(ov[i as int] == (outs@[i as int].version_type@, ops_view(outs@[i as int].operations@)));
        let ghost done = ts_versions_text(cur@, strings_view(tps@), ov, i as nat);
        match write_ts_version(cur, out, &mut imported, tps, &outs[i]) {
            Ok(()) => {},
            Err(x) => {
                proof {
                    lemma_ts_versions_err(cur@, strings_view(tps@), ov, (i + 1) as nat, ov.len());
                }
                return Err(x);
            },
        }
        assert(out@ =~= start + ok_text(ts_versions_text(cur@, strings_view(tps@), ov, (i + 1) as nat)));
        i = i + 1;
    }
    Ok(())
}

/// The TypeScript module of a struct or enum definition.
pub fn ts_type_module<'a>(o: &TSOptions, td: Named<'a, VersionedTypeDefinitionData>) -> (r: Result<String, GeneratorError>)
    ensures
        text_result(r) == type_module_text(*o, td),
{
    reveal(type_module_text);
    let mut out = String::new();
    append_str(&mut out, "import {Codec, FormatWriter, FormatReader, Converter, natCodec, RemoteObjectId, RemoteConnection, RemoteObject} from \"@verilization/runtime\";\n");
    let ghost head = out@;
    let scope = Scope::of_versioned_type(&td);
    assert(scope == versioned_scope(td));
    let refs = td.value.referenced_types();
    match write_imports(o, &mut out, td.name, &scope, &refs) {
        Ok(()) => {},
        Err(x) => return Err(x),
    }
    let ghost imps = out@;
    let tg = TypeGenerator::new(td.share());
    let outs = match tg.generate() {
        Ok(os) => os,
        Err(x) => return Err(x),
    };
    proof {
        assert(outputs_view(outs@) =~= outs@.map_values(|o: TypeVersionOutput<'a>| crate::generator::version_output_view(o)));
    }
    match write_ts_versions(td.name, &mut out, &td.value.type_params, &outs) {
        Ok(()) => {},
        Err(x) => return Err(x),
    }
    Ok(out)
}


/// The path of the TypeScript file of the type or constant `n`: its
/// package's directory under the output directory, then its name with the
/// first character in upper case and `.ts`. Only a generated package has one.
pub open spec fn ts_file_path(o: TSOptions, n: NameView) -> Result<Seq<char>, GeneratorErrorV> {
    match map_get(dir_map_view(o.package_mapping@), n.0) {
        Some(d) => Ok(path_join(path_join(o.output_dir@, d), capitalized(n.1) + ".ts"@)),
        None => Err(GeneratorErrorV::UnmappedPackage(n.0)),
    }
}

/// The path of the TypeScript file of the type or constant `name`.
pub fn ts_file_path_exec(o: &TSOptions, name: &QualifiedName) -> (r: Result<String, GeneratorError>)
    ensures
        match ts_file_path(*o, name@) {
            Ok(p) => r matches Ok(x) && x@ == p,
            Err(e) => r matches Err(x) && x@ == e,
        },
{
    match find_dir(&o.package_mapping, &name.package) {
        Some(i) => {
            let dir = path_join_exec(o.output_dir.as_str(), o.package_mapping[i].1.as_str());
            let mut file = make_type_name(name.name.as_str());
            append_str(&mut file, ".ts");
            Ok(path_join_exec(dir.as_str(), file.as_str()))
        },
        None => Err(GeneratorError::UnmappedPackage(name.package.copy())),
    }
}

/// A generated TypeScript file: its path and its text.
pub struct TSFile {
    pub path: String,
    pub contents: String,
}

/// The view of a generated file.
pub open spec fn ts_files_view(fs: Seq<TSFile>) -> Seq<(Seq<char>, Seq<char>)> {
    fs.map_values(|f: TSFile| (f.path@, f.contents@))
}

/// A file at the path of `n` with the text `text`, unless either fails.
pub open spec fn ts_file_entry(o: TSOptions, n: NameView, text: Result<Seq<char>, GeneratorErrorV>) -> Result<(Seq<char>, Seq<char>), GeneratorErrorV> {
    match ts_file_path(o, n) {
        Err(e) => Err(e),
        Ok(p) => match text {
            Err(e) => Err(e),
            Ok(t) => Ok((p, t)),
        },
    }
}

/// The files of the first `n` constants of `model`.
pub open spec fn ts_const_files(o: TSOptions, model: &Verilization, n: nat) -> Result<Seq<(Seq<char>, Seq<char>)>, GeneratorErrorV>
    decreases n,
{
    let es = model.constant_entries();
    if n == 0 || n > es.len() {
        Ok(Seq::empty())
    } else {
        match ts_const_files(o, model, (n - 1) as nat) {
            Err(e) => Err(e),
            Ok(p) => {
                let c = Named { model: model, name: &es[n - 1].0, value: &es[n - 1].1 };
                match ts_file_entry(o, es[n - 1].0@, const_module_text(o, c)) {
                    Err(e) => Err(e),
                    Ok(f) => Ok(p.push(f)),
                }
            },
        }
    }
}

/// The files of the first `n` type definitions of `model`: one for each
/// struct or enum; an extern type has none.
pub open spec fn ts_type_files(o: TSOptions, model: &Verilization, n: nat) -> Result<Seq<(Seq<char>, Seq<char>)>, GeneratorErrorV>
    decreases n,
{
    let es = model.type_entries();
    if n == 0 || n > es.len() {
        Ok(Seq::empty())
    } else {
        match ts_type_files(o, model, (n - 1) as nat) {
            Err(e) => Err(e),
            Ok(p) => match es[n - 1].1 {
                TypeDefinition::StructType(d) => match ts_file_entry(o, es[n - 1].0@,
                    type_module_text(o, Named { model: model, name: &es[n - 1].0, value: &d })) {
                    Err(e) => Err(e),
                    Ok(f) => Ok(p.push(f)),
                },
                TypeDefinition::EnumType(d) => match ts_file_entry(o, es[n - 1].0@,
                    type_module_text(o, Named { model: model, name: &es[n - 1].0, value: &d })) {
                    Err(e) => Err(e),
                    Ok(f) => Ok(p.push(f)),
                },
                TypeDefinition::ExternType(_) => Ok(p),
            },
        }
    }
}

/// The TypeScript files of a model: those of its constants, then those of
/// its types, each in the order of the model; the first error stops.
pub open spec fn ts_files(o: TSOptions, model: &Verilization) -> Result<Seq<(Seq<char>, Seq<char>)>, GeneratorErrorV> {
    match ts_const_files(o, model, model.constant_entries().len()) {
        Err(e) => Err(e),
        Ok(cs) => match ts_type_files(o, model, model.type_entries().len()) {
            Err(e) => Err(e),
            Ok(ts) => Ok(cs + ts),
        },
    }
}

/// Once the constants before `k` fail, so do those before any later `n`.
proof fn lemma_ts_const_files_err(o: TSOptions, model: &Verilization, k: nat, n: nat)
    requires
        k <= n <= model.constant_entries().len(),
        ts_const_files(o, model, k) is Err,
    ensures
        ts_const_files(o, model, n) == ts_const_files(o, model, k),
    decreases n,
{
    if n > k {
        lemma_ts_const_files_err(o, model, k, (n - 1) as nat);
    }
}

/// Once the types before `k` fail, so do those before any later `n`.
proof fn lemma_ts_type_files_err(o: TSOptions, model: &Verilization, k: nat, n: nat)
    requires
        k <= n <= model.type_entries().len(),
        ts_type_files(o, model, k) is Err,
    ensures
        ts_type_files(o, model, n) == ts_type_files(o, model, k),
    decreases n,
{
    if n > k {
        lemma_ts_type_files_err(o, model, k, (n - 1) as nat);
    }
}

/// A generated file at the path of `name`, with `text`.
fn make_ts_file(o: &TSOptions, name: &QualifiedName, text: Result<String, GeneratorError>) -> (r: Result<TSFile, GeneratorError>)
    ensures
        match ts_file_entry(*o, name@, text_result(text)) {
            Ok(f) => r matches Ok(x) && (x.path@, x.contents@) == f,
            Err(e) => r matches Err(x) && x@ == e,
        },
{
    let path = match ts_file_path_exec(o, name) {
        Ok(p) => p,
        Err(x) => return Err(x),
    };
    match text {
        Ok(contents) => Ok(TSFile { path, contents }),
        Err(x) => Err(x),
    }
}

/// The files of the constants of a model.
#[verifier::spinoff_prover]
fn ts_constant_files(model: &Verilization, options: &TSOptions) -> (r: Result<Vec<TSFile>, GeneratorError>)
    ensures
        match ts_const_files(*options, model, model.constant_entries().len()) {
            Ok(fs) => r matches Ok(x) && ts_files_view(x@) == fs,
            Err(e) => r matches Err(x) && x@ == e,
        },
{
    let mut files: Vec<TSFile> = Vec::new();
    assert(ts_files_view(files@) =~= Seq::empty());
    let consts = model.constants();
    let ghost ces = model.constant_entries();
    let mut i: usize = 0;
    while i < consts.len()
        invariant
            i <= consts@.len(),
            consts@.len() == ces.len(),
            ces == model.constant_entries(),
            forall|k: int| 0 <= k < consts@.len() ==> *(#[trigger] consts@[k]).value == ces[k].1
                && *consts@[k].name == ces[k].0 && consts@[k].model == model,
            ts_const_files(*options, model, i as nat) == Ok::<Seq<(Seq<char>, Seq<char>)>, GeneratorErrorV>(ts_files_view(files@)),
        decreases consts@.len() - i,
    {
        let c = consts[i].share();
        assert(c == Named { model: model, name: &ces[i as int].0, value: &ces[i as int].1 });
        let text = ts_const_module(options, c.share());
        match make_ts_file(options, c.name, text) {
            Ok(f) => {
                let ghost before = files@;
                let ghost fv = (f.path@, f.contents@);
                files.push(f);
                assert(ts_files_view(files@) =~= ts_files_view(before).push(fv));
            },
            Err(x) => {
                proof {
                    lemma_ts_const_files_err(*options, model, (i + 1) as nat, ces.len());
                }
                return Err(x);
            },
        }
        i = i + 1;
    }
    Ok(files)
}

/// The file of one type definition, if it is a struct or an enum.
fn ts_type_def_file(t: &NamedTypeDefinition, options: &TSOptions) -> (r: Option<Result<TSFile, GeneratorError>>)
    ensures
        match *t {
            NamedTypeDefinition::StructType(d) => r matches Some(x) && match ts_file_entry(*options, d.name@, type_module_text(*options, d)) {
                Ok(f) => x matches Ok(y) && (y.path@, y.contents@) == f,
                Err(e) => x matches Err(y) && y@ == e,
            },
            NamedTypeDefinition::EnumType(d) => r matches Some(x) && match ts_file_entry(*options, d.name@, type_module_text(*options, d)) {
                Ok(f) => x matches Ok(y) && (y.path@, y.contents@) == f,
                Err(e) => x matches Err(y) && y@ == e,
            },
            NamedTypeDefinition::ExternType(_) => r is None,
        },
{
    match t {
        NamedTypeDefinition::StructType(d) => {
            let text = ts_type_module(options, d.share());
            Some(make_ts_file(options, d.name, text))
        },
        NamedTypeDefinition::EnumType(d) => {
            let text = ts_type_module(options, d.share());
            Some(make_ts_file(options, d.name, text))
        },
        NamedTypeDefinition::ExternType(_) => None,
    }
}

/// The files of the structs and enums of a model.
#[verifier::spinoff_prover]
fn ts_type_def_files(model: &Verilization, options: &TSOptions) -> (r: Result<Vec<TSFile>, GeneratorError>)
    ensures
        match ts_type_files(*options, model, model.type_entries().len()) {
            Ok(fs) => r matches Ok(x) && ts_files_view(x@) == fs,
            Err(e) => r matches Err(x) && x@ == e,
        },
{
    let types = model.types();
    let ghost tes = model.type_entries();
    let mut files: Vec<TSFile> = Vec::new();
    assert(ts_files_view(files@) =~= Seq::empty());
    let mut j: usize = 0;
    while j < types.len()
        invariant
            j <= types@.len(),
            types@.len() == tes.len(),
            tes == model.type_entries(),
            forall|k: int| 0 <= k < types@.len() ==> (#[trigger] types@[k]).definition() == tes[k].1
                && types@[k].is_in(model, tes[k].0),
            ts_type_files(*options, model, j as nat) == Ok::<Seq<(Seq<char>, Seq<char>)>, GeneratorErrorV>(ts_files_view(files@)),
        decreases types@.len() - j,
    {
        let made = ts_type_def_file(&types[j], options);
        proof {
            match types@[j as int] {
                NamedTypeDefinition::StructType(d) => {
                    assert(d == Named { model: model, name: &tes[j as int].0, value: &(tes[j as int].1->StructType_0) });
                },
                NamedTypeDefinition::EnumType(d) => {
                    assert(d == Named { model: model, name: &tes[j as int].0, value: &(tes[j as int].1->EnumType_0) });
                },
                NamedTypeDefinition::ExternType(_) => {},
            }
        }
        match made {
            Some(Ok(f)) => {
                let ghost before = files@;
                let ghost fv = (f.path@, f.contents@);
                files.push(f);
                assert(ts_files_view(files@) =~= ts_files_view(before).push(fv));
            },
            Some(Err(x)) => {
                proof {
                    lemma_ts_type_files_err(*options, model, (j + 1) as nat, tes.len());
                }
                return Err(x);
            },
            None => {},
        }
        j = j + 1;
    }
    Ok(files)
}

impl Language for TypeScriptLanguage {
    type Options = TSOptions;
    type File = TSFile;

    open spec fn language_name() -> Seq<char> {
        "typescript"@
    }

    open spec fn generates(model: &Verilization, options: TSOptions, r: Result<Vec<TSFile>, GeneratorError>) -> bool {
        match ts_files(options, model) {
            Ok(fs) => r matches Ok(x) && ts_files_view(x@) == fs,
            Err(e) => r matches Err(x) && x@ == e,
        }
    }

    open spec fn file_view(file: TSFile) -> (Seq<Seq<char>>, Seq<char>) {
        (seq![file.path@], file.contents@)
    }

    fn name() -> (r: &'static str) {
        "typescript"
    }

    /// The TypeScript files of a model: for each constant, then for each
    /// struct or enum, the path of its file and its text.
    fn generate(model: &Verilization, options: &TSOptions) -> (r: Result<Vec<TSFile>, GeneratorError>) {
        let mut files = match ts_constant_files(model, options) {
            Ok(fs) => fs,
            Err(x) => return Err(x),
        };
        let mut tfiles = match ts_type_def_files(model, options) {
            Ok(fs) => fs,
            Err(x) => return Err(x),
        };
        let ghost cs = ts_files_view(files@);
        let ghost ts = ts_files_view(tfiles@);
        files.append(&mut tfiles);
        assert(ts_files_view(files@) =~= cs + ts);
        Ok(files)
    }

    fn file_parts(file: TSFile) -> (r: (Vec<String>, String)) {
        (vec![file.path], file.contents)
    }
}


/// Coming before is transitive.
proof fn lemma_before_trans(a: NameView, b: NameView, c: NameView)
    requires
        names_before(a, b),
        names_before(b, c),
    ensures
        names_before(a, c),
{
    lemma_names_order_trans(a, b, c);
}

/// Of two names, at most one comes before the other.
proof fn lemma_before_asym(a: NameView, b: NameView)
    ensures
        names_before(a, b) ==> !names_before(b, a),
{
    lemma_names_order(a, b);
}

/// No name in `r` comes before one ahead of it.
pub open spec fn names_sorted(r: Seq<NameView>) -> bool {
    forall|i: int, j: int| 0 <= i < j < r.len() ==> !names_before(#[trigger] r[j], #[trigger] r[i])
}

/// The names ahead of the insertion position do not come after `x`, and
/// the one at it does.
proof fn lemma_insert_pos(s: Seq<NameView>, x: NameView, i: nat)
    requires
        i <= s.len(),
    ensures
        i <= insert_pos(s, x, i) <= s.len(),
        forall|k: int| i <= k < insert_pos(s, x, i) ==> !names_before(x, #[trigger] s[k]),
        insert_pos(s, x, i) < s.len() ==> names_before(x, s[insert_pos(s, x, i) as int]),
    decreases s.len() - i,
{
    if i < s.len() && !names_before(x, s[i as int]) {
        lemma_insert_pos(s, x, i + 1);
    }
}

/// Sorting gives the names in order, each as often as it was given: no
/// name comes before one ahead of it, and the names are those given.
pub proof fn lemma_sorted_names(s: Seq<NameView>, n: nat)
    requires
        n <= s.len(),
    ensures
        sorted_names(s, n).len() == n,
        names_sorted(sorted_names(s, n)),
        sorted_names(s, n).to_multiset() == s.take(n as int).to_multiset(),
    decreases n,
{
    broadcast use vstd::seq_lib::group_to_multiset_ensures;
    if n == 0 {
        assert(s.take(0) =~= Seq::<NameView>::empty());
        assert(sorted_names(s, 0) =~= Seq::<NameView>::empty());
    } else {
        let p = sorted_names(s, (n - 1) as nat);
        let x = s[n - 1];
        lemma_sorted_names(s, (n - 1) as nat);
        lemma_insert_pos(p, x, 0);
        let pos = insert_pos(p, x, 0) as int;
        let r = p.insert(pos, x);
        assert(r == sorted_names(s, n));
        assert forall|i: int, j: int| 0 <= i < j < r.len() implies !names_before(#[trigger] r[j], #[trigger] r[i]) by {
            if i < pos && j == pos {
                assert(!names_before(x, p[i]));
            } else if i == pos && j > pos {
                if names_before(p[j - 1], x) {
                    lemma_before_trans(p[j - 1], x, p[pos]);
                    lemma_before_asym(p[pos], x);
                    if j - 1 > pos {
                        assert(!names_before(p[j - 1], p[pos]));
                    }
                }
            } else if j < pos {
                assert(!names_before(p[j], p[i]));
            } else if i < pos && j > pos {
                assert(!names_before(p[j - 1], p[i]));
            } else {
                assert(!names_before(p[j - 1], p[i - 1]));
            }
        }
        vstd::seq_lib::to_multiset_insert(p, pos, x);
        assert(s.take(n as int) =~= s.take(n - 1).push(x));
    }
}

} // verus!
