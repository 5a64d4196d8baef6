//! Code generation for Java: the options that map packages and extern types
//! to Java, and the Java source text of the generated code.
use vstd::prelude::*;
use crate::bignum::{BigNat, BigInt, Sign, decimal_text};
use crate::names::{PackageName, QualifiedName, package_from_str, qualified_from_str};
use crate::model::NameView;
use crate::text::{append_str, chars_of, string_from_chars, str_eq, string_push, joined_with};
use crate::util::{capitalized, uncapitalized};
use crate::lang::{make_type_name, make_field_name, VersionedTypeKind};
use crate::lang::{LanguageOptions, LanguageOptionsBuilder};
use crate::generator::{
    lemma_lang_exprs_view, GeneratorError, GeneratorErrorV, LangType, LangTypeV, lang_type_view, lang_types_view, lemma_lang_types_view,
    LangExpr, LangExprV, lang_expr_view, lang_exprs_view, opt_expr_view, named_exprs_view, lemma_named_exprs_view, Operation, OperationV,
    OperationTarget, OperationTargetV, constant_version_name, LangStmt, LangStmtV, MatchCase, has_value_spec,
    lang_stmt_view, match_cases_view, disc_cases_view, lemma_match_cases_view, lemma_disc_cases_view,
};

verus! {

/// The Java package that holds the runtime library.
pub open spec fn runtime_package() -> Seq<char> {
    "dev.argon.verilization.runtime"@
}

/// The Java package that holds the runtime library.
pub fn runtime_package_name() -> (r: &'static str)
    ensures
        r@ == runtime_package(),
{
    "dev.argon.verilization.runtime"
}

/// The value of the first entry with key `k`, if any.
pub open spec fn map_get<K, V>(m: Seq<(K, V)>, k: K) -> Option<V>
    decreases m.len(),
{
    if m.len() == 0 {
        None
    } else if m[0].0 == k {
        Some(m[0].1)
    } else {
        map_get(m.drop_first(), k)
    }
}

/// `m` with the value of key `k` set to `v`: the first entry with that key
/// is replaced, or a new entry is added at the end.
pub open spec fn map_insert<K, V>(m: Seq<(K, V)>, k: K, v: V) -> Seq<(K, V)>
    decreases m.len(),
{
    if m.len() == 0 {
        seq![(k, v)]
    } else if m[0].0 == k {
        m.update(0, (k, v))
    } else {
        seq![m[0]] + map_insert(m.drop_first(), k, v)
    }
}

/// The view of a package mapping.
pub open spec fn pkg_map_view(m: Seq<(PackageName, PackageName)>) -> Seq<(Seq<Seq<char>>, Seq<Seq<char>>)> {
    m.map_values(|e: (PackageName, PackageName)| (e.0@, e.1@))
}

/// The view of a name mapping.
pub open spec fn name_map_view(m: Seq<(QualifiedName, QualifiedName)>) -> Seq<(NameView, NameView)> {
    m.map_values(|e: (QualifiedName, QualifiedName)| (e.0@, e.1@))
}

/// The finished options for Java: the output directory, the Java package of
/// each package that is generated, of each library package that is not, and
/// the Java type of each mapped extern type.
pub struct JavaOptions {
    pub output_dir: String,
    pub package_mapping: Vec<(PackageName, PackageName)>,
    pub library_mapping: Vec<(PackageName, PackageName)>,
    pub extern_mapping: Vec<(QualifiedName, QualifiedName)>,
}

/// Options for Java as they are given, one at a time.
pub struct JavaOptionsBuilder {
    pub output_dir: Option<String>,
    pub package_mapping: Vec<(PackageName, PackageName)>,
    pub library_mapping: Vec<(PackageName, PackageName)>,
    pub extern_mapping: Vec<(QualifiedName, QualifiedName)>,
}

/// The view of the Java options being given.
pub struct JavaBuilderV {
    pub output_dir: Option<Seq<char>>,
    pub packages: Seq<(Seq<Seq<char>>, Seq<Seq<char>>)>,
    pub libraries: Seq<(Seq<Seq<char>>, Seq<Seq<char>>)>,
    pub externs: Seq<(NameView, NameView)>,
}

impl View for JavaOptionsBuilder {
    type V = JavaBuilderV;

    open spec fn view(&self) -> JavaBuilderV {
        JavaBuilderV {
            output_dir: match self.output_dir {
                Some(d) => Some(d@),
                None => None,
            },
            packages: pkg_map_view(self.package_mapping@),
            libraries: pkg_map_view(self.library_mapping@),
            externs: name_map_view(self.extern_mapping@),
        }
    }
}

/// Whether `p` starts `s`.
pub open spec fn has_prefix(s: Seq<char>, p: Seq<char>) -> bool {
    p.len() <= s.len() && s.take(p.len() as int) == p
}

/// The options after one more is given, and whether it was accepted.
///
/// `out_dir` sets the output directory, once. `pkg:P` maps package `P` to
/// the Java package given, and `lib:P` maps a library package; a package
/// mapped either way before is refused, and one mapped the same way takes
/// the new mapping all the same. `extern:N` maps extern type `N` to the Java
/// type given; one mapped before takes the new mapping and is refused. Any
/// other option is unknown.
pub open spec fn add_option_spec(b: JavaBuilderV, name: Seq<char>, value: Seq<char>) -> (JavaBuilderV, Result<(), GeneratorErrorV>) {
    if name == "out_dir"@ {
        if b.output_dir is Some {
            (b, Err(GeneratorErrorV::InvalidOptions("Output directory already specified"@)))
        } else {
            (JavaBuilderV { output_dir: Some(value), ..b }, Ok(()))
        }
    } else if has_prefix(name, "pkg:"@) {
        let pkg = name.skip(4);
        let package = package_from_str(pkg);
        if map_get(b.libraries, package) is Some {
            (b, Err(GeneratorErrorV::InvalidOptions("Package already mapped: "@ + pkg)))
        } else {
            let b2 = JavaBuilderV { packages: map_insert(b.packages, package, package_from_str(value)), ..b };
            if map_get(b.packages, package) is Some {
                (b2, Err(GeneratorErrorV::InvalidOptions("Package already mapped: "@ + pkg)))
            } else {
                (b2, Ok(()))
            }
        }
    } else if has_prefix(name, "lib:"@) {
        let pkg = name.skip(4);
        let package = package_from_str(pkg);
        if map_get(b.packages, package) is Some {
            (b, Err(GeneratorErrorV::InvalidOptions("Package already mapped: "@ + pkg)))
        } else {
            let b2 = JavaBuilderV { libraries: map_insert(b.libraries, package, package_from_str(value)), ..b };
            if map_get(b.libraries, package) is Some {
                (b2, Err(GeneratorErrorV::InvalidOptions("Package already mapped: "@ + pkg)))
            } else {
                (b2, Ok(()))
            }
        }
    } else if has_prefix(name, "extern:"@) {
        let en = name.skip(7);
        let qn = qualified_from_str(en);
        let b2 = JavaBuilderV { externs: map_insert(b.externs, qn, qualified_from_str(value)), ..b };
        if map_get(b.externs, qn) is Some {
            (b2, Err(GeneratorErrorV::InvalidOptions("Extern type already mapped: "@ + en)))
        } else {
            (b2, Ok(()))
        }
    } else {
        (b, Err(GeneratorErrorV::InvalidOptions("Unknown option: "@ + name)))
    }
}

/// The Java options after the given options, in order, starting from none.
pub open spec fn options_after(calls: Seq<(Seq<char>, Seq<char>)>) -> JavaBuilderV
    decreases calls.len(),
{
    if calls.len() == 0 {
        JavaBuilderV { output_dir: None, packages: Seq::empty(), libraries: Seq::empty(), externs: Seq::empty() }
    } else {
        add_option_spec(options_after(calls.drop_last()), calls.last().0, calls.last().1).0
    }
}

/// Whether option `i` of `calls` set the output directory: it is `out_dir`
/// and was accepted.
pub open spec fn sets_output_dir(calls: Seq<(Seq<char>, Seq<char>)>, i: int) -> bool {
    &&& 0 <= i < calls.len()
    &&& calls[i].0 == "out_dir"@
    &&& add_option_spec(options_after(calls.take(i)), calls[i].0, calls[i].1).1 is Ok
}

/// Whatever options are given, in whatever order, the output directory is
/// set exactly when some `out_dir` option was accepted, and then it is the
/// value of that option; at most one is accepted. So finishing the options
/// fails with "Output directory not specified" exactly when none was.
pub proof fn lemma_output_dir_once(calls: Seq<(Seq<char>, Seq<char>)>)
    ensures
        match options_after(calls).output_dir {
            None => forall|i: int| !sets_output_dir(calls, i),
            Some(d) => exists|i: int| sets_output_dir(calls, i) && calls[i].1 == d,
        },
        forall|i: int, j: int| sets_output_dir(calls, i) && sets_output_dir(calls, j) ==> i == j,
    decreases calls.len(),
{
    if calls.len() > 0 {
        let init = calls.drop_last();
        lemma_output_dir_once(init);
        let n = calls.len() - 1;
        assert(calls.take(n) =~= init);
        assert forall|i: int| 0 <= i < n implies (sets_output_dir(calls, i) <==> sets_output_dir(init, i)) by {
            assert(calls.take(i) =~= init.take(i));
            assert(calls[i] == init[i]);
        }
        let b = options_after(init);
        let last = calls.last();
        assert(calls[n] == last);
        if last.0 == "out_dir"@ {
            assert(options_after(calls).output_dir == (if b.output_dir is Some { b.output_dir } else { Some(last.1) }));
        } else {
            assert(options_after(calls).output_dir == b.output_dir);
            assert(!sets_output_dir(calls, n));
        }
        match options_after(calls).output_dir {
            None => {
                assert forall|i: int| !sets_output_dir(calls, i) by {
                    if 0 <= i < n {
                        assert(!sets_output_dir(init, i));
                    }
                }
            },
            Some(d) => {
                if b.output_dir is Some {
                    let i = choose|i: int| sets_output_dir(init, i) && init[i].1 == b.output_dir->Some_0;
                    assert(sets_output_dir(calls, i) && calls[i].1 == d);
                } else {
                    assert(sets_output_dir(calls, n) && calls[n].1 == d);
                }
            },
        }
        assert forall|i: int, j: int| sets_output_dir(calls, i) && sets_output_dir(calls, j) implies i == j by {
            if i == n && j < n {
                assert(sets_output_dir(init, j));
            } else if j == n && i < n {
                assert(sets_output_dir(init, i));
            } else if i < n && j < n {
                assert(sets_output_dir(init, i) && sets_output_dir(init, j));
            }
        }
    }
}

/// The view of a result without a value.
pub open spec fn unit_result(r: Result<(), GeneratorError>) -> Result<(), GeneratorErrorV> {
    match r {
        Ok(()) => Ok(()),
        Err(e) => Err(e@),
    }
}

/// The text after `prefix` in `s`, when `s` starts with it.
pub(crate) fn strip_prefix(s: &str, prefix: &str) -> (r: Option<String>)
    ensures
        match r {
            None => !has_prefix(s@, prefix@),
            Some(rest) => has_prefix(s@, prefix@) && rest@ == s@.skip(prefix@.len() as int),
        },
{
    let cs = chars_of(s);
    let ps = chars_of(prefix);
    if ps.len() > cs.len() {
        return None;
    }
    let mut i: usize = 0;
    while i < ps.len()
        invariant
            i <= ps@.len() <= cs@.len(),
            cs@ == s@,
            ps@ == prefix@,
            forall|j: int| 0 <= j < i ==> cs@[j] == ps@[j],
        decreases ps@.len() - i,
    {
        if cs[i] != ps[i] {
            assert(s@.take(prefix@.len() as int)[i as int] != prefix@[i as int]);
            return None;
        }
        i = i + 1;
    }
    assert(s@.take(prefix@.len() as int) =~= prefix@);
    let rest = string_from_chars(&cs, ps.len(), cs.len());
    assert(cs@.subrange(ps@.len() as int, cs@.len() as int) =~= s@.skip(prefix@.len() as int));
    Some(rest)
}

/// The position of the first entry for package `k`.
pub(crate) fn find_pkg(m: &Vec<(PackageName, PackageName)>, k: &PackageName) -> (r: Option<usize>)
    ensures
        match r {
            None => map_get(pkg_map_view(m@), k@) is None,
            Some(i) => i < m@.len() && map_get(pkg_map_view(m@), k@) == Some(m@[i as int].1@)
                && pkg_map_view(m@)[i as int].0 == k@
                && forall|j: int| 0 <= j < i ==> pkg_map_view(m@)[j].0 != k@,
        },
{
    let ghost mv = pkg_map_view(m@);
    assert(mv.skip(0) =~= mv);
    let mut i: usize = 0;
    while i < m.len()
        invariant
            i <= m@.len(),
            mv == pkg_map_view(m@),
            map_get(mv, k@) == map_get(mv.skip(i as int), k@),
            forall|j: int| 0 <= j < i ==> mv[j].0 != k@,
        decreases m@.len() - i,
    {
        assert(mv.skip(i as int)[0] == mv[i as int]);
        if m[i].0.equals(k) {
            return Some(i);
        }
        assert(mv.skip(i as int).drop_first() =~= mv.skip(i + 1));
        i = i + 1;
    }
    assert(mv.skip(i as int).len() == 0);
    None
}

/// `map_insert` replaces the first entry with the key.
pub(crate) proof fn lemma_map_insert_at<K, V>(m: Seq<(K, V)>, k: K, v: V, i: int)
    requires
        0 <= i < m.len(),
        m[i].0 == k,
        forall|j: int| 0 <= j < i ==> m[j].0 != k,
    ensures
        map_insert(m, k, v) == m.update(i, (k, v)),
    decreases m.len(),
{
    if i > 0 {
        assert forall|j: int| 0 <= j < i - 1 implies m.drop_first()[j].0 != k by {
            assert(m.drop_first()[j] == m[j + 1]);
        }
        lemma_map_insert_at(m.drop_first(), k, v, i - 1);
        assert(seq![m[0]] + m.drop_first().update(i - 1, (k, v)) =~= m.update(i, (k, v)));
    }
}

/// `map_insert` adds an entry at the end when the key is not there.
pub(crate) proof fn lemma_map_insert_new<K, V>(m: Seq<(K, V)>, k: K, v: V)
    requires
        map_get(m, k) is None,
    ensures
        map_insert(m, k, v) == m.push((k, v)),
    decreases m.len(),
{
    if m.len() > 0 {
        lemma_map_insert_new(m.drop_first(), k, v);
        assert(seq![m[0]] + m.drop_first().push((k, v)) =~= m.push((k, v)));
    }
}

/// Sets package `k` to `v` in a package mapping.
pub(crate) fn insert_pkg(m: &mut Vec<(PackageName, PackageName)>, k: PackageName, v: PackageName)
    ensures
        pkg_map_view(final(m)@) == map_insert(pkg_map_view(old(m)@), k@, v@),
{
    let ghost (kv, vv) = (k@, v@);
    match find_pkg(m, &k) {
        Some(i) => {
            proof {
                lemma_map_insert_at(pkg_map_view(old(m)@), kv, vv, i as int);
            }
            m.set(i, (k, v));
            assert(pkg_map_view(m@) =~= pkg_map_view(old(m)@).update(i as int, (kv, vv)));
        },
        None => {
            proof {
                lemma_map_insert_new(pkg_map_view(old(m)@), kv, vv);
            }
            m.push((k, v));
            assert(pkg_map_view(m@) =~= pkg_map_view(old(m)@).push((kv, vv)));
        },
    }
}

/// The position of the first entry for name `k`.
fn find_name(m: &Vec<(QualifiedName, QualifiedName)>, k: &QualifiedName) -> (r: Option<usize>)
    ensures
        match r {
            None => map_get(name_map_view(m@), k@) is None,
            Some(i) => i < m@.len() && map_get(name_map_view(m@), k@) == Some(m@[i as int].1@)
                && name_map_view(m@)[i as int].0 == k@
                && forall|j: int| 0 <= j < i ==> name_map_view(m@)[j].0 != k@,
        },
{
    let ghost mv = name_map_view(m@);
    assert(mv.skip(0) =~= mv);
    let mut i: usize = 0;
    while i < m.len()
        invariant
            i <= m@.len(),
            mv == name_map_view(m@),
            map_get(mv, k@) == map_get(mv.skip(i as int), k@),
            forall|j: int| 0 <= j < i ==> mv[j].0 != k@,
        decreases m@.len() - i,
    {
        assert(mv.skip(i as int)[0] == mv[i as int]);
        if m[i].0.equals(k) {
            return Some(i);
        }
        assert(mv.skip(i as int).drop_first() =~= mv.skip(i + 1));
        i = i + 1;
    }
    assert(mv.skip(i as int).len() == 0);
    None
}

/// Sets name `k` to `v` in a name mapping.
fn insert_name(m: &mut Vec<(QualifiedName, QualifiedName)>, k: QualifiedName, v: QualifiedName)
    ensures
        name_map_view(final(m)@) == map_insert(name_map_view(old(m)@), k@, v@),
{
    let ghost (kv, vv) = (k@, v@);
    match find_name(m, &k) {
        Some(i) => {
            proof {
                lemma_map_insert_at(name_map_view(old(m)@), kv, vv, i as int);
            }
            m.set(i, (k, v));
            assert(name_map_view(m@) =~= name_map_view(old(m)@).update(i as int, (kv, vv)));
        },
        None => {
            proof {
                lemma_map_insert_new(name_map_view(old(m)@), kv, vv);
            }
            m.push((k, v));
            assert(name_map_view(m@) =~= name_map_view(old(m)@).push((kv, vv)));
        },
    }
}

/// `message` followed by `detail`, as an options error.
pub(crate) fn option_error(message: &str, detail: &str) -> (r: GeneratorError)
    ensures
        r@ == GeneratorErrorV::InvalidOptions(message@ + detail@),
{
    let mut s = message.to_owned();
    append_str(&mut s, detail);
    GeneratorError::InvalidOptions(s)
}

impl LanguageOptionsBuilder for JavaOptionsBuilder {
    open spec fn nothing_given(&self) -> bool {
        self@ == (JavaBuilderV { output_dir: None, packages: Seq::empty(), libraries: Seq::empty(), externs: Seq::empty() })
    }

    open spec fn adds(&self, name: Seq<char>, value: Seq<char>, after: Self, r: Result<(), GeneratorError>) -> bool {
        &&& after@ == add_option_spec(self@, name, value).0
        &&& unit_result(r) == add_option_spec(self@, name, value).1
    }

    /// Options with nothing set.
    fn empty() -> (r: JavaOptionsBuilder) {
        let r = JavaOptionsBuilder {
            output_dir: None,
            package_mapping: Vec::new(),
            library_mapping: Vec::new(),
            extern_mapping: Vec::new(),
        };
        assert(r@.packages =~= Seq::<(Seq<Seq<char>>, Seq<Seq<char>>)>::empty());
        assert(r@.libraries =~= Seq::<(Seq<Seq<char>>, Seq<Seq<char>>)>::empty());
        assert(r@.externs =~= Seq::<(NameView, NameView)>::empty());
        r
    }

    /// Sets one option.
    fn add(&mut self, name: &str, value: &str) -> (r: Result<(), GeneratorError>) {
        if str_eq(name, "out_dir") {
            if self.output_dir.is_some() {
                return Err(GeneratorError::InvalidOptions("Output directory already specified".to_owned()));
            }
            self.output_dir = Some(value.to_owned());
            return Ok(());
        }
        assert(name@ != "out_dir"@);
        if let Some(pkg) = strip_prefix(name, "pkg:") {
            proof {
                reveal_strlit("pkg:");
            }
            let package = PackageName::from_str(pkg.as_str());
            let java_package = PackageName::from_str(value);
            if find_pkg(&self.library_mapping, &package).is_some() {
                return Err(option_error("Package already mapped: ", pkg.as_str()));
            }
            let existed = find_pkg(&self.package_mapping, &package).is_some();
            insert_pkg(&mut self.package_mapping, package, java_package);
            if existed {
                return Err(option_error("Package already mapped: ", pkg.as_str()));
            }
            return Ok(());
        }
        if let Some(pkg) = strip_prefix(name, "lib:") {
            proof {
                reveal_strlit("lib:");
            }
            let package = PackageName::from_str(pkg.as_str());
            let java_package = PackageName::from_str(value);
            if find_pkg(&self.package_mapping, &package).is_some() {
                return Err(option_error("Package already mapped: ", pkg.as_str()));
            }
            let existed = find_pkg(&self.library_mapping, &package).is_some();
            insert_pkg(&mut self.library_mapping, package, java_package);
            if existed {
                return Err(option_error("Package already mapped: ", pkg.as_str()));
            }
            return Ok(());
        }
        if let Some(extern_name) = strip_prefix(name, "extern:") {
            proof {
                reveal_strlit("extern:");
            }
            let qual_name = QualifiedName::from_str(extern_name.as_str()).unwrap();
            let java_name = QualifiedName::from_str(value).unwrap();
            let existed = find_name(&self.extern_mapping, &qual_name).is_some();
            insert_name(&mut self.extern_mapping, qual_name, java_name);
            if existed {
                return Err(option_error("Extern type already mapped: ", extern_name.as_str()));
            }
            return Ok(());
        }
        Err(option_error("Unknown option: ", name))
    }

}

impl LanguageOptions for JavaOptions {
    type Builder = JavaOptionsBuilder;

    open spec fn builds(builder: JavaOptionsBuilder, r: Result<JavaOptions, GeneratorError>) -> bool {
        match r {
            Ok(o) => builder.output_dir matches Some(d) && o.output_dir@ == d@
                && o.package_mapping@ == builder.package_mapping@
                && o.library_mapping@ == builder.library_mapping@
                && o.extern_mapping@ == builder.extern_mapping@,
            Err(e) => builder.output_dir is None && e@ == GeneratorErrorV::InvalidOptions("Output directory not specified"@),
        }
    }

    /// The finished options; the output directory must have been given.
    fn build(builder: JavaOptionsBuilder) -> (r: Result<JavaOptions, GeneratorError>) {
        match builder.output_dir {
            None => Err(GeneratorError::InvalidOptions("Output directory not specified".to_owned())),
            Some(d) => Ok(JavaOptions {
                output_dir: d,
                package_mapping: builder.package_mapping,
                library_mapping: builder.library_mapping,
                extern_mapping: builder.extern_mapping,
            }),
        }
    }
}

/// Joining sequences is associative.
pub broadcast proof fn lemma_add_assoc<A>(s1: Seq<A>, s2: Seq<A>, s3: Seq<A>)
    ensures
        #[trigger] (s1 + (s2 + s3)) == (s1 + s2) + s3,
{
    assert(s1 + (s2 + s3) =~= (s1 + s2) + s3);
}

/// The text of a successful rendering (nothing for a failed one).
pub open spec fn ok_text(r: Result<Seq<char>, GeneratorErrorV>) -> Seq<char> {
    match r {
        Ok(t) => t,
        Err(_) => Seq::empty(),
    }
}

/// Whether a write that was to add `expected` did so: on success the text
/// grew by exactly the expected text, and on failure it gave the expected
/// error.
pub open spec fn wrote(r: Result<(), GeneratorError>, before: Seq<char>, after: Seq<char>, expected: Result<Seq<char>, GeneratorErrorV>) -> bool {
    match expected {
        Ok(t) => r is Ok && after == before + t,
        Err(e) => r matches Err(x) && x@ == e,
    }
}

/// The Java package of a package: its mapping for generated code, or else
/// for library code.
pub open spec fn java_package_spec(o: JavaOptions, pkg: Seq<Seq<char>>) -> Result<Seq<Seq<char>>, GeneratorErrorV> {
    match map_get(pkg_map_view(o.package_mapping@), pkg) {
        Some(j) => Ok(j),
        None => match map_get(pkg_map_view(o.library_mapping@), pkg) {
            Some(j) => Ok(j),
            None => Err(GeneratorErrorV::UnmappedPackage(pkg)),
        },
    }
}

/// Each part followed by a dot.
pub open spec fn dotted_prefix(parts: Seq<Seq<char>>) -> Seq<char>
    decreases parts.len(),
{
    if parts.len() == 0 {
        Seq::empty()
    } else {
        dotted_prefix(parts.drop_last()) + parts.last() + "."@
    }
}

/// The Java name of the class generated for `n`: its Java package and its
/// name with the first letter capitalized.
pub open spec fn qual_name_text(o: JavaOptions, n: NameView) -> Result<Seq<char>, GeneratorErrorV> {
    match java_package_spec(o, n.0) {
        Err(e) => Err(e),
        Ok(p) => Ok(dotted_prefix(p) + capitalized(n.1)),
    }
}

/// The class that boxes a primitive Java type.
pub open spec fn boxed_name(n: Seq<char>) -> Option<Seq<char>> {
    if n == "byte"@ {
        Some("Byte"@)
    } else if n == "short"@ {
        Some("Short"@)
    } else if n == "int"@ {
        Some("Integer"@)
    } else if n == "long"@ {
        Some("Long"@)
    } else if n == "float"@ {
        Some("Float"@)
    } else if n == "double"@ {
        Some("Double"@)
    } else if n == "boolean"@ {
        Some("Boolean"@)
    } else if n == "char"@ {
        Some("Character"@)
    } else {
        None
    }
}

/// The Java type of an extern type: its mapping, with a primitive type boxed
/// where an object type is needed; or, unmapped, the class generated for it.
pub open spec fn extern_type_name_spec(o: JavaOptions, n: NameView, erased: bool) -> Result<NameView, GeneratorErrorV> {
    match map_get(name_map_view(o.extern_mapping@), n) {
        Some(m) => if erased && m.0.len() == 0 && boxed_name(m.1) is Some {
            Ok((seq!["java"@, "lang"@], boxed_name(m.1).unwrap()))
        } else {
            Ok(m)
        },
        None => match java_package_spec(o, n.0) {
            Err(e) => Err(e),
            Ok(p) => Ok((p, capitalized(n.1))),
        },
    }
}

/// The Java text of a type; `erased` asks for an object type, as type
/// arguments need.
pub open spec fn type_text(o: JavaOptions, t: LangTypeV, erased: bool) -> Result<Seq<char>, GeneratorErrorV>
    decreases t, 0nat,
{
    match t {
        LangTypeV::Versioned(_, name, version, args, _) => match qual_name_text(o, name) {
            Err(e) => Err(e),
            Ok(q) => match type_args_text(o, args) {
                Err(e) => Err(e),
                Ok(a) => Ok(q + ".V"@ + decimal_text(version) + a),
            },
        },
        LangTypeV::Extern(name, args, _) => match extern_type_name_spec(o, name, erased) {
            Err(e) => Err(e),
            Ok(m) => match type_args_text(o, args) {
                Err(e) => Err(e),
                Ok(a) => Ok(dotted_prefix(m.0) + m.1 + a),
            },
        },
        LangTypeV::TypeParameter(p) => Ok(p),
        LangTypeV::Converter(from, to) => match type_text(o, *from, true) {
            Err(e) => Err(e),
            Ok(a) => match type_text(o, *to, true) {
                Err(e) => Err(e),
                Ok(b) => Ok(runtime_package() + ".Converter<"@ + a + ", "@ + b + ">"@),
            },
        },
        LangTypeV::Codec(inner) => match type_text(o, *inner, true) {
            Err(e) => Err(e),
            Ok(a) => Ok(runtime_package() + ".Codec<"@ + a + ">"@),
        },
    }
}

/// Type arguments in angle brackets, or nothing when there are none.
pub open spec fn type_args_text(o: JavaOptions, args: Seq<LangTypeV>) -> Result<Seq<char>, GeneratorErrorV>
    decreases args, args.len() + 1,
{
    if args.len() == 0 {
        Ok(Seq::empty())
    } else {
        match types_joined(o, args, args.len()) {
            Err(e) => Err(e),
            Ok(j) => Ok("<"@ + j + ">"@),
        }
    }
}

/// The object types `args[..n]`, separated by commas.
pub open spec fn types_joined(o: JavaOptions, args: Seq<LangTypeV>, n: nat) -> Result<Seq<char>, GeneratorErrorV>
    decreases args, n,
{
    if n == 0 || n > args.len() {
        Ok(Seq::empty())
    } else if n == 1 {
        type_text(o, args[0], true)
    } else {
        match types_joined(o, args, (n - 1) as nat) {
            Err(e) => Err(e),
            Ok(p) => match type_text(o, args[n - 1], true) {
                Err(e) => Err(e),
                Ok(x) => Ok(p + ", "@ + x),
            },
        }
    }
}

impl JavaOptions {
    /// The Java package of a package.
    pub fn java_package(&self, pkg: &PackageName) -> (r: Result<&PackageName, GeneratorError>)
        ensures
            match java_package_spec(*self, pkg@) {
                Ok(p) => r matches Ok(x) && x@ == p,
                Err(e) => r matches Err(x) && x@ == e,
            },
    {
        match find_pkg(&self.package_mapping, pkg) {
            Some(i) => Ok(&self.package_mapping[i].1),
            None => match find_pkg(&self.library_mapping, pkg) {
                Some(i) => Ok(&self.library_mapping[i].1),
                None => Err(GeneratorError::UnmappedPackage(pkg.copy())),
            },
        }
    }

    /// The Java type of an extern type.
    pub fn extern_type_name(&self, name: &QualifiedName, erased: bool) -> (r: Result<QualifiedName, GeneratorError>)
        ensures
            match extern_type_name_spec(*self, name@, erased) {
                Ok(m) => r matches Ok(x) && x@ == m,
                Err(e) => r matches Err(x) && x@ == e,
            },
    {
        match find_name(&self.extern_mapping, name) {
            Some(i) => {
                let mapped = &self.extern_mapping[i].1;
                if erased && mapped.package.package.len() == 0 {
                    let boxed = boxed_class(mapped.name.as_str());
                    match boxed {
                        Some(b) => {
                            let r = QualifiedName::from_parts(&["java", "lang"], b);
                            proof {
                                reveal_strlit("java");
                                reveal_strlit("lang");
                                assert(["java", "lang"]@.map_values(|p: &str| p@) =~= seq!["java"@, "lang"@]);
                            }
                            return Ok(r);
                        },
                        None => {},
                    }
                }
                Ok(mapped.copy())
            },
            None => {
                let p = self.java_package(&name.package)?;
                Ok(QualifiedName { package: p.copy(), name: make_type_name(name.name.as_str()) })
            },
        }
    }
}

/// The class that boxes a primitive Java type.
fn boxed_class(n: &str) -> (r: Option<&'static str>)
    ensures
        match boxed_name(n@) {
            None => r is None,
            Some(b) => r matches Some(x) && x@ == b,
        },
{
    if str_eq(n, "byte") {
        Some("Byte")
    } else if str_eq(n, "short") {
        Some("Short")
    } else if str_eq(n, "int") {
        Some("Integer")
    } else if str_eq(n, "long") {
        Some("Long")
    } else if str_eq(n, "float") {
        Some("Float")
    } else if str_eq(n, "double") {
        Some("Double")
    } else if str_eq(n, "boolean") {
        Some("Boolean")
    } else if str_eq(n, "char") {
        Some("Character")
    } else {
        None
    }
}

/// Writes each part followed by a dot.
pub(crate) fn write_dotted_prefix(out: &mut String, parts: &Vec<String>)
    ensures
        final(out)@ == old(out)@ + dotted_prefix(parts@.map_values(|p: String| p@)),
{
    let ghost pv = parts@.map_values(|p: String| p@);
    let mut i: usize = 0;
    while i < parts.len()
        invariant
            i <= parts@.len(),
            pv == parts@.map_values(|p: String| p@),
            out@ == old(out)@ + dotted_prefix(pv.take(i as int)),
        decreases parts@.len() - i,
    {
        append_str(out, parts[i].as_str());
        append_str(out, ".");
        assert(pv.take(i + 1).drop_last() =~= pv.take(i as int));
        assert(out@ =~= old(out)@ + dotted_prefix(pv.take(i + 1)));
        i = i + 1;
    }
    assert(pv.take(i as int) =~= pv);
}

/// Writes the Java name of the class generated for `name`.
pub fn write_qual_name(o: &JavaOptions, out: &mut String, name: &QualifiedName) -> (r: Result<(), GeneratorError>)
    ensures
        wrote(r, old(out)@, final(out)@, qual_name_text(*o, name@)),
{
    let pkg = match o.java_package(&name.package) {
        Ok(p) => p,
        Err(e) => return Err(e),
    };
    let ghost before = out@;
    write_dotted_prefix(out, &pkg.package);
    let n = make_type_name(name.name.as_str());
    append_str(out, n.as_str());
    assert(out@ =~= before + (dotted_prefix(pkg@) + capitalized(name.name@)));
    Ok(())
}

/// Writes the Java text of a type.
pub fn write_type(o: &JavaOptions, out: &mut String, t: &LangType, erased: bool) -> (r: Result<(), GeneratorError>)
    ensures
        wrote(r, old(out)@, final(out)@, type_text(*o, t@, erased)),
    decreases t,
{
    let ghost before = out@;
    match t {
        LangType::Versioned(_, name, version, args, _) => {
            match write_qual_name(o, out, name) {
                Ok(()) => {},
                Err(e) => return Err(e),
            }
            let ghost mid = out@;
            append_str(out, ".V");
            let d = version.to_decimal();
            append_str(out, d.as_str());
            let ghost mid2 = out@;
            proof {
                lemma_lang_types_view(args@);
            }
            match write_type_args(o, out, args) {
                Ok(()) => {},
                Err(e) => return Err(e),
            }
            assert(out@ =~= before + (ok_text(qual_name_text(*o, name@)) + ".V"@ + decimal_text(version@)
                + ok_text(type_args_text(*o, lang_types_view(args@)))));
            Ok(())
        },
        LangType::Extern(name, args, _) => {
            let mapped = match o.extern_type_name(name, erased) {
                Ok(m) => m,
                Err(e) => return Err(e),
            };
            write_dotted_prefix(out, &mapped.package.package);
            append_str(out, mapped.name.as_str());
            match write_type_args(o, out, args) {
                Ok(()) => {},
                Err(e) => return Err(e),
            }
            assert(out@ =~= before + (dotted_prefix(mapped@.0) + mapped@.1 + ok_text(type_args_text(*o, lang_types_view(args@)))));
            Ok(())
        },
        LangType::TypeParameter(p) => {
            append_str(out, p.as_str());
            Ok(())
        },
        LangType::Converter(from, to) => {
            append_str(out, runtime_package_name());
            append_str(out, ".Converter<");
            match write_type(o, out, &**from, true) {
                Ok(()) => {},
                Err(e) => return Err(e),
            }
            let ghost a = ok_text(type_text(*o, (**from)@, true));
            append_str(out, ", ");
            match write_type(o, out, &**to, true) {
                Ok(()) => {},
                Err(e) => return Err(e),
            }
            let ghost b = ok_text(type_text(*o, (**to)@, true));
            append_str(out, ">");
            assert(out@ =~= before + (runtime_package() + ".Converter<"@ + a + ", "@ + b + ">"@));
            Ok(())
        },
        LangType::Codec(inner) => {
            append_str(out, runtime_package_name());
            append_str(out, ".Codec<");
            match write_type(o, out, &**inner, true) {
                Ok(()) => {},
                Err(e) => return Err(e),
            }
            let ghost a = ok_text(type_text(*o, (**inner)@, true));
            append_str(out, ">");
            assert(out@ =~= before + (runtime_package() + ".Codec<"@ + a + ">"@));
            Ok(())
        },
    }
}

/// Writes type arguments in angle brackets, or nothing when there are none.
pub fn write_type_args(o: &JavaOptions, out: &mut String, args: &Vec<LangType>) -> (r: Result<(), GeneratorError>)
    ensures
        wrote(r, old(out)@, final(out)@, type_args_text(*o, lang_types_view(args@))),
    decreases args,
{
    proof {
        lemma_lang_types_view(args@);
    }
    let ghost av = lang_types_view(args@);
    if args.len() == 0 {
        assert(out@ =~= old(out)@ + Seq::<char>::empty());
        return Ok(());
    }
    let ghost before = out@;
    append_str(out, "<");
    let ghost start = out@;
    let mut i: usize = 0;
    while i < args.len()
        invariant
            i <= args@.len(),
            av == lang_types_view(args@),
            av.len() == args@.len(),
            forall|j: int| 0 <= j < args@.len() ==> #[trigger] av[j] == lang_type_view(args@[j]),
            types_joined(*o, av, i as nat) is Ok,
            out@ == start + ok_text(types_joined(*o, av, i as nat)),
        decreases args@.len() - i,
    {
        let ghost prev = out@;
        if i > 0 {
            append_str(out, ", ");
        }
        match write_type(o, out, &args[i], true) {
            Ok(()) => {},
            Err(e) => {
                proof {
                    lemma_types_joined_err(*o, av, (i + 1) as nat, av.len());
                }
                return Err(e);
            },
        }
        if i == 0 {
            assert(out@ =~= start + ok_text(types_joined(*o, av, 1)));
        } else {
            assert(out@ =~= start + ok_text(types_joined(*o, av, (i + 1) as nat)));
        }
        i = i + 1;
    }
    append_str(out, ">");
    assert(out@ =~= before + ("<"@ + ok_text(types_joined(*o, av, av.len())) + ">"@));
    Ok(())
}

/// Once the types before `k` fail, so do those before any later `n`.
proof fn lemma_types_joined_err(o: JavaOptions, args: Seq<LangTypeV>, k: nat, n: nat)
    requires
        1 <= k <= n <= args.len(),
        types_joined(o, args, k) is Err,
    ensures
        types_joined(o, args, n) == types_joined(o, args, k),
    decreases n,
{
    if n > k {
        lemma_types_joined_err(o, args, k, (n - 1) as nat);
    }
}

/// An integer in decimal, with a minus sign when it is negative.
pub open spec fn decimal_int(n: int) -> Seq<char> {
    if n < 0 {
        "-"@ + decimal_text((-n) as nat)
    } else {
        decimal_text(n as nat)
    }
}

/// A Java integer literal: an `int` where the value fits one, a `long`
/// where it fits that, and a `BigInteger` otherwise, so that the matching
/// overload of `fromInteger` is called.
pub open spec fn int_literal_text(n: int) -> Seq<char> {
    if -0x8000_0000 <= n < 0x8000_0000 {
        decimal_int(n)
    } else if -0x8000_0000_0000_0000 <= n < 0x8000_0000_0000_0000 {
        decimal_int(n) + "L"@
    } else {
        "new java.math.BigInteger(\""@ + decimal_int(n) + "\")"@
    }
}

/// A character as it is written inside a Java string literal.
pub open spec fn escaped_char(c: char) -> Seq<char> {
    if c == '\\' {
        seq!['\\', '\\']
    } else if c == '"' {
        seq!['\\', '"']
    } else if c == '\n' {
        seq!['\\', 'n']
    } else if c == '\r' {
        seq!['\\', 'r']
    } else {
        seq![c]
    }
}

/// The characters of a string as they are written inside a Java string
/// literal.
pub open spec fn escaped(s: Seq<char>) -> Seq<char>
    decreases s.len(),
{
    if s.len() == 0 {
        Seq::empty()
    } else {
        escaped(s.drop_last()) + escaped_char(s.last())
    }
}

/// The name of an operation's static member: `fromVn` for the conversion
/// from version `n`, `converter`, `codec`, and for the literals of extern
/// types `fromInteger`, `fromString`, `fromSequence`, `fromCase` followed by
/// the case name with its first letter capitalized, and `fromRecord`.
pub open spec fn operation_name_text(op: OperationV) -> Seq<char> {
    match op {
        OperationV::FromPreviousVersion(p) => "fromV"@ + decimal_text(p),
        OperationV::FinalTypeConverter => "converter"@,
        OperationV::TypeCodec => "codec"@,
        OperationV::FromInteger => "fromInteger"@,
        OperationV::FromString => "fromString"@,
        OperationV::FromSequence => "fromSequence"@,
        OperationV::FromCase(c) => "fromCase"@ + capitalized(c),
        OperationV::FromRecord(_) => "fromRecord"@,
    }
}

/// The Java text of an expression.
pub open spec fn expr_text(o: JavaOptions, e: LangExprV) -> Result<Seq<char>, GeneratorErrorV>
    decreases e, 0nat,
{
    match e {
        LangExprV::Identifier(n) => Ok(n),
        LangExprV::IntegerLiteral(n) => Ok(int_literal_text(n)),
        LangExprV::StringLiteral(s) => Ok("\""@ + escaped(s) + "\""@),
        LangExprV::InvokeConverter(c, v) => match expr_text(o, *c) {
            Err(e) => Err(e),
            Ok(a) => match expr_text(o, *v) {
                Err(e) => Err(e),
                Ok(b) => Ok(a + ".convert("@ + b + ")"@),
            },
        },
        LangExprV::IdentityConverter(t) => match type_text(o, t, true) {
            Err(e) => Err(e),
            Ok(a) => Ok(runtime_package() + ".Converter.<"@ + a + ">identity()"@),
        },
        LangExprV::ReadDiscriminator => Ok(runtime_package() + ".Nat.codec.read(reader)"@),
        LangExprV::WriteDiscriminator(n) => Ok(runtime_package() + ".Nat.codec.write(writer, java.math.BigInteger.valueOf("@
            + decimal_text(n) + "))"@),
        LangExprV::CodecRead(c) => match expr_text(o, *c) {
            Err(e) => Err(e),
            Ok(a) => Ok(a + ".read(reader)"@),
        },
        LangExprV::CodecWrite(c, v) => match expr_text(o, *c) {
            Err(e) => Err(e),
            Ok(a) => match expr_text(o, *v) {
                Err(e) => Err(e),
                Ok(b) => Ok(a + ".write(writer, "@ + b + ")"@),
            },
        },
        LangExprV::InvokeOperation(op, target, targs, args) => {
            let t = match target {
                OperationTargetV::VersionedType(n, v) => match qual_name_text(o, n) {
                    Err(e) => Err(e),
                    Ok(q) => Ok(q + ".V"@ + decimal_text(v) + "."@),
                },
                OperationTargetV::ExternType(n) => match qual_name_text(o, n) {
                    Err(e) => Err(e),
                    Ok(q) => Ok(q + "."@),
                },
            };
            match t {
                Err(e) => Err(e),
                Ok(a) => match type_args_text(o, targs) {
                    Err(e) => Err(e),
                    Ok(b) => match args_text(o, args) {
                        Err(e) => Err(e),
                        Ok(c) => Ok(a + b + operation_name_text(op) + c),
                    },
                },
            }
        },
        LangExprV::InvokeUserConverter(n, prev, v, targs, args) => match qual_name_text(o, n) {
            Err(e) => Err(e),
            Ok(q) => match type_args_text(o, targs) {
                Err(e) => Err(e),
                Ok(b) => match args_text(o, args) {
                    Err(e) => Err(e),
                    Ok(c) => Ok(q + "_Conversions."@ + b + "v"@ + decimal_text(prev) + "ToV"@ + decimal_text(v) + c),
                },
            },
        },
        LangExprV::ConstantValue(n, v) => match qual_name_text(o, n) {
            Err(e) => Err(e),
            Ok(q) => Ok(q + "."@ + "v"@ + decimal_text(v)),
        },
        LangExprV::CreateStruct(n, v, targs, fields) => match qual_name_text(o, n) {
            Err(e) => Err(e),
            Ok(q) => match type_args_text(o, targs) {
                Err(e) => Err(e),
                Ok(b) => match field_values_joined(o, fields, fields.len()) {
                    Err(e) => Err(e),
                    Ok(c) => Ok("new "@ + q + ".V"@ + decimal_text(v) + b + "("@ + c + ")"@),
                },
            },
        },
        LangExprV::CreateEnum(n, v, targs, case, value) => match qual_name_text(o, n) {
            Err(e) => Err(e),
            Ok(q) => match type_args_text(o, targs) {
                Err(e) => Err(e),
                Ok(b) => match expr_text(o, *value) {
                    Err(e) => Err(e),
                    Ok(c) => Ok("new "@ + q + ".V"@ + decimal_text(v) + "."@ + capitalized(case) + b + "("@ + c + ")"@),
                },
            },
        },
        LangExprV::StructField(_, _, field, value) => match expr_text(o, *value) {
            Err(e) => Err(e),
            Ok(a) => Ok(a + "."@ + uncapitalized(field)),
        },
    }
}

/// Arguments in parentheses, or nothing when there are none.
pub open spec fn args_text(o: JavaOptions, es: Seq<LangExprV>) -> Result<Seq<char>, GeneratorErrorV>
    decreases es, es.len() + 1,
{
    if es.len() == 0 {
        Ok(Seq::empty())
    } else {
        match exprs_joined(o, es, es.len()) {
            Err(e) => Err(e),
            Ok(j) => Ok("("@ + j + ")"@),
        }
    }
}

/// The expressions `es[..n]`, separated by commas.
pub open spec fn exprs_joined(o: JavaOptions, es: Seq<LangExprV>, n: nat) -> Result<Seq<char>, GeneratorErrorV>
    decreases es, n,
{
    if n == 0 || n > es.len() {
        Ok(Seq::empty())
    } else if n == 1 {
        expr_text(o, es[0])
    } else {
        match exprs_joined(o, es, (n - 1) as nat) {
            Err(e) => Err(e),
            Ok(p) => match expr_text(o, es[n - 1]) {
                Err(e) => Err(e),
                Ok(x) => Ok(p + ", "@ + x),
            },
        }
    }
}

/// The values of the fields `fs[..n]`, separated by commas.
pub open spec fn field_values_joined(o: JavaOptions, fs: Seq<(Seq<char>, LangExprV)>, n: nat) -> Result<Seq<char>, GeneratorErrorV>
    decreases fs, n,
{
    if n == 0 || n > fs.len() {
        Ok(Seq::empty())
    } else if n == 1 {
        expr_text(o, fs[0].1)
    } else {
        match field_values_joined(o, fs, (n - 1) as nat) {
            Err(e) => Err(e),
            Ok(p) => match expr_text(o, fs[n - 1].1) {
                Err(e) => Err(e),
                Ok(x) => Ok(p + ", "@ + x),
            },
        }
    }
}

/// Writes an integer in decimal, with a minus sign when it is negative.
pub(crate) fn write_decimal_int(out: &mut String, n: &BigInt)
    ensures
        final(out)@ == old(out)@ + decimal_int(n@),
{
    let negative = match n.sign() {
        Sign::Minus => true,
        _ => false,
    };
    if negative {
        append_str(out, "-");
    }
    let d = n.magnitude().to_decimal();
    append_str(out, d.as_str());
    assert(final(out)@ =~= old(out)@ + decimal_int(n@));
}

/// Writes a Java integer literal.
fn write_int_literal(out: &mut String, n: &BigInt)
    ensures
        final(out)@ == old(out)@ + int_literal_text(n@),
{
    let negative = match n.sign() {
        Sign::Minus => true,
        _ => false,
    };
    let m = n.magnitude().to_u64();
    let fits_int = match m {
        Some(x) => if negative { x <= 0x8000_0000 } else { x < 0x8000_0000 },
        None => false,
    };
    let fits_long = match m {
        Some(x) => if negative { x <= 0x8000_0000_0000_0000 } else { x < 0x8000_0000_0000_0000 },
        None => false,
    };
    if fits_int {
        write_decimal_int(out, n);
    } else if fits_long {
        write_decimal_int(out, n);
        append_str(out, "L");
    } else {
        append_str(out, "new java.math.BigInteger(\"");
        write_decimal_int(out, n);
        append_str(out, "\")");
    }
    assert(final(out)@ =~= old(out)@ + int_literal_text(n@));
}

/// Writes the characters of a string as they are written inside a Java
/// string literal.
pub(crate) fn write_escaped(out: &mut String, s: &str)
    ensures
        final(out)@ == old(out)@ + escaped(s@),
{
    let cs = chars_of(s);
    let mut i: usize = 0;
    while i < cs.len()
        invariant
            i <= cs@.len(),
            cs@ == s@,
            out@ == old(out)@ + escaped(cs@.take(i as int)),
        decreases cs@.len() - i,
    {
        let c = cs[i];
        if c == '\\' {
            string_push(out, '\\');
            string_push(out, '\\');
        } else if c == '"' {
            string_push(out, '\\');
            string_push(out, '"');
        } else if c == '\n' {
            string_push(out, '\\');
            string_push(out, 'n');
        } else if c == '\r' {
            string_push(out, '\\');
            string_push(out, 'r');
        } else {
            string_push(out, c);
        }
        assert(cs@.take(i + 1).drop_last() =~= cs@.take(i as int));
        assert(out@ =~= old(out)@ + escaped(cs@.take(i + 1)));
        i = i + 1;
    }
    assert(cs@.take(i as int) =~= cs@);
}

/// Writes the name of an operation's static member.
pub(crate) fn write_operation_name(out: &mut String, op: &Operation)
    ensures
        final(out)@ == old(out)@ + operation_name_text(op@),
{
    match op {
        Operation::FromPreviousVersion(p) => {
            append_str(out, "fromV");
            let d = p.to_decimal();
            append_str(out, d.as_str());
        },
        Operation::FinalTypeConverter => append_str(out, "converter"),
        Operation::TypeCodec => append_str(out, "codec"),
        Operation::FromInteger => append_str(out, "fromInteger"),
        Operation::FromString => append_str(out, "fromString"),
        Operation::FromSequence => append_str(out, "fromSequence"),
        Operation::FromCase(c) => {
            append_str(out, "fromCase");
            let n = make_type_name(c.as_str());
            append_str(out, n.as_str());
        },
        Operation::FromRecord(_) => append_str(out, "fromRecord"),
    }
    assert(final(out)@ =~= old(out)@ + operation_name_text(op@));
}

/// Once the expressions before `k` fail, so do those before any later `n`.
proof fn lemma_exprs_joined_err(o: JavaOptions, es: Seq<LangExprV>, k: nat, n: nat)
    requires
        1 <= k <= n <= es.len(),
        exprs_joined(o, es, k) is Err,
    ensures
        exprs_joined(o, es, n) == exprs_joined(o, es, k),
    decreases n,
{
    if n > k {
        lemma_exprs_joined_err(o, es, k, (n - 1) as nat);
    }
}

/// Once the values before `k` fail, so do those before any later `n`.
proof fn lemma_field_values_err(o: JavaOptions, fs: Seq<(Seq<char>, LangExprV)>, k: nat, n: nat)
    requires
        1 <= k <= n <= fs.len(),
        field_values_joined(o, fs, k) is Err,
    ensures
        field_values_joined(o, fs, n) == field_values_joined(o, fs, k),
    decreases n,
{
    if n > k {
        lemma_field_values_err(o, fs, k, (n - 1) as nat);
    }
}

/// Writes arguments in parentheses, or nothing when there are none.
pub fn write_args(o: &JavaOptions, out: &mut String, es: &Vec<LangExpr>) -> (r: Result<(), GeneratorError>)
    ensures
        wrote(r, old(out)@, final(out)@, args_text(*o, lang_exprs_view(es@))),
    decreases es, 0nat,
{
    proof {
        lemma_lang_exprs_view(es@);
    }
    let ghost ev = lang_exprs_view(es@);
    if es.len() == 0 {
        assert(out@ =~= old(out)@ + Seq::<char>::empty());
        return Ok(());
    }
    let ghost before = out@;
    append_str(out, "(");
    let ghost start = out@;
    let mut i: usize = 0;
    while i < es.len()
        invariant
            i <= es@.len(),
            ev == lang_exprs_view(es@),
            ev.len() == es@.len(),
            forall|j: int| 0 <= j < es@.len() ==> #[trigger] ev[j] == lang_expr_view(es@[j]),
            exprs_joined(*o, ev, i as nat) is Ok,
            out@ == start + ok_text(exprs_joined(*o, ev, i as nat)),
        decreases es@.len() - i,
    {
        if i > 0 {
            append_str(out, ", ");
        }
        match write_expr(o, out, &es[i]) {
            Ok(()) => {},
            Err(e) => {
                proof {
                    lemma_exprs_joined_err(*o, ev, (i + 1) as nat, ev.len());
                }
                return Err(e);
            },
        }
        if i == 0 {
            assert(out@ =~= start + ok_text(exprs_joined(*o, ev, 1)));
        } else {
            assert(out@ =~= start + ok_text(exprs_joined(*o, ev, (i + 1) as nat)));
        }
        i = i + 1;
    }
    append_str(out, ")");
    assert(out@ =~= before + ("("@ + ok_text(exprs_joined(*o, ev, ev.len())) + ")"@));
    Ok(())
}

/// Writes the values of the fields of a struct being created, separated by
/// commas.
fn write_field_values(o: &JavaOptions, out: &mut String, fs: &Vec<(&String, LangExpr)>) -> (r: Result<(), GeneratorError>)
    ensures
        wrote(r, old(out)@, final(out)@, field_values_joined(*o, named_exprs_view(fs@), fs@.len())),
    decreases fs, 0nat,
{
    proof {
        lemma_named_exprs_view(fs@);
    }
    let ghost fv = named_exprs_view(fs@);
    let ghost start = out@;
    assert(out@ =~= start + ok_text(field_values_joined(*o, fv, 0)));
    let mut i: usize = 0;
    while i < fs.len()
        invariant
            i <= fs@.len(),
            fv == named_exprs_view(fs@),
            fv.len() == fs@.len(),
            forall|j: int| 0 <= j < fs@.len() ==> #[trigger] fv[j] == (fs@[j].0@, lang_expr_view(fs@[j].1)),
            field_values_joined(*o, fv, i as nat) is Ok,
            out@ == start + ok_text(field_values_joined(*o, fv, i as nat)),
        decreases fs@.len() - i,
    {
        if i > 0 {
            append_str(out, ", ");
        }
        match write_expr(o, out, &fs[i].1) {
            Ok(()) => {},
            Err(e) => {
                proof {
                    lemma_field_values_err(*o, fv, (i + 1) as nat, fv.len());
                }
                return Err(e);
            },
        }
        if i == 0 {
            assert(out@ =~= start + ok_text(field_values_joined(*o, fv, 1)));
        } else {
            assert(out@ =~= start + ok_text(field_values_joined(*o, fv, (i + 1) as nat)));
        }
        i = i + 1;
    }
    Ok(())
}

/// Writes the Java text of an expression.
pub fn write_expr(o: &JavaOptions, out: &mut String, e: &LangExpr) -> (r: Result<(), GeneratorError>)
    ensures
        wrote(r, old(out)@, final(out)@, expr_text(*o, e@)),
    decreases e, 1nat,
{
    let ghost before = out@;
    match e {
        LangExpr::Identifier(n) => {
            append_str(out, n.as_str());
            Ok(())
        },
        LangExpr::IntegerLiteral(n) => {
            write_int_literal(out, n);
            Ok(())
        },
        LangExpr::StringLiteral(s) => {
            append_str(out, "\"");
            write_escaped(out, s.as_str());
            append_str(out, "\"");
            assert(out@ =~= before + ("\""@ + escaped(s@) + "\""@));
            Ok(())
        },
        LangExpr::InvokeConverter{..} => write_invoke_converter(o, out, e),
        LangExpr::CodecRead{..} => write_codec_read(o, out, e),
        LangExpr::CodecWrite{..} => write_codec_write(o, out, e),
        LangExpr::StructField{..} => write_struct_field(o, out, e),
        LangExpr::IdentityConverter{..} => write_identity_converter(o, out, e),
        LangExpr::ReadDiscriminator{..} => write_read_discriminator(o, out, e),
        LangExpr::WriteDiscriminator{..} => write_write_discriminator(o, out, e),
        LangExpr::InvokeOperation{..} => write_invoke_operation(o, out, e),
        LangExpr::InvokeUserConverter{..} => write_invoke_user_converter(o, out, e),
        LangExpr::ConstantValue{..} => write_constant_value(o, out, e),
        LangExpr::CreateStruct{..} => write_create_struct(o, out, e),
        LangExpr::CreateEnum{..} => write_create_enum(o, out, e),
    }
}

/// Writes an expression of the `InvokeConverter` form.
fn write_invoke_converter(o: &JavaOptions, out: &mut String, e: &LangExpr) -> (r: Result<(), GeneratorError>)
    requires
        e is InvokeConverter,
    ensures
        wrote(r, old(out)@, final(out)@, expr_text(*o, e@)),
    decreases e, 0nat,
{
    broadcast use lemma_add_assoc;
    let ghost before = out@;
    match e {
        LangExpr::InvokeConverter { converter, value } => {
            match write_expr(o, out, &**converter) {
                Ok(()) => {},
                Err(x) => return Err(x),
            }
            append_str(out, ".convert(");
            match write_expr(o, out, &**value) {
                Ok(()) => {},
                Err(x) => return Err(x),
            }
            append_str(out, ")");
            assert(out@ =~= before + (ok_text(expr_text(*o, (**converter)@)) + ".convert("@ + ok_text(expr_text(*o, (**value)@)) + ")"@));
            Ok(())
        },
        _ => {
            proof {
                assert(false);
            }
            Ok(())
        },
    }
}

/// Writes an expression of the `CodecRead` form.
fn write_codec_read(o: &JavaOptions, out: &mut String, e: &LangExpr) -> (r: Result<(), GeneratorError>)
    requires
        e is CodecRead,
    ensures
        wrote(r, old(out)@, final(out)@, expr_text(*o, e@)),
    decreases e, 0nat,
{
    broadcast use lemma_add_assoc;
    let ghost before = out@;
    match e {
        LangExpr::CodecRead { codec } => {
            match write_expr(o, out, &**codec) {
                Ok(()) => {},
                Err(x) => return Err(x),
            }
            append_str(out, ".read(reader)");
            Ok(())
        },
        _ => {
            proof {
                assert(false);
            }
            Ok(())
        },
    }
}

/// Writes an expression of the `CodecWrite` form.
fn write_codec_write(o: &JavaOptions, out: &mut String, e: &LangExpr) -> (r: Result<(), GeneratorError>)
    requires
        e is CodecWrite,
    ensures
        wrote(r, old(out)@, final(out)@, expr_text(*o, e@)),
    decreases e, 0nat,
{
    broadcast use lemma_add_assoc;
    let ghost before = out@;
    match e {
        LangExpr::CodecWrite { codec, value } => {
            match write_expr(o, out, &**codec) {
                Ok(()) => {},
                Err(x) => return Err(x),
            }
            append_str(out, ".write(writer, ");
            match write_expr(o, out, &**value) {
                Ok(()) => {},
                Err(x) => return Err(x),
            }
            append_str(out, ")");
            assert(out@ =~= before + (ok_text(expr_text(*o, (**codec)@)) + ".write(writer, "@ + ok_text(expr_text(*o, (**value)@)) + ")"@));
            Ok(())
        },
        _ => {
            proof {
                assert(false);
            }
            Ok(())
        },
    }
}

/// Writes an expression of the `StructField` form.
fn write_struct_field(o: &JavaOptions, out: &mut String, e: &LangExpr) -> (r: Result<(), GeneratorError>)
    requires
        e is StructField,
    ensures
        wrote(r, old(out)@, final(out)@, expr_text(*o, e@)),
    decreases e, 0nat,
{
    broadcast use lemma_add_assoc;
    let ghost before = out@;
    match e {
        LangExpr::StructField(_, _, field, value) => {
            match write_expr(o, out, &**value) {
                Ok(()) => {},
                Err(x) => return Err(x),
            }
            append_str(out, ".");
            let f = make_field_name(field.as_str());
            append_str(out, f.as_str());
            assert(out@ =~= before + (ok_text(expr_text(*o, (**value)@)) + "."@ + uncapitalized(field@)));
            Ok(())
        },

        _ => {
            proof {
                assert(false);
            }
            Ok(())
        },
    }
}

/// Writes an expression of the `IdentityConverter` form.
fn write_identity_converter(o: &JavaOptions, out: &mut String, e: &LangExpr) -> (r: Result<(), GeneratorError>)
    requires
        e is IdentityConverter,
    ensures
        wrote(r, old(out)@, final(out)@, expr_text(*o, e@)),
    decreases e, 0nat,
{
    broadcast use lemma_add_assoc;
    let ghost before = out@;
    match e {
        LangExpr::IdentityConverter(t) => {
            append_str(out, runtime_package_name());
            append_str(out, ".Converter.<");
            match write_type(o, out, t, true) {
                Ok(()) => {},
                Err(x) => return Err(x),
            }
            append_str(out, ">identity()");
            assert(out@ =~= before + (runtime_package() + ".Converter.<"@ + ok_text(type_text(*o, t@, true)) + ">identity()"@));
            Ok(())
        },
        _ => {
            proof {
                assert(false);
            }
            Ok(())
        },
    }
}

/// Writes an expression of the `ReadDiscriminator` form.
fn write_read_discriminator(o: &JavaOptions, out: &mut String, e: &LangExpr) -> (r: Result<(), GeneratorError>)
    requires
        e is ReadDiscriminator,
    ensures
        wrote(r, old(out)@, final(out)@, expr_text(*o, e@)),
    decreases e, 0nat,
{
    broadcast use lemma_add_assoc;
    let ghost before = out@;
    match e {
        LangExpr::ReadDiscriminator => {
            append_str(out, runtime_package_name());
            append_str(out, ".Nat.codec.read(reader)");
            Ok(())
        },
        _ => {
            proof {
                assert(false);
            }
            Ok(())
        },
    }
}

/// Writes an expression of the `WriteDiscriminator` form.
fn write_write_discriminator(o: &JavaOptions, out: &mut String, e: &LangExpr) -> (r: Result<(), GeneratorError>)
    requires
        e is WriteDiscriminator,
    ensures
        wrote(r, old(out)@, final(out)@, expr_text(*o, e@)),
    decreases e, 0nat,
{
    broadcast use lemma_add_assoc;
    let ghost before = out@;
    match e {
        LangExpr::WriteDiscriminator(n) => {
            append_str(out, runtime_package_name());
            append_str(out, ".Nat.codec.write(writer, java.math.BigInteger.valueOf(");
            let d = n.to_decimal();
            append_str(out, d.as_str());
            append_str(out, "))");
            assert(out@ =~= before + (runtime_package() + ".Nat.codec.write(writer, java.math.BigInteger.valueOf("@
                + decimal_text(n@) + "))"@));
            Ok(())
        },
        _ => {
            proof {
                assert(false);
            }
            Ok(())
        },
    }
}

/// Writes an expression of the `InvokeOperation` form.
fn write_invoke_operation(o: &JavaOptions, out: &mut String, e: &LangExpr) -> (r: Result<(), GeneratorError>)
    requires
        e is InvokeOperation,
    ensures
        wrote(r, old(out)@, final(out)@, expr_text(*o, e@)),
    decreases e, 0nat,
{
    broadcast use lemma_add_assoc;
    let ghost before = out@;
    match e {
        LangExpr::InvokeOperation(op, target, targs, args) => {
            let ghost tgt: Seq<char>;
            match target {
                OperationTarget::VersionedType(n, v) => {
                    match write_qual_name(o, out, n) {
                        Ok(()) => {},
                        Err(x) => return Err(x),
                    }
                    append_str(out, ".V");
                    let d = v.to_decimal();
                    append_str(out, d.as_str());
                    append_str(out, ".");
                    proof {
                        tgt = ok_text(qual_name_text(*o, n@)) + ".V"@ + decimal_text(v@) + "."@;
                    }
                    assert(out@ =~= before + tgt);
                },
                OperationTarget::ExternType(n) => {
                    match write_qual_name(o, out, n) {
                        Ok(()) => {},
                        Err(x) => return Err(x),
                    }
                    append_str(out, ".");
                    proof {
                        tgt = ok_text(qual_name_text(*o, n@)) + "."@;
                    }
                    assert(out@ =~= before + tgt);
                },
            }
            match write_type_args(o, out, targs) {
                Ok(()) => {},
                Err(x) => return Err(x),
            }
            write_operation_name(out, op);
            match write_args(o, out, args) {
                Ok(()) => {},
                Err(x) => return Err(x),
            }
            assert(out@ =~= before + (tgt + ok_text(type_args_text(*o, lang_types_view(targs@))) + operation_name_text(op@)
                + ok_text(args_text(*o, lang_exprs_view(args@)))));
            Ok(())
        },
        _ => {
            proof {
                assert(false);
            }
            Ok(())
        },
    }
}

/// Writes an expression of the `InvokeUserConverter` form.
fn write_invoke_user_converter(o: &JavaOptions, out: &mut String, e: &LangExpr) -> (r: Result<(), GeneratorError>)
    requires
        e is InvokeUserConverter,
    ensures
        wrote(r, old(out)@, final(out)@, expr_text(*o, e@)),
    decreases e, 0nat,
{
    broadcast use lemma_add_assoc;
    let ghost before = out@;
    match e {
        LangExpr::InvokeUserConverter { name, prev_ver, version, type_args, args } => {
            match write_qual_name(o, out, name) {
                Ok(()) => {},
                Err(x) => return Err(x),
            }
            append_str(out, "_Conversions.");
            match write_type_args(o, out, type_args) {
                Ok(()) => {},
                Err(x) => return Err(x),
            }
            append_str(out, "v");
            let d1 = prev_ver.to_decimal();
            append_str(out, d1.as_str());
            append_str(out, "ToV");
            let d2 = version.to_decimal();
            append_str(out, d2.as_str());
            match write_args(o, out, args) {
                Ok(()) => {},
                Err(x) => return Err(x),
            }
            assert(out@ =~= before + (ok_text(qual_name_text(*o, name@)) + "_Conversions."@ + ok_text(type_args_text(*o, lang_types_view(type_args@)))
                + "v"@ + decimal_text(prev_ver@) + "ToV"@ + decimal_text(version@) + ok_text(args_text(*o, lang_exprs_view(args@)))));
            Ok(())
        },
        _ => {
            proof {
                assert(false);
            }
            Ok(())
        },
    }
}

/// Writes an expression of the `ConstantValue` form.
fn write_constant_value(o: &JavaOptions, out: &mut String, e: &LangExpr) -> (r: Result<(), GeneratorError>)
    requires
        e is ConstantValue,
    ensures
        wrote(r, old(out)@, final(out)@, expr_text(*o, e@)),
    decreases e, 0nat,
{
    broadcast use lemma_add_assoc;
    let ghost before = out@;
    match e {
        LangExpr::ConstantValue(n, v) => {
            match write_qual_name(o, out, n) {
                Ok(()) => {},
                Err(x) => return Err(x),
            }
            append_str(out, ".");
            let name = constant_version_name(v);
            append_str(out, name.as_str());
            assert(out@ =~= before + (ok_text(qual_name_text(*o, n@)) + "."@ + ("v"@ + decimal_text(v@))));
            Ok(())
        },
        _ => {
            proof {
                assert(false);
            }
            Ok(())
        },
    }
}

/// Writes an expression of the `CreateStruct` form.
fn write_create_struct(o: &JavaOptions, out: &mut String, e: &LangExpr) -> (r: Result<(), GeneratorError>)
    requires
        e is CreateStruct,
    ensures
        wrote(r, old(out)@, final(out)@, expr_text(*o, e@)),
    decreases e, 0nat,
{
    broadcast use lemma_add_assoc;
    let ghost before = out@;
    match e {
        LangExpr::CreateStruct(n, v, targs, fields) => {
            proof {
                lemma_named_exprs_view(fields@);
            }
            append_str(out, "new ");
            match write_qual_name(o, out, n) {
                Ok(()) => {},
                Err(x) => return Err(x),
            }
            append_str(out, ".V");
            let d = v.to_decimal();
            append_str(out, d.as_str());
            match write_type_args(o, out, targs) {
                Ok(()) => {},
                Err(x) => return Err(x),
            }
            append_str(out, "(");
            match write_field_values(o, out, fields) {
                Ok(()) => {},
                Err(x) => return Err(x),
            }
            append_str(out, ")");
            assert(out@ =~= before + ("new "@ + ok_text(qual_name_text(*o, n@)) + ".V"@ + decimal_text(v@)
                + ok_text(type_args_text(*o, lang_types_view(targs@))) + "("@
                + ok_text(field_values_joined(*o, named_exprs_view(fields@), named_exprs_view(fields@).len())) + ")"@));
            Ok(())
        },
        _ => {
            proof {
                assert(false);
            }
            Ok(())
        },
    }
}

/// Writes an expression of the `CreateEnum` form.
fn write_create_enum(o: &JavaOptions, out: &mut String, e: &LangExpr) -> (r: Result<(), GeneratorError>)
    requires
        e is CreateEnum,
    ensures
        wrote(r, old(out)@, final(out)@, expr_text(*o, e@)),
    decreases e, 0nat,
{
    broadcast use lemma_add_assoc;
    let ghost before = out@;
    match e {
        LangExpr::CreateEnum(n, v, targs, case, value) => {
            append_str(out, "new ");
            match write_qual_name(o, out, n) {
                Ok(()) => {},
                Err(x) => return Err(x),
            }
            append_str(out, ".V");
            let d = v.to_decimal();
            append_str(out, d.as_str());
            append_str(out, ".");
            let cn = make_type_name(case.as_str());
            append_str(out, cn.as_str());
            match write_type_args(o, out, targs) {
                Ok(()) => {},
                Err(x) => return Err(x),
            }
            append_str(out, "(");
            match write_expr(o, out, &**value) {
                Ok(()) => {},
                Err(x) => return Err(x),
            }
            append_str(out, ")");
            assert(out@ =~= before + ("new "@ + ok_text(qual_name_text(*o, n@)) + ".V"@ + decimal_text(v@) + "."@ + capitalized(case@)
                + ok_text(type_args_text(*o, lang_types_view(targs@))) + "("@ + ok_text(expr_text(*o, (**value)@)) + ")"@));
            Ok(())
        },
        _ => {
            proof {
                assert(false);
            }
            Ok(())
        },
    }
}

/// `n` tab characters.
pub open spec fn tabs(n: nat) -> Seq<char> {
    Seq::new(n, |i: int| '\t')
}

/// One level deeper (the count stops at the largest `usize`).
pub open spec fn deeper(n: nat) -> nat {
    if n < usize::MAX { n + 1 } else { n }
}

/// One level deeper.
pub(crate) fn deeper_exec(n: usize) -> (r: usize)
    ensures
        r == deeper(n as nat),
{
    if n < usize::MAX { n + 1 } else { n }
}

/// Writes `n` tabs.
pub(crate) fn write_indent(out: &mut String, n: usize)
    ensures
        final(out)@ == old(out)@ + tabs(n as nat),
{
    let mut i: usize = 0;
    while i < n
        invariant
            i <= n,
            out@ == old(out)@ + tabs(i as nat),
        decreases n - i,
    {
        string_push(out, '\t');
        assert(out@ =~= old(out)@ + tabs((i + 1) as nat));
        i = i + 1;
    }
}

/// The type of one case of an enum value: the case's record in the
/// version's interface, with the enum's type arguments.
pub open spec fn case_type_text(o: JavaOptions, vt: LangTypeV, case: Seq<char>) -> Result<Seq<char>, GeneratorErrorV> {
    match vt {
        LangTypeV::Versioned(VersionedTypeKind::Enum, name, version, args, _) => match qual_name_text(o, name) {
            Err(e) => Err(e),
            Ok(q) => match type_args_text(o, args) {
                Err(e) => Err(e),
                Ok(a) => Ok(q + ".V"@ + decimal_text(version) + "."@ + capitalized(case) + a),
            },
        },
        _ => Err(GeneratorErrorV::CouldNotGenerateType),
    }
}

/// The keyword that gives a statement's result: `yield` inside a switch
/// expression, else `return`.
pub open spec fn result_kw(y: bool) -> Seq<char> {
    if y { "yield"@ } else { "return"@ }
}

/// The Java text of a statement at indentation `ind`; its result is given
/// with `yield` where `y`, else with `return`.
pub open spec fn stmt_text(o: JavaOptions, ind: nat, st: LangStmtV, y: bool) -> Result<Seq<char>, GeneratorErrorV>
    decreases st, 0nat,
{
    match st {
        LangStmtV::Expr(es, res) => expr_stmt_text(o, ind, es, res, y),
        LangStmtV::MatchEnum(value, vt, cases) => match_enum_text(o, ind, value, vt, cases, has_value_spec(st), y),
        LangStmtV::MatchDiscriminator(value, cases) => match_disc_text(o, ind, value, cases, y),
    }
}

/// Expression statements, each on a line of its own, then the result where
/// there is one.
pub open spec fn expr_stmt_text(o: JavaOptions, ind: nat, es: Seq<LangExprV>, res: Option<LangExprV>, y: bool) -> Result<Seq<char>, GeneratorErrorV> {
    match expr_lines(o, ind, es, es.len()) {
        Err(e) => Err(e),
        Ok(a) => match res {
            None => Ok(a),
            Some(r) => match expr_text(o, r) {
                Err(e) => Err(e),
                Ok(b) => Ok(a + tabs(ind) + result_kw(y) + " "@ + b + ";\n"@),
            },
        },
    }
}

/// A switch on an enum value, with a case for each of the enum's records;
/// where the match gives a value, the switch is an expression whose value is
/// the result.
pub open spec fn match_enum_text(
    o: JavaOptions,
    ind: nat,
    value: LangExprV,
    vt: LangTypeV,
    cases: Seq<(Seq<char>, Seq<char>, LangStmtV)>,
    hv: bool,
    y: bool,
) -> Result<Seq<char>, GeneratorErrorV>
    decreases cases, cases.len() + 1,
{
    match expr_text(o, value) {
        Err(e) => Err(e),
        Ok(v) => match enum_cases_text(o, deeper(ind), vt, cases, cases.len()) {
            Err(e) => Err(e),
            Ok(c) => Ok(tabs(ind) + (if hv { result_kw(y) + " "@ } else { Seq::empty() }) + "switch("@ + v + ") {\n"@ + c
                + tabs(ind) + (if hv { "};\n"@ } else { "}\n"@ })),
        },
    }
}

/// A switch on a discriminator, whose default case throws.
pub open spec fn match_disc_text(o: JavaOptions, ind: nat, value: LangExprV, cases: Seq<(nat, LangStmtV)>, y: bool) -> Result<Seq<char>, GeneratorErrorV>
    decreases cases, cases.len() + 1,
{
    match expr_text(o, value) {
        Err(e) => Err(e),
        Ok(v) => match disc_cases_text(o, deeper(ind), cases, cases.len(), y) {
            Err(e) => Err(e),
            Ok(c) => Ok(tabs(ind) + "switch("@ + v + ".intValueExact()) {\n"@ + c + tabs(deeper(ind))
                + "default: throw new java.io.IOException(\"Invalid tag number.\");\n"@ + tabs(ind) + "}\n"@),
        },
    }
}

/// The expressions `es[..n]`, each on a line of its own.
pub open spec fn expr_lines(o: JavaOptions, ind: nat, es: Seq<LangExprV>, n: nat) -> Result<Seq<char>, GeneratorErrorV>
    decreases n,
{
    if n == 0 || n > es.len() {
        Ok(Seq::empty())
    } else {
        match expr_lines(o, ind, es, (n - 1) as nat) {
            Err(e) => Err(e),
            Ok(p) => match expr_text(o, es[n - 1]) {
                Err(e) => Err(e),
                Ok(x) => Ok(p + tabs(ind) + x + ";\n"@),
            },
        }
    }
}

/// One case of a switch on an enum value: it matches the case's record,
/// binds its value and runs the body, whose result is yielded; a body
/// without a result ends with `break;`.
pub open spec fn enum_case_text(o: JavaOptions, ind: nat, vt: LangTypeV, c: (Seq<char>, Seq<char>, LangStmtV)) -> Result<Seq<char>, GeneratorErrorV>
    decreases c, 1nat,
{
    let (binding, case, body) = c;
    let i2 = deeper(ind);
    match case_type_text(o, vt, case) {
        Err(e) => Err(e),
        Ok(ct) => match stmt_text(o, i2, body, true) {
            Err(e) => Err(e),
            Ok(b) => Ok(tabs(ind) + "case "@ + ct + " case_"@ + binding
                + (if has_value_spec(body) { " -> "@ } else { ":\n"@ + tabs(ind) }) + "{\n"@
                + tabs(i2) + "var "@ + binding + " = case_"@ + binding + "."@ + uncapitalized(case) + "();\n"@
                + b + (if has_value_spec(body) { Seq::empty() } else { tabs(i2) + "break;\n"@ })
                + tabs(ind) + "}\n"@),
        },
    }
}

/// The cases `cases[..n]` of a switch on an enum value.
pub open spec fn enum_cases_text(o: JavaOptions, ind: nat, vt: LangTypeV, cases: Seq<(Seq<char>, Seq<char>, LangStmtV)>, n: nat) -> Result<Seq<char>, GeneratorErrorV>
    decreases cases, n,
{
    if n == 0 || n > cases.len() {
        Ok(Seq::empty())
    } else {
        match enum_cases_text(o, ind, vt, cases, (n - 1) as nat) {
            Err(e) => Err(e),
            Ok(p) => match enum_case_text(o, ind, vt, cases[n - 1]) {
                Err(e) => Err(e),
                Ok(t) => Ok(p + t),
            },
        }
    }
}

/// One case of a switch on a discriminator: a case that gives no value
/// ends with `break;`.
pub open spec fn disc_case_text(o: JavaOptions, ind: nat, c: (nat, LangStmtV), y: bool) -> Result<Seq<char>, GeneratorErrorV>
    decreases c, 1nat,
{
    let (k, body) = c;
    match stmt_text(o, deeper(ind), body, y) {
        Err(e) => Err(e),
        Ok(b) => Ok(tabs(ind) + "case "@ + decimal_text(k) + ":\n"@ + tabs(ind) + "{\n"@ + b
            + (if has_value_spec(body) { Seq::empty() } else { tabs(deeper(ind)) + "break;\n"@ }) + tabs(ind) + "}\n"@),
    }
}

/// The cases `cases[..n]` of a switch on a discriminator, at indentation
/// `ind`.
pub open spec fn disc_cases_text(o: JavaOptions, ind: nat, cases: Seq<(nat, LangStmtV)>, n: nat, y: bool) -> Result<Seq<char>, GeneratorErrorV>
    decreases cases, n,
{
    if n == 0 || n > cases.len() {
        Ok(Seq::empty())
    } else {
        match disc_cases_text(o, ind, cases, (n - 1) as nat, y) {
            Err(e) => Err(e),
            Ok(p) => match disc_case_text(o, ind, cases[n - 1], y) {
                Err(e) => Err(e),
                Ok(t) => Ok(p + t),
            },
        }
    }
}

/// Writes the keyword that gives a statement's result.
fn write_result_kw(out: &mut String, y: bool)
    ensures
        final(out)@ == old(out)@ + result_kw(y),
{
    if y {
        append_str(out, "yield");
    } else {
        append_str(out, "return");
    }
}

/// Writes the type of one case of an enum value.
fn write_case_type(o: &JavaOptions, out: &mut String, vt: &LangType, case: &str) -> (r: Result<(), GeneratorError>)
    ensures
        wrote(r, old(out)@, final(out)@, case_type_text(*o, vt@, case@)),
{
    broadcast use lemma_add_assoc;
    let ghost before = out@;
    match vt {
        LangType::Versioned(VersionedTypeKind::Enum, name, version, args, _) => {
            match write_qual_name(o, out, name) {
                Ok(()) => {},
                Err(x) => return Err(x),
            }
            append_str(out, ".V");
            let d = version.to_decimal();
            append_str(out, d.as_str());
            append_str(out, ".");
            let cn = make_type_name(case);
            append_str(out, cn.as_str());
            let ghost head = ok_text(qual_name_text(*o, name@)) + ".V"@ + decimal_text(version@) + "."@ + capitalized(case@);
            assert(out@ == before + head);
            proof {
                lemma_lang_types_view(args@);
            }
            match write_type_args(o, out, args) {
                Ok(()) => {},
                Err(x) => return Err(x),
            }
            assert(out@ == before + (head + ok_text(type_args_text(*o, lang_types_view(args@)))));
            Ok(())
        },
        _ => Err(GeneratorError::CouldNotGenerateType),
    }
}

/// Once the lines before `k` fail, so do those before any later `n`.
proof fn lemma_expr_lines_err(o: JavaOptions, ind: nat, es: Seq<LangExprV>, k: nat, n: nat)
    requires
        k <= n <= es.len(),
        expr_lines(o, ind, es, k) is Err,
    ensures
        expr_lines(o, ind, es, n) == expr_lines(o, ind, es, k),
    decreases n,
{
    if n > k {
        lemma_expr_lines_err(o, ind, es, k, (n - 1) as nat);
    }
}

/// Once the cases before `k` fail, so do those before any later `n`.
proof fn lemma_enum_cases_text_err(o: JavaOptions, ind: nat, vt: LangTypeV, cases: Seq<(Seq<char>, Seq<char>, LangStmtV)>, k: nat, n: nat)
    requires
        k <= n <= cases.len(),
        enum_cases_text(o, ind, vt, cases, k) is Err,
    ensures
        enum_cases_text(o, ind, vt, cases, n) == enum_cases_text(o, ind, vt, cases, k),
    decreases n,
{
    if n > k {
        lemma_enum_cases_text_err(o, ind, vt, cases, k, (n - 1) as nat);
    }
}

/// Once the cases before `k` fail, so do those before any later `n`.
proof fn lemma_disc_cases_text_err(o: JavaOptions, ind: nat, cases: Seq<(nat, LangStmtV)>, k: nat, n: nat, y: bool)
    requires
        k <= n <= cases.len(),
        disc_cases_text(o, ind, cases, k, y) is Err,
    ensures
        disc_cases_text(o, ind, cases, n, y) == disc_cases_text(o, ind, cases, k, y),
    decreases n,
{
    if n > k {
        lemma_disc_cases_text_err(o, ind, cases, k, (n - 1) as nat, y);
    }
}

/// Writes expressions, each on a line of its own.
fn write_expr_lines(o: &JavaOptions, out: &mut String, ind: usize, es: &Vec<LangExpr>) -> (r: Result<(), GeneratorError>)
    ensures
        wrote(r, old(out)@, final(out)@, expr_lines(*o, ind as nat, lang_exprs_view(es@), es@.len())),
{
    broadcast use lemma_add_assoc;
    proof {
        lemma_lang_exprs_view(es@);
    }
    let ghost ev = lang_exprs_view(es@);
    let ghost start = out@;
    assert(out@ == start + ok_text(expr_lines(*o, ind as nat, ev, 0)));
    let mut i: usize = 0;
    while i < es.len()
        invariant
            i <= es@.len(),
            ev == lang_exprs_view(es@),
            ev.len() == es@.len(),
            forall|j: int| 0 <= j < es@.len() ==> #[trigger] ev[j] == lang_expr_view(es@[j]),
            expr_lines(*o, ind as nat, ev, i as nat) is Ok,
            out@ == start + ok_text(expr_lines(*o, ind as nat, ev, i as nat)),
        decreases es@.len() - i,
    {
        write_indent(out, ind);
        match write_expr(o, out, &es[i]) {
            Ok(()) => {},
            Err(x) => {
                proof {
                    lemma_expr_lines_err(*o, ind as nat, ev, (i + 1) as nat, ev.len());
                }
                return Err(x);
            },
        }
        append_str(out, ";\n");
        assert(out@ == start + ok_text(expr_lines(*o, ind as nat, ev, (i + 1) as nat)));
        i = i + 1;
    }
    Ok(())
}

/// Writes the head of one case of a switch on an enum value, up to the
/// binding of its value.
#[verifier::spinoff_prover]
fn write_enum_case_head(o: &JavaOptions, out: &mut String, ind: usize, vt: &LangType, c: &MatchCase, hv: bool) -> (r: Result<(), GeneratorError>)
    ensures
        match case_type_text(*o, vt@, c.case_name@) {
            Err(e) => r matches Err(x) && x@ == e,
            Ok(ct) => r is Ok && final(out)@ == old(out)@ + (tabs(ind as nat) + "case "@ + ct + " case_"@ + c.binding_name@
                + (if hv { " -> "@ } else { ":\n"@ + tabs(ind as nat) }) + "{\n"@
                + tabs(deeper(ind as nat)) + "var "@ + c.binding_name@ + " = case_"@ + c.binding_name@ + "."@ + uncapitalized(c.case_name@)
                + "();\n"@),
        },
{
    let ghost before = out@;
    let i2 = deeper_exec(ind);
    write_indent(out, ind);
    append_str(out, "case ");
    match write_case_type(o, out, vt, c.case_name.as_str()) {
        Ok(()) => {},
        Err(x) => return Err(x),
    }
    append_str(out, " case_");
    append_str(out, c.binding_name.as_str());
    if hv {
        append_str(out, " -> ");
    } else {
        append_str(out, ":\n");
        write_indent(out, ind);
    }
    append_str(out, "{\n");
    write_indent(out, i2);
    append_str(out, "var ");
    append_str(out, c.binding_name.as_str());
    append_str(out, " = case_");
    append_str(out, c.binding_name.as_str());
    append_str(out, ".");
    let f = make_field_name(c.case_name.as_str());
    append_str(out, f.as_str());
    append_str(out, "();\n");
    let ghost ct = ok_text(case_type_text(*o, vt@, c.case_name@));
    assert(out@ =~= before + (tabs(ind as nat) + "case "@ + ct + " case_"@ + c.binding_name@
        + (if hv { " -> "@ } else { ":\n"@ + tabs(ind as nat) }) + "{\n"@
        + tabs(deeper(ind as nat)) + "var "@ + c.binding_name@ + " = case_"@ + c.binding_name@ + "."@ + uncapitalized(c.case_name@)
        + "();\n"@));
    Ok(())
}

/// Writes one case of a switch on an enum value.
#[verifier::spinoff_prover]
#[verifier::rlimit(60)]
fn write_enum_case(o: &JavaOptions, out: &mut String, ind: usize, vt: &LangType, c: &MatchCase) -> (r: Result<(), GeneratorError>)
    ensures
        wrote(r, old(out)@, final(out)@, enum_case_text(*o, ind as nat, vt@, (c.binding_name@, c.case_name@, lang_stmt_view(c.body)))),
    decreases c, 0nat,
{
    let ghost before = out@;
    let i2 = deeper_exec(ind);
    let hv = c.body.has_value();
    match write_enum_case_head(o, out, ind, vt, c, hv) {
        Ok(()) => {},
        Err(x) => return Err(x),
    }
    let ghost ct = ok_text(case_type_text(*o, vt@, c.case_name@));
    let ghost h = tabs(ind as nat) + "case "@ + ct + " case_"@ + c.binding_name@
        + (if hv { " -> "@ } else { ":\n"@ + tabs(ind as nat) }) + "{\n"@
        + tabs(deeper(ind as nat)) + "var "@ + c.binding_name@ + " = case_"@ + c.binding_name@ + "."@ + uncapitalized(c.case_name@)
        + "();\n"@;
    assert(out@ == before + h);
    match write_statement(o, out, i2, &c.body, true) {
        Ok(()) => {},
        Err(x) => return Err(x),
    }
    let ghost b = ok_text(stmt_text(*o, i2 as nat, c.body@, true));
    assert(out@ =~= before + (h + b));
    if !hv {
        write_indent(out, i2);
        append_str(out, "break;\n");
    }
    write_indent(out, ind);
    append_str(out, "}\n");
    let ghost brk = if hv { Seq::<char>::empty() } else { tabs(i2 as nat) + "break;\n"@ };
    assert(out@ =~= before + (h + b + brk + tabs(ind as nat) + "}\n"@));
    Ok(())
}

/// Writes the cases of a switch on an enum value.
fn write_enum_cases(o: &JavaOptions, out: &mut String, ind: usize, vt: &LangType, cases: &Vec<MatchCase>) -> (r: Result<(), GeneratorError>)
    ensures
        wrote(r, old(out)@, final(out)@, enum_cases_text(*o, ind as nat, vt@, match_cases_view(cases@), cases@.len())),
    decreases cases, 0nat,
{
    proof {
        lemma_match_cases_view(cases@);
    }
    let ghost cv = match_cases_view(cases@);
    let ghost start = out@;
    assert(out@ == start + ok_text(enum_cases_text(*o, ind as nat, vt@, cv, 0)));
    let mut i: usize = 0;
    while i < cases.len()
        invariant
            i <= cases@.len(),
            cv == match_cases_view(cases@),
            cv.len() == cases@.len(),
            forall|j: int| 0 <= j < cases@.len() ==> #[trigger] cv[j]
                == (cases@[j].binding_name@, cases@[j].case_name@, lang_stmt_view(cases@[j].body)),
            enum_cases_text(*o, ind as nat, vt@, cv, i as nat) is Ok,
            out@ == start + ok_text(enum_cases_text(*o, ind as nat, vt@, cv, i as nat)),
        decreases cases@.len() - i,
    {
        match write_enum_case(o, out, ind, vt, &cases[i]) {
            Ok(()) => {},
            Err(x) => {
                proof {
                    lemma_enum_cases_text_err(*o, ind as nat, vt@, cv, (i + 1) as nat, cv.len());
                }
                return Err(x);
            },
        }
        proof {
            lemma_add_assoc(start, ok_text(enum_cases_text(*o, ind as nat, vt@, cv, i as nat)),
                ok_text(enum_case_text(*o, ind as nat, vt@, cv[i as int])));
        }
        i = i + 1;
    }
    Ok(())
}

/// Writes one case of a switch on a discriminator.
#[verifier::spinoff_prover]
fn write_disc_case(o: &JavaOptions, out: &mut String, ind: usize, c: &(BigNat, LangStmt), y: bool) -> (r: Result<(), GeneratorError>)
    ensures
        wrote(r, old(out)@, final(out)@, disc_case_text(*o, ind as nat, (c.0@, lang_stmt_view(c.1)), y)),
    decreases c, 0nat,
{
    broadcast use lemma_add_assoc;
    let ghost p = out@;
    let inner = deeper_exec(ind);
    write_indent(out, ind);
    append_str(out, "case ");
    let d = c.0.to_decimal();
    append_str(out, d.as_str());
    append_str(out, ":\n");
    write_indent(out, ind);
    append_str(out, "{\n");
    let ghost h = tabs(ind as nat) + "case "@ + decimal_text(c.0@) + ":\n"@ + tabs(ind as nat) + "{\n"@;
    assert(out@ == p + h);
    match write_statement(o, out, inner, &c.1, y) {
        Ok(()) => {},
        Err(x) => return Err(x),
    }
    let ghost mid = out@;
    if !c.1.has_value() {
        write_indent(out, inner);
        append_str(out, "break;\n");
    }
    let ghost brk = if has_value_spec(c.1@) { Seq::<char>::empty() } else { tabs(inner as nat) + "break;\n"@ };
    assert(out@ == mid + brk);
    write_indent(out, ind);
    append_str(out, "}\n");
    let ghost b = ok_text(stmt_text(*o, inner as nat, c.1@, y));
    assert(out@ == p + (h + b + brk + tabs(ind as nat) + "}\n"@));
    Ok(())
}

/// Writes the cases of a switch on a discriminator.
fn write_disc_cases(o: &JavaOptions, out: &mut String, ind: usize, cases: &Vec<(BigNat, LangStmt)>, y: bool) -> (r: Result<(), GeneratorError>)
    ensures
        wrote(r, old(out)@, final(out)@, disc_cases_text(*o, ind as nat, disc_cases_view(cases@), cases@.len(), y)),
    decreases cases, 0nat,
{
    proof {
        lemma_disc_cases_view(cases@);
    }
    let ghost cv = disc_cases_view(cases@);
    let ghost start = out@;
    assert(out@ == start + ok_text(disc_cases_text(*o, ind as nat, cv, 0, y)));
    let mut i: usize = 0;
    while i < cases.len()
        invariant
            i <= cases@.len(),
            cv == disc_cases_view(cases@),
            cv.len() == cases@.len(),
            forall|j: int| 0 <= j < cases@.len() ==> #[trigger] cv[j] == (cases@[j].0@, lang_stmt_view(cases@[j].1)),
            disc_cases_text(*o, ind as nat, cv, i as nat, y) is Ok,
            out@ == start + ok_text(disc_cases_text(*o, ind as nat, cv, i as nat, y)),
        decreases cases@.len() - i,
    {
        match write_disc_case(o, out, ind, &cases[i], y) {
            Ok(()) => {},
            Err(x) => {
                proof {
                    lemma_disc_cases_text_err(*o, ind as nat, cv, (i + 1) as nat, cv.len(), y);
                }
                return Err(x);
            },
        }
        proof {
            lemma_add_assoc(start, ok_text(disc_cases_text(*o, ind as nat, cv, i as nat, y)),
                ok_text(disc_case_text(*o, ind as nat, cv[i as int], y)));
        }
        i = i + 1;
    }
    Ok(())
}

/// Writes the Java text of a statement at indentation `ind`, giving its
/// result with `yield` where `y`, else with `return`.
pub fn write_statement(o: &JavaOptions, out: &mut String, ind: usize, st: &LangStmt, y: bool) -> (r: Result<(), GeneratorError>)
    ensures
        wrote(r, old(out)@, final(out)@, stmt_text(*o, ind as nat, st@, y)),
    decreases st, 2nat,
{
    match st {
        LangStmt::Expr(es, res) => {
            proof {
                lemma_lang_exprs_view(es@);
            }
            write_expr_statement_lines(o, out, ind, es, res, y)
        },
        LangStmt::MatchEnum { value, value_type, cases } => {
            proof {
                lemma_match_cases_view(cases@);
            }
            let hv = st.has_value();
            write_match_enum(o, out, ind, value, value_type, cases, hv, y)
        },
        LangStmt::MatchDiscriminator { value, cases } => {
            proof {
                lemma_disc_cases_view(cases@);
            }
            write_match_discriminator(o, out, ind, value, cases, y)
        },
    }
}

/// Writes expression statements and the result.
fn write_expr_statement_lines(
    o: &JavaOptions,
    out: &mut String,
    ind: usize,
    es: &Vec<LangExpr>,
    res: &Option<LangExpr>,
    y: bool,
) -> (r: Result<(), GeneratorError>)
    ensures
        wrote(r, old(out)@, final(out)@, expr_stmt_text(*o, ind as nat, lang_exprs_view(es@), opt_expr_view(*res), y)),
{
    let ghost before = out@;
    proof {
        lemma_lang_exprs_view(es@);
    }
    match write_expr_lines(o, out, ind, es) {
        Ok(()) => {},
        Err(x) => return Err(x),
    }
    let ghost a = ok_text(expr_lines(*o, ind as nat, lang_exprs_view(es@), es@.len()));
    assert(out@ == before + a);
    match res {
        None => {},
        Some(r) => {
            write_indent(out, ind);
            write_result_kw(out, y);
            append_str(out, " ");
            match write_expr(o, out, r) {
                Ok(()) => {},
                Err(x) => return Err(x),
            }
            append_str(out, ";\n");
            assert(out@ =~= before + (a + tabs(ind as nat) + result_kw(y) + " "@ + ok_text(expr_text(*o, r@)) + ";\n"@));
        },
    }
    Ok(())
}

/// Writes a switch on an enum value.
#[verifier::spinoff_prover]
fn write_match_enum(
    o: &JavaOptions,
    out: &mut String,
    ind: usize,
    value: &LangExpr,
    vt: &LangType,
    cases: &Vec<MatchCase>,
    hv: bool,
    y: bool,
) -> (r: Result<(), GeneratorError>)
    ensures
        wrote(r, old(out)@, final(out)@, match_enum_text(*o, ind as nat, value@, vt@, match_cases_view(cases@), hv, y)),
    decreases cases, 1nat,
{
    let ghost before = out@;
    proof {
        lemma_match_cases_view(cases@);
    }
    write_indent(out, ind);
    if hv {
        write_result_kw(out, y);
        append_str(out, " ");
    }
    append_str(out, "switch(");
    match write_expr(o, out, value) {
        Ok(()) => {},
        Err(x) => return Err(x),
    }
    append_str(out, ") {\n");
    let ghost h = tabs(ind as nat) + (if hv { result_kw(y) + " "@ } else { Seq::<char>::empty() }) + "switch("@
        + ok_text(expr_text(*o, value@)) + ") {\n"@;
    assert(out@ =~= before + h);
    let inner = deeper_exec(ind);
    match write_enum_cases(o, out, inner, vt, cases) {
        Ok(()) => {},
        Err(x) => return Err(x),
    }
    let ghost c = ok_text(enum_cases_text(*o, deeper(ind as nat), vt@, match_cases_view(cases@), cases@.len()));
    assert(out@ =~= before + (h + c));
    write_indent(out, ind);
    if hv {
        append_str(out, "};\n");
    } else {
        append_str(out, "}\n");
    }
    assert(out@ =~= before + (h + c + tabs(ind as nat) + (if hv { "};\n"@ } else { "}\n"@ })));
    Ok(())
}

/// Writes a switch on a discriminator.
#[verifier::spinoff_prover]
fn write_match_discriminator(
    o: &JavaOptions,
    out: &mut String,
    ind: usize,
    value: &LangExpr,
    cases: &Vec<(BigNat, LangStmt)>,
    y: bool,
) -> (r: Result<(), GeneratorError>)
    ensures
        wrote(r, old(out)@, final(out)@, match_disc_text(*o, ind as nat, value@, disc_cases_view(cases@), y)),
    decreases cases, 1nat,
{
    broadcast use lemma_add_assoc;
    let ghost before = out@;
    proof {
        lemma_disc_cases_view(cases@);
    }
    write_indent(out, ind);
    append_str(out, "switch(");
    match write_expr(o, out, value) {
        Ok(()) => {},
        Err(x) => return Err(x),
    }
    append_str(out, ".intValueExact()) {\n");
    let ghost h = tabs(ind as nat) + "switch("@ + ok_text(expr_text(*o, value@)) + ".intValueExact()) {\n"@;
    assert(out@ == before + h);
    let inner = deeper_exec(ind);
    match write_disc_cases(o, out, inner, cases, y) {
        Ok(()) => {},
        Err(x) => return Err(x),
    }
    let ghost c = ok_text(disc_cases_text(*o, deeper(ind as nat), disc_cases_view(cases@), cases@.len(), y));
    assert(out@ == before + (h + c));
    write_indent(out, inner);
    append_str(out, "default: throw new java.io.IOException(\"Invalid tag number.\");\n");
    write_indent(out, ind);
    append_str(out, "}\n");
    assert(out@ == before + (h + c + tabs(deeper(ind as nat))
        + "default: throw new java.io.IOException(\"Invalid tag number.\");\n"@ + tabs(ind as nat) + "}\n"@));
    Ok(())
}

/// The values given to a struct's constructor are those of its fields, in
/// field order, each written as its own argument and separated by ", ":
/// where the value of field `i` has the text `ts[i]`, the argument list of
/// the first `n` fields is those texts joined by ", ".
pub proof fn lemma_field_values_are_arguments(o: JavaOptions, fs: Seq<(Seq<char>, LangExprV)>, ts: Seq<Seq<char>>, n: nat)
    requires
        n <= fs.len(),
        ts.len() == n,
        forall|i: int| 0 <= i < n ==> expr_text(o, #[trigger] fs[i].1) == Ok::<Seq<char>, GeneratorErrorV>(ts[i]),
    ensures
        field_values_joined(o, fs, n) == Ok::<Seq<char>, GeneratorErrorV>(joined_with(ts, ", "@)),
    decreases n,
{
    if n > 1 {
        assert(expr_text(o, fs[n - 1].1) == Ok::<Seq<char>, GeneratorErrorV>(ts[n - 1]));
        lemma_field_values_are_arguments(o, fs, ts.drop_last(), (n - 1) as nat);
    } else if n == 1 {
        assert(expr_text(o, fs[0].1) == Ok::<Seq<char>, GeneratorErrorV>(ts[0]));
    }
}

/// Type arguments are written each with its own text, in order, separated
/// by ", ".
pub proof fn lemma_types_joined_each(o: JavaOptions, xs: Seq<LangTypeV>, ts: Seq<Seq<char>>, n: nat)
    requires
        n <= xs.len(),
        ts.len() == n,
        forall|i: int| 0 <= i < n ==> type_text(o, #[trigger] xs[i], true) == Ok::<Seq<char>, GeneratorErrorV>(ts[i]),
    ensures
        types_joined(o, xs, n) == Ok::<Seq<char>, GeneratorErrorV>(joined_with(Seq::new(n, |i: int| ts[i]), ", "@)),
    decreases n,
{
    if n > 0 {
        let m = (n - 1) as nat;
        assert(type_text(o, xs[m as int], true) == Ok::<Seq<char>, GeneratorErrorV>(ts[m as int]));
        lemma_types_joined_each(o, xs, ts.drop_last(), m);
        let ys = Seq::new(n, |i: int| ts[i]);
        assert(ys.drop_last() =~= Seq::new(m, |i: int| ts.drop_last()[i]));
        let r = types_joined(o, xs, n);
        assert(r is Ok);
        if n == 1 {
            assert(r->Ok_0 =~= ys[0]);
        } else {
            assert(r->Ok_0 =~= joined_with(ys, ", "@));
        }
    }
}

/// Arguments are written each with its own text, in order, separated by
/// ", ".
pub proof fn lemma_exprs_joined_each(o: JavaOptions, xs: Seq<LangExprV>, ts: Seq<Seq<char>>, n: nat)
    requires
        n <= xs.len(),
        ts.len() == n,
        forall|i: int| 0 <= i < n ==> expr_text(o, #[trigger] xs[i]) == Ok::<Seq<char>, GeneratorErrorV>(ts[i]),
    ensures
        exprs_joined(o, xs, n) == Ok::<Seq<char>, GeneratorErrorV>(joined_with(Seq::new(n, |i: int| ts[i]), ", "@)),
    decreases n,
{
    if n > 0 {
        let m = (n - 1) as nat;
        assert(expr_text(o, xs[m as int]) == Ok::<Seq<char>, GeneratorErrorV>(ts[m as int]));
        lemma_exprs_joined_each(o, xs, ts.drop_last(), m);
        let ys = Seq::new(n, |i: int| ts[i]);
        assert(ys.drop_last() =~= Seq::new(m, |i: int| ts.drop_last()[i]));
        let r = exprs_joined(o, xs, n);
        assert(r is Ok);
        if n == 1 {
            assert(r->Ok_0 =~= ys[0]);
        } else {
            assert(r->Ok_0 =~= joined_with(ys, ", "@));
        }
    }
}

} // verus!

