//! Code generation for Scala: the options that map packages to Scala
//! packages, the Scala text of types, expressions and statements (reading
//! and writing run in `zio` effects), and whole files.
use vstd::prelude::*;
use crate::bignum::{BigNat, BigInt, Sign, decimal_text, lemma_decimal_text_injective};
use crate::names::{PackageName, QualifiedName, package_from_str, strings_view};
use crate::model::NameView;
use crate::text::{append_str, str_eq, joined_with};
use crate::util::{capitalized, uncapitalized};
use crate::lang::{make_type_name, make_field_name};
use crate::lang::{LanguageOptions, LanguageOptionsBuilder};
use crate::generator::{
    lemma_lang_exprs_view, GeneratorError, GeneratorErrorV, LangType, LangTypeV, lang_type_view, lang_types_view, lemma_lang_types_view,
    LangExpr, LangExprV, lang_expr_view, lang_exprs_view, named_exprs_view, lemma_named_exprs_view,
    OperationTarget, OperationTargetV, constant_version_name, LangStmt, LangStmtV, MatchCase, lang_stmt_view, match_cases_view,
    disc_cases_view, lemma_match_cases_view, lemma_disc_cases_view, opt_expr_view, LangExprStmt, LangExprStmtV,
    OperationInfo, OperationInfoV, type_args_view, lemma_type_args_view,
};
use crate::java_file::{names_joined, write_names, ops_view, dot_joined};
use crate::java::{
    map_get, map_insert, pkg_map_view, has_prefix, unit_result, strip_prefix, find_pkg, insert_pkg, option_error, ok_text, wrote,
    lemma_add_assoc, dotted_prefix, write_dotted_prefix, decimal_int, write_decimal_int, escaped, write_escaped, operation_name_text,
    write_operation_name, tabs, deeper, deeper_exec, write_indent,
};

verus! {

/// The Scala package that holds the runtime library.
pub open spec fn scala_runtime_package() -> Seq<char> {
    "dev.argon.verilization.scala_runtime"@
}

/// The Scala package that holds the runtime library.
pub fn scala_runtime_package_name() -> (r: &'static str)
    ensures
        r@ == scala_runtime_package(),
{
    "dev.argon.verilization.scala_runtime"
}

/// The finished options for Scala: the output directory, and the Scala
/// package of each package that is generated and of each library package
/// that is not.
pub struct ScalaOptions {
    pub output_dir: String,
    pub package_mapping: Vec<(PackageName, PackageName)>,
    pub library_mapping: Vec<(PackageName, PackageName)>,
}

/// Options for Scala as they are given, one at a time.
pub struct ScalaOptionsBuilder {
    pub output_dir: Option<String>,
    pub package_mapping: Vec<(PackageName, PackageName)>,
    pub library_mapping: Vec<(PackageName, PackageName)>,
}

/// The view of the Scala options being given.
pub struct ScalaBuilderV {
    pub output_dir: Option<Seq<char>>,
    pub packages: Seq<(Seq<Seq<char>>, Seq<Seq<char>>)>,
    pub libraries: Seq<(Seq<Seq<char>>, Seq<Seq<char>>)>,
}

impl View for ScalaOptionsBuilder {
    type V = ScalaBuilderV;

    open spec fn view(&self) -> ScalaBuilderV {
        ScalaBuilderV {
            output_dir: match self.output_dir {
                Some(d) => Some(d@),
                None => None,
            },
            packages: pkg_map_view(self.package_mapping@),
            libraries: pkg_map_view(self.library_mapping@),
        }
    }
}

/// The options after one more is given, and whether it was accepted.
///
/// `out_dir` sets the output directory, once. `pkg:P` maps package `P` to
/// the Scala package given, and `lib:P` maps a library package; a package
/// mapped either way before is refused, and one mapped the same way takes
/// the new mapping all the same. Any other option is unknown.
pub open spec fn scala_add_option_spec(b: ScalaBuilderV, name: Seq<char>, value: Seq<char>) -> (ScalaBuilderV, Result<(), GeneratorErrorV>) {
    if name == "out_dir"@ {
        if b.output_dir is Some {
            (b, Err(GeneratorErrorV::InvalidOptions("Output directory already specified"@)))
        } else {
            (ScalaBuilderV { output_dir: Some(value), ..b }, Ok(()))
        }
    } else if has_prefix(name, "pkg:"@) {
        let pkg = name.skip(4);
        let package = package_from_str(pkg);
        if map_get(b.libraries, package) is Some {
            (b, Err(GeneratorErrorV::InvalidOptions("Package already mapped: "@ + pkg)))
        } else {
            let b2 = ScalaBuilderV { packages: map_insert(b.packages, package, package_from_str(value)), ..b };
            if map_get(b.packages, package) is Some {
                (b2, Err(GeneratorErrorV::InvalidOptions("Package already mapped: "@ + pkg)))
            } else {
                (b2, Ok(()))
            }
        }
    } else if has_prefix(name, "lib:"@) {
        let pkg = name.skip(4);
        let package = package_from_str(pkg);
        if map_get(b.packages, package) is Some {
            (b, Err(GeneratorErrorV::InvalidOptions("Package already mapped: "@ + pkg)))
        } else {
            let b2 = ScalaBuilderV { libraries: map_insert(b.libraries, package, package_from_str(value)), ..b };
            if map_get(b.libraries, package) is Some {
                (b2, Err(GeneratorErrorV::InvalidOptions("Package already mapped: "@ + pkg)))
            } else {
                (b2, Ok(()))
            }
        }
    } else {
        (b, Err(GeneratorErrorV::InvalidOptions("Unknown option: "@ + name)))
    }
}

/// The Scala options after the given options, in order, starting from none.
pub open spec fn scala_options_after(calls: Seq<(Seq<char>, Seq<char>)>) -> ScalaBuilderV
    decreases calls.len(),
{
    if calls.len() == 0 {
        ScalaBuilderV { output_dir: None, packages: Seq::empty(), libraries: Seq::empty() }
    } else {
        scala_add_option_spec(scala_options_after(calls.drop_last()), calls.last().0, calls.last().1).0
    }
}

/// Whether option `i` of `calls` set the output directory: it is `out_dir`
/// and was accepted.
pub open spec fn scala_sets_output_dir(calls: Seq<(Seq<char>, Seq<char>)>, i: int) -> bool {
    &&& 0 <= i < calls.len()
    &&& calls[i].0 == "out_dir"@
    &&& scala_add_option_spec(scala_options_after(calls.take(i)), calls[i].0, calls[i].1).1 is Ok
}

/// Whatever options are given, in whatever order, the output directory is
/// set exactly when some `out_dir` option was accepted, and then it is the
/// value of that option; at most one is accepted. So finishing the options
/// fails with "Output directory not specified" exactly when none was.
pub proof fn lemma_scala_output_dir_once(calls: Seq<(Seq<char>, Seq<char>)>)
    ensures
        match scala_options_after(calls).output_dir {
            None => forall|i: int| !scala_sets_output_dir(calls, i),
            Some(d) => exists|i: int| scala_sets_output_dir(calls, i) && calls[i].1 == d,
        },
        forall|i: int, j: int| scala_sets_output_dir(calls, i) && scala_sets_output_dir(calls, j) ==> i == j,
    decreases calls.len(),
{
    if calls.len() > 0 {
        let init = calls.drop_last();
        lemma_scala_output_dir_once(init);
        let n = calls.len() - 1;
        assert(calls.take(n) =~= init);
        assert forall|i: int| 0 <= i < n implies (scala_sets_output_dir(calls, i) <==> scala_sets_output_dir(init, i)) by {
            assert(calls.take(i) =~= init.take(i));
            assert(calls[i] == init[i]);
        }
        let b = scala_options_after(init);
        let last = calls.last();
        assert(calls[n] == last);
        if last.0 == "out_dir"@ {
            assert(scala_options_after(calls).output_dir == (if b.output_dir is Some { b.output_dir } else { Some(last.1) }));
        } else {
            assert(scala_options_after(calls).output_dir == b.output_dir);
            assert(!scala_sets_output_dir(calls, n));
        }
        match scala_options_after(calls).output_dir {
            None => {
                assert forall|i: int| !scala_sets_output_dir(calls, i) by {
                    if 0 <= i < n {
                        assert(!scala_sets_output_dir(init, i));
                    }
                }
            },
            Some(d) => {
                if b.output_dir is Some {
                    let i = choose|i: int| scala_sets_output_dir(init, i) && init[i].1 == b.output_dir->Some_0;
                    assert(scala_sets_output_dir(calls, i) && calls[i].1 == d);
                } else {
                    assert(scala_sets_output_dir(calls, n) && calls[n].1 == d);
                }
            },
        }
        assert forall|i: int, j: int| scala_sets_output_dir(calls, i) && scala_sets_output_dir(calls, j) implies i == j by {
            if i == n && j < n {
                assert(scala_sets_output_dir(init, j));
            } else if j == n && i < n {
                assert(scala_sets_output_dir(init, i));
            } else if i < n && j < n {
                assert(scala_sets_output_dir(init, i) && scala_sets_output_dir(init, j));
            }
        }
    }
}

impl LanguageOptionsBuilder for ScalaOptionsBuilder {
    open spec fn nothing_given(&self) -> bool {
        self@ == (ScalaBuilderV { output_dir: None, packages: Seq::empty(), libraries: Seq::empty() })
    }

    open spec fn adds(&self, name: Seq<char>, value: Seq<char>, after: Self, r: Result<(), GeneratorError>) -> bool {
        &&& after@ == scala_add_option_spec(self@, name, value).0
        &&& unit_result(r) == scala_add_option_spec(self@, name, value).1
    }

    /// Options with nothing set.
    fn empty() -> (r: ScalaOptionsBuilder) {
        let r = ScalaOptionsBuilder { output_dir: None, package_mapping: Vec::new(), library_mapping: Vec::new() };
        assert(r@.packages =~= Seq::<(Seq<Seq<char>>, Seq<Seq<char>>)>::empty());
        assert(r@.libraries =~= Seq::<(Seq<Seq<char>>, Seq<Seq<char>>)>::empty());
        r
    }

    /// Sets one option.
    fn add(&mut self, name: &str, value: &str) -> (r: Result<(), GeneratorError>) {
        if str_eq(name, "out_dir") {
            if self.output_dir.is_some() {
                return Err(GeneratorError::InvalidOptions("Output directory already specified".to_owned()));
            }
            self.output_dir = Some(value.to_owned());
            return Ok(());
        }
        assert(name@ != "out_dir"@);
        if let Some(pkg) = strip_prefix(name, "pkg:") {
            proof {
                reveal_strlit("pkg:");
            }
            let package = PackageName::from_str(pkg.as_str());
            let scala_package = PackageName::from_str(value);
            if find_pkg(&self.library_mapping, &package).is_some() {
                return Err(option_error("Package already mapped: ", pkg.as_str()));
            }
            let existed = find_pkg(&self.package_mapping, &package).is_some();
            insert_pkg(&mut self.package_mapping, package, scala_package);
            if existed {
                return Err(option_error("Package already mapped: ", pkg.as_str()));
            }
            return Ok(());
        }
        if let Some(pkg) = strip_prefix(name, "lib:") {
            proof {
                reveal_strlit("lib:");
            }
            let package = PackageName::from_str(pkg.as_str());
            let scala_package = PackageName::from_str(value);
            if find_pkg(&self.package_mapping, &package).is_some() {
                return Err(option_error("Package already mapped: ", pkg.as_str()));
            }
            let existed = find_pkg(&self.library_mapping, &package).is_some();
            insert_pkg(&mut self.library_mapping, package, scala_package);
            if existed {
                return Err(option_error("Package already mapped: ", pkg.as_str()));
            }
            return Ok(());
        }
        Err(option_error("Unknown option: ", name))
    }

}

impl LanguageOptions for ScalaOptions {
    type Builder = ScalaOptionsBuilder;

    open spec fn builds(builder: ScalaOptionsBuilder, r: Result<ScalaOptions, GeneratorError>) -> bool {
        match r {
            Ok(o) => builder.output_dir matches Some(d) && o.output_dir@ == d@
                && o.package_mapping@ == builder.package_mapping@
                && o.library_mapping@ == builder.library_mapping@,
            Err(e) => builder.output_dir is None && e@ == GeneratorErrorV::InvalidOptions("Output directory not specified"@),
        }
    }

    /// The finished options; the output directory must have been given.
    fn build(builder: ScalaOptionsBuilder) -> (r: Result<ScalaOptions, GeneratorError>) {
        match builder.output_dir {
            None => Err(GeneratorError::InvalidOptions("Output directory not specified".to_owned())),
            Some(d) => Ok(ScalaOptions {
                output_dir: d,
                package_mapping: builder.package_mapping,
                library_mapping: builder.library_mapping,
            }),
        }
    }
}

/// The Scala package of a package.
pub fn scala_package<'o>(o: &'o ScalaOptions, pkg: &PackageName) -> (r: Result<&'o PackageName, GeneratorError>)
    ensures
        match scala_package_spec(*o, pkg@) {
            Ok(p) => r matches Ok(x) && x@ == p,
            Err(e) => r matches Err(x) && x@ == e,
        },
{
    match find_pkg(&o.package_mapping, pkg) {
        Some(i) => Ok(&o.package_mapping[i].1),
        None => match find_pkg(&o.library_mapping, pkg) {
            Some(i) => Ok(&o.library_mapping[i].1),
            None => Err(GeneratorError::UnmappedPackage(pkg.copy())),
        },
    }
}

/// The Scala package of a package: its mapping for generated code, or else
/// for library code.
pub open spec fn scala_package_spec(o: ScalaOptions, pkg: Seq<Seq<char>>) -> Result<Seq<Seq<char>>, GeneratorErrorV> {
    match map_get(pkg_map_view(o.package_mapping@), pkg) {
        Some(j) => Ok(j),
        None => match map_get(pkg_map_view(o.library_mapping@), pkg) {
            Some(j) => Ok(j),
            None => Err(GeneratorErrorV::UnmappedPackage(pkg)),
        },
    }
}

/// The Scala name of the type generated for `n`: its Scala package and its
/// name with the first letter capitalized.
pub open spec fn scala_qual_name_text(o: ScalaOptions, n: NameView) -> Result<Seq<char>, GeneratorErrorV> {
    match scala_package_spec(o, n.0) {
        Err(e) => Err(e),
        Ok(p) => Ok(dotted_prefix(p) + capitalized(n.1)),
    }
}

/// The Scala text of a type. An extern type is named as a generated type
/// would be.
pub open spec fn scala_type_text(o: ScalaOptions, t: LangTypeV) -> Result<Seq<char>, GeneratorErrorV>
    decreases t, 0nat,
{
    match t {
        LangTypeV::Versioned(_, name, version, args, _) => match scala_qual_name_text(o, name) {
            Err(e) => Err(e),
            Ok(q) => match scala_type_args_text(o, args) {
                Err(e) => Err(e),
                Ok(a) => Ok(q + ".V"@ + decimal_text(version) + a),
            },
        },
        LangTypeV::Extern(name, args, _) => match scala_qual_name_text(o, name) {
            Err(e) => Err(e),
            Ok(q) => match scala_type_args_text(o, args) {
                Err(e) => Err(e),
                Ok(a) => Ok(q + a),
            },
        },
        LangTypeV::TypeParameter(p) => Ok(p),
        LangTypeV::Converter(from, to) => match scala_type_text(o, *from) {
            Err(e) => Err(e),
            Ok(a) => match scala_type_text(o, *to) {
                Err(e) => Err(e),
                Ok(b) => Ok(scala_runtime_package() + ".Converter["@ + a + ", "@ + b + "]"@),
            },
        },
        LangTypeV::Codec(inner) => match scala_type_text(o, *inner) {
            Err(e) => Err(e),
            Ok(a) => Ok(scala_runtime_package() + ".Codec["@ + a + "]"@),
        },
    }
}

/// Type arguments in square brackets, or nothing when there are none.
pub open spec fn scala_type_args_text(o: ScalaOptions, args: Seq<LangTypeV>) -> Result<Seq<char>, GeneratorErrorV>
    decreases args, args.len() + 1,
{
    if args.len() == 0 {
        Ok(Seq::empty())
    } else {
        match scala_types_joined(o, args, args.len()) {
            Err(e) => Err(e),
            Ok(j) => Ok("["@ + j + "]"@),
        }
    }
}

/// The object types `args[..n]`, separated by commas.
pub open spec fn scala_types_joined(o: ScalaOptions, args: Seq<LangTypeV>, n: nat) -> Result<Seq<char>, GeneratorErrorV>
    decreases args, n,
{
    if n == 0 || n > args.len() {
        Ok(Seq::empty())
    } else if n == 1 {
        scala_type_text(o, args[0])
    } else {
        match scala_types_joined(o, args, (n - 1) as nat) {
            Err(e) => Err(e),
            Ok(p) => match scala_type_text(o, args[n - 1]) {
                Err(e) => Err(e),
                Ok(x) => Ok(p + ", "@ + x),
            },
        }
    }
}

/// Writes the Scala name of the type generated for `name`.
pub fn scala_write_qual_name(o: &ScalaOptions, out: &mut String, name: &QualifiedName) -> (r: Result<(), GeneratorError>)
    ensures
        wrote(r, old(out)@, final(out)@, scala_qual_name_text(*o, name@)),
{
    let pkg = match scala_package(o, &name.package) {
        Ok(p) => p,
        Err(e) => return Err(e),
    };
    let ghost before = out@;
    write_dotted_prefix(out, &pkg.package);
    let n = make_type_name(name.name.as_str());
    append_str(out, n.as_str());
    assert(out@ =~= before + (dotted_prefix(pkg@) + capitalized(name.name@)));
    Ok(())
}

/// Writes the Scala text of a type.
pub fn scala_write_type(o: &ScalaOptions, out: &mut String, t: &LangType) -> (r: Result<(), GeneratorError>)
    ensures
        wrote(r, old(out)@, final(out)@, scala_type_text(*o, t@)),
    decreases t,
{
    let ghost before = out@;
    match t {
        LangType::Versioned(_, name, version, args, _) => {
            match scala_write_qual_name(o, out, name) {
                Ok(()) => {},
                Err(e) => return Err(e),
            }
            let ghost mid = out@;
            append_str(out, ".V");
            let d = version.to_decimal();
            append_str(out, d.as_str());
            let ghost mid2 = out@;
            proof {
                lemma_lang_types_view(args@);
            }
            match scala_write_type_args(o, out, args) {
                Ok(()) => {},
                Err(e) => return Err(e),
            }
            assert(out@ =~= before + (ok_text(scala_qual_name_text(*o, name@)) + ".V"@ + decimal_text(version@)
                + ok_text(scala_type_args_text(*o, lang_types_view(args@)))));
            Ok(())
        },
        LangType::Extern(name, args, _) => {
            match scala_write_qual_name(o, out, name) {
                Ok(()) => {},
                Err(e) => return Err(e),
            }
            match scala_write_type_args(o, out, args) {
                Ok(()) => {},
                Err(e) => return Err(e),
            }
            assert(out@ =~= before + (ok_text(scala_qual_name_text(*o, name@)) + ok_text(scala_type_args_text(*o, lang_types_view(args@)))));
            Ok(())
        },
        LangType::TypeParameter(p) => {
            append_str(out, p.as_str());
            Ok(())
        },
        LangType::Converter(from, to) => {
            append_str(out, scala_runtime_package_name());
            append_str(out, ".Converter[");
            match scala_write_type(o, out, &**from) {
                Ok(()) => {},
                Err(e) => return Err(e),
            }
            let ghost a = ok_text(scala_type_text(*o, (**from)@));
            append_str(out, ", ");
            match scala_write_type(o, out, &**to) {
                Ok(()) => {},
                Err(e) => return Err(e),
            }
            let ghost b = ok_text(scala_type_text(*o, (**to)@));
            append_str(out, "]");
            assert(out@ =~= before + (scala_runtime_package() + ".Converter["@ + a + ", "@ + b + "]"@));
            Ok(())
        },
        LangType::Codec(inner) => {
            append_str(out, scala_runtime_package_name());
            append_str(out, ".Codec[");
            match scala_write_type(o, out, &**inner) {
                Ok(()) => {},
                Err(e) => return Err(e),
            }
            let ghost a = ok_text(scala_type_text(*o, (**inner)@));
            append_str(out, "]");
            assert(out@ =~= before + (scala_runtime_package() + ".Codec["@ + a + "]"@));
            Ok(())
        },
    }
}

/// Writes type arguments in square brackets, or nothing when there are none.
pub fn scala_write_type_args(o: &ScalaOptions, out: &mut String, args: &Vec<LangType>) -> (r: Result<(), GeneratorError>)
    ensures
        wrote(r, old(out)@, final(out)@, scala_type_args_text(*o, lang_types_view(args@))),
    decreases args,
{
    proof {
        lemma_lang_types_view(args@);
    }
    let ghost av = lang_types_view(args@);
    if args.len() == 0 {
        assert(out@ =~= old(out)@ + Seq::<char>::empty());
        return Ok(());
    }
    let ghost before = out@;
    append_str(out, "[");
    let ghost start = out@;
    let mut i: usize = 0;
    while i < args.len()
        invariant
            i <= args@.len(),
            av == lang_types_view(args@),
            av.len() == args@.len(),
            forall|j: int| 0 <= j < args@.len() ==> #[trigger] av[j] == lang_type_view(args@[j]),
            scala_types_joined(*o, av, i as nat) is Ok,
            out@ == start + ok_text(scala_types_joined(*o, av, i as nat)),
        decreases args@.len() - i,
    {
        let ghost prev = out@;
        if i > 0 {
            append_str(out, ", ");
        }
        match scala_write_type(o, out, &args[i]) {
            Ok(()) => {},
            Err(e) => {
                proof {
                    lemma_scala_types_err(*o, av, (i + 1) as nat, av.len());
                }
                return Err(e);
            },
        }
        if i == 0 {
            assert(out@ =~= start + ok_text(scala_types_joined(*o, av, 1)));
        } else {
            assert(out@ =~= start + ok_text(scala_types_joined(*o, av, (i + 1) as nat)));
        }
        i = i + 1;
    }
    append_str(out, "]");
    assert(out@ =~= before + ("["@ + ok_text(scala_types_joined(*o, av, av.len())) + "]"@));
    Ok(())
}

/// Once the types before `k` fail, so do those before any later `n`.
proof fn lemma_scala_types_err(o: ScalaOptions, args: Seq<LangTypeV>, k: nat, n: nat)
    requires
        1 <= k <= n <= args.len(),
        scala_types_joined(o, args, k) is Err,
    ensures
        scala_types_joined(o, args, n) == scala_types_joined(o, args, k),
    decreases n,
{
    if n > k {
        lemma_scala_types_err(o, args, k, (n - 1) as nat);
    }
}

/// A Scala integer literal: an `Int` where the value fits one, a `Long`
/// where it fits that, and a `BigInt` otherwise, so that the matching
/// overload of `fromInteger` is called.
pub open spec fn scala_int_literal_text(n: int) -> Seq<char> {
    if -0x8000_0000 <= n < 0x8000_0000 {
        decimal_int(n)
    } else if -0x8000_0000_0000_0000 <= n < 0x8000_0000_0000_0000 {
        decimal_int(n) + "L"@
    } else {
        "scala.math.BigInt(\""@ + decimal_int(n) + "\")"@
    }
}

/// The Scala text of an expression.
pub open spec fn scala_expr_text(o: ScalaOptions, e: LangExprV) -> Result<Seq<char>, GeneratorErrorV>
    decreases e, 0nat,
{
    match e {
        LangExprV::Identifier(n) => Ok(n),
        LangExprV::IntegerLiteral(n) => Ok(scala_int_literal_text(n)),
        LangExprV::StringLiteral(s) => Ok("\""@ + escaped(s) + "\""@),
        LangExprV::InvokeConverter(c, v) => match scala_expr_text(o, *c) {
            Err(e) => Err(e),
            Ok(a) => match scala_expr_text(o, *v) {
                Err(e) => Err(e),
                Ok(b) => Ok(a + ".convert("@ + b + ")"@),
            },
        },
        LangExprV::IdentityConverter(t) => match scala_type_text(o, t) {
            Err(e) => Err(e),
            Ok(a) => Ok(scala_runtime_package() + ".Converter.identity["@ + a + "]"@),
        },
        LangExprV::ReadDiscriminator => Ok(scala_runtime_package() + ".StandardCodecs.natCodec.read(reader)"@),
        LangExprV::WriteDiscriminator(n) => Ok(scala_runtime_package() + ".StandardCodecs.natCodec.write(writer, "@
            + decimal_text(n) + ")"@),
        LangExprV::CodecRead(c) => match scala_expr_text(o, *c) {
            Err(e) => Err(e),
            Ok(a) => Ok(a + ".read(reader)"@),
        },
        LangExprV::CodecWrite(c, v) => match scala_expr_text(o, *c) {
            Err(e) => Err(e),
            Ok(a) => match scala_expr_text(o, *v) {
                Err(e) => Err(e),
                Ok(b) => Ok(a + ".write(writer, "@ + b + ")"@),
            },
        },
        LangExprV::InvokeOperation(op, target, targs, args) => {
            let t = match target {
                OperationTargetV::VersionedType(n, v) => match scala_qual_name_text(o, n) {
                    Err(e) => Err(e),
                    Ok(q) => Ok(q + ".V"@ + decimal_text(v) + "."@),
                },
                OperationTargetV::ExternType(n) => match scala_qual_name_text(o, n) {
                    Err(e) => Err(e),
                    Ok(q) => Ok(q + "."@),
                },
            };
            match t {
                Err(e) => Err(e),
                Ok(a) => match scala_type_args_text(o, targs) {
                    Err(e) => Err(e),
                    Ok(b) => match scala_args_text(o, args) {
                        Err(e) => Err(e),
                        Ok(c) => Ok(a + operation_name_text(op) + b + c),
                    },
                },
            }
        },
        LangExprV::InvokeUserConverter(n, prev, v, targs, args) => match scala_qual_name_text(o, n) {
            Err(e) => Err(e),
            Ok(q) => match scala_type_args_text(o, targs) {
                Err(e) => Err(e),
                Ok(b) => match scala_args_text(o, args) {
                    Err(e) => Err(e),
                    Ok(c) => Ok(q + "_Conversions."@ + "v"@ + decimal_text(prev) + "ToV"@ + decimal_text(v) + b + c),
                },
            },
        },
        LangExprV::ConstantValue(n, v) => match scala_qual_name_text(o, n) {
            Err(e) => Err(e),
            Ok(q) => Ok(q + "."@ + "v"@ + decimal_text(v)),
        },
        LangExprV::CreateStruct(n, v, targs, fields) => match scala_qual_name_text(o, n) {
            Err(e) => Err(e),
            Ok(q) => match scala_type_args_text(o, targs) {
                Err(e) => Err(e),
                Ok(b) => match scala_field_values_joined(o, fields, fields.len()) {
                    Err(e) => Err(e),
                    Ok(c) => Ok("new "@ + q + ".V"@ + decimal_text(v) + b + "("@ + c + ")"@),
                },
            },
        },
        LangExprV::CreateEnum(n, v, targs, case, value) => match scala_qual_name_text(o, n) {
            Err(e) => Err(e),
            Ok(q) => match scala_type_args_text(o, targs) {
                Err(e) => Err(e),
                Ok(b) => match scala_expr_text(o, *value) {
                    Err(e) => Err(e),
                    Ok(c) => Ok("new "@ + q + ".V"@ + decimal_text(v) + "."@ + capitalized(case) + b + "("@ + c + ")"@),
                },
            },
        },
        LangExprV::StructField(_, _, field, value) => match scala_expr_text(o, *value) {
            Err(e) => Err(e),
            Ok(a) => Ok(a + "."@ + uncapitalized(field)),
        },
    }
}

/// Arguments in parentheses, or nothing when there are none.
pub open spec fn scala_args_text(o: ScalaOptions, es: Seq<LangExprV>) -> Result<Seq<char>, GeneratorErrorV>
    decreases es, es.len() + 1,
{
    if es.len() == 0 {
        Ok(Seq::empty())
    } else {
        match scala_exprs_joined(o, es, es.len()) {
            Err(e) => Err(e),
            Ok(j) => Ok("("@ + j + ")"@),
        }
    }
}

/// The expressions `es[..n]`, separated by commas.
pub open spec fn scala_exprs_joined(o: ScalaOptions, es: Seq<LangExprV>, n: nat) -> Result<Seq<char>, GeneratorErrorV>
    decreases es, n,
{
    if n == 0 || n > es.len() {
        Ok(Seq::empty())
    } else if n == 1 {
        scala_expr_text(o, es[0])
    } else {
        match scala_exprs_joined(o, es, (n - 1) as nat) {
            Err(e) => Err(e),
            Ok(p) => match scala_expr_text(o, es[n - 1]) {
                Err(e) => Err(e),
                Ok(x) => Ok(p + ", "@ + x),
            },
        }
    }
}

/// The values of the fields `fs[..n]`, separated by commas.
pub open spec fn scala_field_values_joined(o: ScalaOptions, fs: Seq<(Seq<char>, LangExprV)>, n: nat) -> Result<Seq<char>, GeneratorErrorV>
    decreases fs, n,
{
    if n == 0 || n > fs.len() {
        Ok(Seq::empty())
    } else if n == 1 {
        scala_expr_text(o, fs[0].1)
    } else {
        match scala_field_values_joined(o, fs, (n - 1) as nat) {
            Err(e) => Err(e),
            Ok(p) => match scala_expr_text(o, fs[n - 1].1) {
                Err(e) => Err(e),
                Ok(x) => Ok(p + ", "@ + x),
            },
        }
    }
}

/// Writes a Scala integer literal.
fn scala_write_int_literal(out: &mut String, n: &BigInt)
    ensures
        final(out)@ == old(out)@ + scala_int_literal_text(n@),
{
    let negative = match n.sign() {
        Sign::Minus => true,
        _ => false,
    };
    let m = n.magnitude().to_u64();
    let fits_int = match m {
        Some(x) => if negative { x <= 0x8000_0000 } else { x < 0x8000_0000 },
        None => false,
    };
    let fits_long = match m {
        Some(x) => if negative { x <= 0x8000_0000_0000_0000 } else { x < 0x8000_0000_0000_0000 },
        None => false,
    };
    if fits_int {
        write_decimal_int(out, n);
    } else if fits_long {
        write_decimal_int(out, n);
        append_str(out, "L");
    } else {
        append_str(out, "scala.math.BigInt(\"");
        write_decimal_int(out, n);
        append_str(out, "\")");
    }
    assert(final(out)@ =~= old(out)@ + scala_int_literal_text(n@));
}

/// Once the expressions before `k` fail, so do those before any later `n`.
proof fn lemma_scala_exprs_err(o: ScalaOptions, es: Seq<LangExprV>, k: nat, n: nat)
    requires
        1 <= k <= n <= es.len(),
        scala_exprs_joined(o, es, k) is Err,
    ensures
        scala_exprs_joined(o, es, n) == scala_exprs_joined(o, es, k),
    decreases n,
{
    if n > k {
        lemma_scala_exprs_err(o, es, k, (n - 1) as nat);
    }
}

/// Once the values before `k` fail, so do those before any later `n`.
proof fn lemma_scala_fields_err(o: ScalaOptions, fs: Seq<(Seq<char>, LangExprV)>, k: nat, n: nat)
    requires
        1 <= k <= n <= fs.len(),
        scala_field_values_joined(o, fs, k) is Err,
    ensures
        scala_field_values_joined(o, fs, n) == scala_field_values_joined(o, fs, k),
    decreases n,
{
    if n > k {
        lemma_scala_fields_err(o, fs, k, (n - 1) as nat);
    }
}

/// Writes arguments in parentheses, or nothing when there are none.
pub fn scala_write_args(o: &ScalaOptions, out: &mut String, es: &Vec<LangExpr>) -> (r: Result<(), GeneratorError>)
    ensures
        wrote(r, old(out)@, final(out)@, scala_args_text(*o, lang_exprs_view(es@))),
    decreases es, 0nat,
{
    proof {
        lemma_lang_exprs_view(es@);
    }
    let ghost ev = lang_exprs_view(es@);
    if es.len() == 0 {
        assert(out@ =~= old(out)@ + Seq::<char>::empty());
        return Ok(());
    }
    let ghost before = out@;
    append_str(out, "(");
    let ghost start = out@;
    let mut i: usize = 0;
    while i < es.len()
        invariant
            i <= es@.len(),
            ev == lang_exprs_view(es@),
            ev.len() == es@.len(),
            forall|j: int| 0 <= j < es@.len() ==> #[trigger] ev[j] == lang_expr_view(es@[j]),
            scala_exprs_joined(*o, ev, i as nat) is Ok,
            out@ == start + ok_text(scala_exprs_joined(*o, ev, i as nat)),
        decreases es@.len() - i,
    {
        if i > 0 {
            append_str(out, ", ");
        }
        match scala_write_expr(o, out, &es[i]) {
            Ok(()) => {},
            Err(e) => {
                proof {
                    lemma_scala_exprs_err(*o, ev, (i + 1) as nat, ev.len());
                }
                return Err(e);
            },
        }
        if i == 0 {
            assert(out@ =~= start + ok_text(scala_exprs_joined(*o, ev, 1)));
        } else {
            assert(out@ =~= start + ok_text(scala_exprs_joined(*o, ev, (i + 1) as nat)));
        }
        i = i + 1;
    }
    append_str(out, ")");
    assert(out@ =~= before + ("("@ + ok_text(scala_exprs_joined(*o, ev, ev.len())) + ")"@));
    Ok(())
}

/// Writes the values of the fields of a struct being created, separated by
/// commas.
fn scala_write_field_values(o: &ScalaOptions, out: &mut String, fs: &Vec<(&String, LangExpr)>) -> (r: Result<(), GeneratorError>)
    ensures
        wrote(r, old(out)@, final(out)@, scala_field_values_joined(*o, named_exprs_view(fs@), fs@.len())),
    decreases fs, 0nat,
{
    proof {
        lemma_named_exprs_view(fs@);
    }
    let ghost fv = named_exprs_view(fs@);
    let ghost start = out@;
    assert(out@ =~= start + ok_text(scala_field_values_joined(*o, fv, 0)));
    let mut i: usize = 0;
    while i < fs.len()
        invariant
            i <= fs@.len(),
            fv == named_exprs_view(fs@),
            fv.len() == fs@.len(),
            forall|j: int| 0 <= j < fs@.len() ==> #[trigger] fv[j] == (fs@[j].0@, lang_expr_view(fs@[j].1)),
            scala_field_values_joined(*o, fv, i as nat) is Ok,
            out@ == start + ok_text(scala_field_values_joined(*o, fv, i as nat)),
        decreases fs@.len() - i,
    {
        if i > 0 {
            append_str(out, ", ");
        }
        match scala_write_expr(o, out, &fs[i].1) {
            Ok(()) => {},
            Err(e) => {
                proof {
                    lemma_scala_fields_err(*o, fv, (i + 1) as nat, fv.len());
                }
                return Err(e);
            },
        }
        if i == 0 {
            assert(out@ =~= start + ok_text(scala_field_values_joined(*o, fv, 1)));
        } else {
            assert(out@ =~= start + ok_text(scala_field_values_joined(*o, fv, (i + 1) as nat)));
        }
        i = i + 1;
    }
    Ok(())
}

/// Writes the Scala text of an expression.
pub fn scala_write_expr(o: &ScalaOptions, out: &mut String, e: &LangExpr) -> (r: Result<(), GeneratorError>)
    ensures
        wrote(r, old(out)@, final(out)@, scala_expr_text(*o, e@)),
    decreases e, 1nat,
{
    let ghost before = out@;
    match e {
        LangExpr::Identifier(n) => {
            append_str(out, n.as_str());
            Ok(())
        },
        LangExpr::IntegerLiteral(n) => {
            scala_write_int_literal(out, n);
            Ok(())
        },
        LangExpr::StringLiteral(s) => {
            append_str(out, "\"");
            write_escaped(out, s.as_str());
            append_str(out, "\"");
            assert(out@ =~= before + ("\""@ + escaped(s@) + "\""@));
            Ok(())
        },
        LangExpr::InvokeConverter{..} => write_invoke_converter(o, out, e),
        LangExpr::CodecRead{..} => write_codec_read(o, out, e),
        LangExpr::CodecWrite{..} => write_codec_write(o, out, e),
        LangExpr::StructField{..} => write_struct_field(o, out, e),
        LangExpr::IdentityConverter{..} => write_identity_converter(o, out, e),
        LangExpr::ReadDiscriminator{..} => write_read_discriminator(o, out, e),
        LangExpr::WriteDiscriminator{..} => write_write_discriminator(o, out, e),
        LangExpr::InvokeOperation{..} => write_invoke_operation(o, out, e),
        LangExpr::InvokeUserConverter{..} => write_invoke_user_converter(o, out, e),
        LangExpr::ConstantValue{..} => write_constant_value(o, out, e),
        LangExpr::CreateStruct{..} => write_create_struct(o, out, e),
        LangExpr::CreateEnum{..} => write_create_enum(o, out, e),
    }
}

/// Writes an expression of the `InvokeConverter` form.
fn write_invoke_converter(o: &ScalaOptions, out: &mut String, e: &LangExpr) -> (r: Result<(), GeneratorError>)
    requires
        e is InvokeConverter,
    ensures
        wrote(r, old(out)@, final(out)@, scala_expr_text(*o, e@)),
    decreases e, 0nat,
{
    broadcast use lemma_add_assoc;
    let ghost before = out@;
    match e {
        LangExpr::InvokeConverter { converter, value } => {
            match scala_write_expr(o, out, &**converter) {
                Ok(()) => {},
                Err(x) => return Err(x),
            }
            append_str(out, ".convert(");
            match scala_write_expr(o, out, &**value) {
                Ok(()) => {},
                Err(x) => return Err(x),
            }
            append_str(out, ")");
            assert(out@ =~= before + (ok_text(scala_expr_text(*o, (**converter)@)) + ".convert("@ + ok_text(scala_expr_text(*o, (**value)@)) + ")"@));
            Ok(())
        },
        _ => {
            proof {
                assert(false);
            }
            Ok(())
        },
    }
}

/// Writes an expression of the `CodecRead` form.
fn write_codec_read(o: &ScalaOptions, out: &mut String, e: &LangExpr) -> (r: Result<(), GeneratorError>)
    requires
        e is CodecRead,
    ensures
        wrote(r, old(out)@, final(out)@, scala_expr_text(*o, e@)),
    decreases e, 0nat,
{
    broadcast use lemma_add_assoc;
    let ghost before = out@;
    match e {
        LangExpr::CodecRead { codec } => {
            match scala_write_expr(o, out, &**codec) {
                Ok(()) => {},
                Err(x) => return Err(x),
            }
            append_str(out, ".read(reader)");
            Ok(())
        },
        _ => {
            proof {
                assert(false);
            }
            Ok(())
        },
    }
}

/// Writes an expression of the `CodecWrite` form.
fn write_codec_write(o: &ScalaOptions, out: &mut String, e: &LangExpr) -> (r: Result<(), GeneratorError>)
    requires
        e is CodecWrite,
    ensures
        wrote(r, old(out)@, final(out)@, scala_expr_text(*o, e@)),
    decreases e, 0nat,
{
    broadcast use lemma_add_assoc;
    let ghost before = out@;
    match e {
        LangExpr::CodecWrite { codec, value } => {
            match scala_write_expr(o, out, &**codec) {
                Ok(()) => {},
                Err(x) => return Err(x),
            }
            append_str(out, ".write(writer, ");
            match scala_write_expr(o, out, &**value) {
                Ok(()) => {},
                Err(x) => return Err(x),
            }
            append_str(out, ")");
            assert(out@ =~= before + (ok_text(scala_expr_text(*o, (**codec)@)) + ".write(writer, "@ + ok_text(scala_expr_text(*o, (**value)@)) + ")"@));
            Ok(())
        },
        _ => {
            proof {
                assert(false);
            }
            Ok(())
        },
    }
}

/// Writes an expression of the `StructField` form.
fn write_struct_field(o: &ScalaOptions, out: &mut String, e: &LangExpr) -> (r: Result<(), GeneratorError>)
    requires
        e is StructField,
    ensures
        wrote(r, old(out)@, final(out)@, scala_expr_text(*o, e@)),
    decreases e, 0nat,
{
    broadcast use lemma_add_assoc;
    let ghost before = out@;
    match e {
        LangExpr::StructField(_, _, field, value) => {
            match scala_write_expr(o, out, &**value) {
                Ok(()) => {},
                Err(x) => return Err(x),
            }
            append_str(out, ".");
            let f = make_field_name(field.as_str());
            append_str(out, f.as_str());
            assert(out@ =~= before + (ok_text(scala_expr_text(*o, (**value)@)) + "."@ + uncapitalized(field@)));
            Ok(())
        },

        _ => {
            proof {
                assert(false);
            }
            Ok(())
        },
    }
}

/// Writes an expression of the `IdentityConverter` form.
fn write_identity_converter(o: &ScalaOptions, out: &mut String, e: &LangExpr) -> (r: Result<(), GeneratorError>)
    requires
        e is IdentityConverter,
    ensures
        wrote(r, old(out)@, final(out)@, scala_expr_text(*o, e@)),
    decreases e, 0nat,
{
    broadcast use lemma_add_assoc;
    let ghost before = out@;
    match e {
        LangExpr::IdentityConverter(t) => {
            append_str(out, scala_runtime_package_name());
            append_str(out, ".Converter.identity[");
            match scala_write_type(o, out, t) {
                Ok(()) => {},
                Err(x) => return Err(x),
            }
            append_str(out, "]");
            assert(out@ =~= before + (scala_runtime_package() + ".Converter.identity["@ + ok_text(scala_type_text(*o, t@)) + "]"@));
            Ok(())
        },
        _ => {
            proof {
                assert(false);
            }
            Ok(())
        },
    }
}

/// Writes an expression of the `ReadDiscriminator` form.
fn write_read_discriminator(o: &ScalaOptions, out: &mut String, e: &LangExpr) -> (r: Result<(), GeneratorError>)
    requires
        e is ReadDiscriminator,
    ensures
        wrote(r, old(out)@, final(out)@, scala_expr_text(*o, e@)),
    decreases e, 0nat,
{
    broadcast use lemma_add_assoc;
    let ghost before = out@;
    match e {
        LangExpr::ReadDiscriminator => {
            append_str(out, scala_runtime_package_name());
            append_str(out, ".StandardCodecs.natCodec.read(reader)");
            Ok(())
        },
        _ => {
            proof {
                assert(false);
            }
            Ok(())
        },
    }
}

/// Writes an expression of the `WriteDiscriminator` form.
fn write_write_discriminator(o: &ScalaOptions, out: &mut String, e: &LangExpr) -> (r: Result<(), GeneratorError>)
    requires
        e is WriteDiscriminator,
    ensures
        wrote(r, old(out)@, final(out)@, scala_expr_text(*o, e@)),
    decreases e, 0nat,
{
    broadcast use lemma_add_assoc;
    let ghost before = out@;
    match e {
        LangExpr::WriteDiscriminator(n) => {
            append_str(out, scala_runtime_package_name());
            append_str(out, ".StandardCodecs.natCodec.write(writer, ");
            let d = n.to_decimal();
            append_str(out, d.as_str());
            append_str(out, ")");
            assert(out@ =~= before + (scala_runtime_package() + ".StandardCodecs.natCodec.write(writer, "@
                + decimal_text(n@) + ")"@));
            Ok(())
        },
        _ => {
            proof {
                assert(false);
            }
            Ok(())
        },
    }
}

/// Writes an expression of the `InvokeOperation` form.
fn write_invoke_operation(o: &ScalaOptions, out: &mut String, e: &LangExpr) -> (r: Result<(), GeneratorError>)
    requires
        e is InvokeOperation,
    ensures
        wrote(r, old(out)@, final(out)@, scala_expr_text(*o, e@)),
    decreases e, 0nat,
{
    broadcast use lemma_add_assoc;
    let ghost before = out@;
    match e {
        LangExpr::InvokeOperation(op, target, targs, args) => {
            let ghost tgt: Seq<char>;
            match target {
                OperationTarget::VersionedType(n, v) => {
                    match scala_write_qual_name(o, out, n) {
                        Ok(()) => {},
                        Err(x) => return Err(x),
                    }
                    append_str(out, ".V");
                    let d = v.to_decimal();
                    append_str(out, d.as_str());
                    append_str(out, ".");
                    proof {
                        tgt = ok_text(scala_qual_name_text(*o, n@)) + ".V"@ + decimal_text(v@) + "."@;
                    }
                    assert(out@ =~= before + tgt);
                },
                OperationTarget::ExternType(n) => {
                    match scala_write_qual_name(o, out, n) {
                        Ok(()) => {},
                        Err(x) => return Err(x),
                    }
                    append_str(out, ".");
                    proof {
                        tgt = ok_text(scala_qual_name_text(*o, n@)) + "."@;
                    }
                    assert(out@ =~= before + tgt);
                },
            }
            write_operation_name(out, op);
            match scala_write_type_args(o, out, targs) {
                Ok(()) => {},
                Err(x) => return Err(x),
            }
            match scala_write_args(o, out, args) {
                Ok(()) => {},
                Err(x) => return Err(x),
            }
            assert(out@ =~= before + (tgt + operation_name_text(op@) + ok_text(scala_type_args_text(*o, lang_types_view(targs@)))
                + ok_text(scala_args_text(*o, lang_exprs_view(args@)))));
            Ok(())
        },
        _ => {
            proof {
                assert(false);
            }
            Ok(())
        },
    }
}

/// Writes an expression of the `InvokeUserConverter` form.
fn write_invoke_user_converter(o: &ScalaOptions, out: &mut String, e: &LangExpr) -> (r: Result<(), GeneratorError>)
    requires
        e is InvokeUserConverter,
    ensures
        wrote(r, old(out)@, final(out)@, scala_expr_text(*o, e@)),
    decreases e, 0nat,
{
    broadcast use lemma_add_assoc;
    let ghost before = out@;
    match e {
        LangExpr::InvokeUserConverter { name, prev_ver, version, type_args, args } => {
            match scala_write_qual_name(o, out, name) {
                Ok(()) => {},
                Err(x) => return Err(x),
            }
            append_str(out, "_Conversions.");
            append_str(out, "v");
            let d1 = prev_ver.to_decimal();
            append_str(out, d1.as_str());
            append_str(out, "ToV");
            let d2 = version.to_decimal();
            append_str(out, d2.as_str());
            match scala_write_type_args(o, out, type_args) {
                Ok(()) => {},
                Err(x) => return Err(x),
            }
            match scala_write_args(o, out, args) {
                Ok(()) => {},
                Err(x) => return Err(x),
            }
            assert(out@ =~= before + (ok_text(scala_qual_name_text(*o, name@)) + "_Conversions."@
                + "v"@ + decimal_text(prev_ver@) + "ToV"@ + decimal_text(version@) + ok_text(scala_type_args_text(*o, lang_types_view(type_args@)))
                + ok_text(scala_args_text(*o, lang_exprs_view(args@)))));
            Ok(())
        },
        _ => {
            proof {
                assert(false);
            }
            Ok(())
        },
    }
}

/// Writes an expression of the `ConstantValue` form.
fn write_constant_value(o: &ScalaOptions, out: &mut String, e: &LangExpr) -> (r: Result<(), GeneratorError>)
    requires
        e is ConstantValue,
    ensures
        wrote(r, old(out)@, final(out)@, scala_expr_text(*o, e@)),
    decreases e, 0nat,
{
    broadcast use lemma_add_assoc;
    let ghost before = out@;
    match e {
        LangExpr::ConstantValue(n, v) => {
            match scala_write_qual_name(o, out, n) {
                Ok(()) => {},
                Err(x) => return Err(x),
            }
            append_str(out, ".");
            let name = constant_version_name(v);
            append_str(out, name.as_str());
            assert(out@ =~= before + (ok_text(scala_qual_name_text(*o, n@)) + "."@ + ("v"@ + decimal_text(v@))));
            Ok(())
        },
        _ => {
            proof {
                assert(false);
            }
            Ok(())
        },
    }
}

/// Writes an expression of the `CreateStruct` form.
fn write_create_struct(o: &ScalaOptions, out: &mut String, e: &LangExpr) -> (r: Result<(), GeneratorError>)
    requires
        e is CreateStruct,
    ensures
        wrote(r, old(out)@, final(out)@, scala_expr_text(*o, e@)),
    decreases e, 0nat,
{
    broadcast use lemma_add_assoc;
    let ghost before = out@;
    match e {
        LangExpr::CreateStruct(n, v, targs, fields) => {
            proof {
                lemma_named_exprs_view(fields@);
            }
            append_str(out, "new ");
            match scala_write_qual_name(o, out, n) {
                Ok(()) => {},
                Err(x) => return Err(x),
            }
            append_str(out, ".V");
            let d = v.to_decimal();
            append_str(out, d.as_str());
            match scala_write_type_args(o, out, targs) {
                Ok(()) => {},
                Err(x) => return Err(x),
            }
            append_str(out, "(");
            match scala_write_field_values(o, out, fields) {
                Ok(()) => {},
                Err(x) => return Err(x),
            }
            append_str(out, ")");
            assert(out@ =~= before + ("new "@ + ok_text(scala_qual_name_text(*o, n@)) + ".V"@ + decimal_text(v@)
                + ok_text(scala_type_args_text(*o, lang_types_view(targs@))) + "("@
                + ok_text(scala_field_values_joined(*o, named_exprs_view(fields@), named_exprs_view(fields@).len())) + ")"@));
            Ok(())
        },
        _ => {
            proof {
                assert(false);
            }
            Ok(())
        },
    }
}

/// Writes an expression of the `CreateEnum` form.
fn write_create_enum(o: &ScalaOptions, out: &mut String, e: &LangExpr) -> (r: Result<(), GeneratorError>)
    requires
        e is CreateEnum,
    ensures
        wrote(r, old(out)@, final(out)@, scala_expr_text(*o, e@)),
    decreases e, 0nat,
{
    broadcast use lemma_add_assoc;
    let ghost before = out@;
    match e {
        LangExpr::CreateEnum(n, v, targs, case, value) => {
            append_str(out, "new ");
            match scala_write_qual_name(o, out, n) {
                Ok(()) => {},
                Err(x) => return Err(x),
            }
            append_str(out, ".V");
            let d = v.to_decimal();
            append_str(out, d.as_str());
            append_str(out, ".");
            let cn = make_type_name(case.as_str());
            append_str(out, cn.as_str());
            match scala_write_type_args(o, out, targs) {
                Ok(()) => {},
                Err(x) => return Err(x),
            }
            append_str(out, "(");
            match scala_write_expr(o, out, &**value) {
                Ok(()) => {},
                Err(x) => return Err(x),
            }
            append_str(out, ")");
            assert(out@ =~= before + ("new "@ + ok_text(scala_qual_name_text(*o, n@)) + ".V"@ + decimal_text(v@) + "."@ + capitalized(case@)
                + ok_text(scala_type_args_text(*o, lang_types_view(targs@))) + "("@ + ok_text(scala_expr_text(*o, (**value)@)) + ")"@));
            Ok(())
        },
        _ => {
            proof {
                assert(false);
            }
            Ok(())
        },
    }
}


/// The name given to the `k`th effect taken out of an expression.
pub open spec fn io_name(k: nat) -> Seq<char> {
    "value"@ + decimal_text(k)
}

/// The name given to the `k`th effect taken out of an expression.
fn io_name_exec(k: usize) -> (r: String)
    ensures
        r@ == io_name(k as nat),
{
    let mut s = "value".to_owned();
    let d = BigNat::from_u64(k as u64).to_decimal();
    append_str(&mut s, d.as_str());
    proof {
        reveal_strlit("value");
    }
    s
}

/// An expression whose reads and writes are taken out, as `zio` effects to
/// be run first: the text of the expression with each effect in its place
/// replaced by the name it is bound to, and the texts of the effects taken
/// out, in the order they run. The effects before it number `k`, so the
/// first one taken out here is named `io_name(k)`. A read or write of a
/// discriminator and a codec's read or write are effects (after the effects
/// within them); the other expressions keep their form around their parts.
pub open spec fn io_gather(o: ScalaOptions, e: LangExprV, k: nat) -> Result<(Seq<char>, Seq<Seq<char>>), GeneratorErrorV>
    decreases e, 0nat,
{
    match e {
        LangExprV::ReadDiscriminator => match scala_expr_text(o, e) {
            Err(x) => Err(x),
            Ok(t) => Ok((io_name(k), seq![t])),
        },
        LangExprV::WriteDiscriminator(_) => match scala_expr_text(o, e) {
            Err(x) => Err(x),
            Ok(t) => Ok((io_name(k), seq![t])),
        },
        LangExprV::CodecRead(c) => match io_gather(o, *c, k) {
            Err(x) => Err(x),
            Ok((ct, ops)) => Ok((io_name(k + ops.len()), ops.push(ct + ".read(reader)"@))),
        },
        LangExprV::CodecWrite(c, v) => match io_gather(o, *c, k) {
            Err(x) => Err(x),
            Ok((ct, ops1)) => match io_gather(o, *v, k + ops1.len()) {
                Err(x) => Err(x),
                Ok((vt, ops2)) => Ok((io_name(k + ops1.len() + ops2.len()), (ops1 + ops2).push(ct + ".write(writer, "@ + vt + ")"@))),
            },
        },
        LangExprV::InvokeConverter(c, v) => match io_gather(o, *c, k) {
            Err(x) => Err(x),
            Ok((ct, ops1)) => match io_gather(o, *v, k + ops1.len()) {
                Err(x) => Err(x),
                Ok((vt, ops2)) => Ok((ct + ".convert("@ + vt + ")"@, ops1 + ops2)),
            },
        },
        LangExprV::InvokeOperation(op, target, targs, args) => {
            let t = match target {
                OperationTargetV::VersionedType(n, v) => match scala_qual_name_text(o, n) {
                    Err(e) => Err(e),
                    Ok(q) => Ok(q + ".V"@ + decimal_text(v) + "."@),
                },
                OperationTargetV::ExternType(n) => match scala_qual_name_text(o, n) {
                    Err(e) => Err(e),
                    Ok(q) => Ok(q + "."@),
                },
            };
            match t {
                Err(x) => Err(x),
                Ok(a) => match scala_type_args_text(o, targs) {
                    Err(x) => Err(x),
                    Ok(b) => match io_args(o, args, k) {
                        Err(x) => Err(x),
                        Ok((c, ops)) => Ok((a + operation_name_text(op) + b + c, ops)),
                    },
                },
            }
        },
        LangExprV::InvokeUserConverter(n, prev, v, targs, args) => match scala_qual_name_text(o, n) {
            Err(x) => Err(x),
            Ok(q) => match scala_type_args_text(o, targs) {
                Err(x) => Err(x),
                Ok(b) => match io_args(o, args, k) {
                    Err(x) => Err(x),
                    Ok((c, ops)) => Ok((q + "_Conversions."@ + "v"@ + decimal_text(prev) + "ToV"@ + decimal_text(v) + b + c, ops)),
                },
            },
        },
        LangExprV::CreateStruct(n, v, targs, fields) => match scala_qual_name_text(o, n) {
            Err(x) => Err(x),
            Ok(q) => match scala_type_args_text(o, targs) {
                Err(x) => Err(x),
                Ok(b) => match io_fields(o, fields, fields.len(), k) {
                    Err(x) => Err(x),
                    Ok((c, ops)) => Ok(("new "@ + q + ".V"@ + decimal_text(v) + b + "("@ + c + ")"@, ops)),
                },
            },
        },
        LangExprV::CreateEnum(n, v, targs, case, value) => match scala_qual_name_text(o, n) {
            Err(x) => Err(x),
            Ok(q) => match scala_type_args_text(o, targs) {
                Err(x) => Err(x),
                Ok(b) => match io_gather(o, *value, k) {
                    Err(x) => Err(x),
                    Ok((c, ops)) => Ok(("new "@ + q + ".V"@ + decimal_text(v) + "."@ + capitalized(case) + b + "("@ + c + ")"@, ops)),
                },
            },
        },
        LangExprV::StructField(_, _, field, value) => match io_gather(o, *value, k) {
            Err(x) => Err(x),
            Ok((a, ops)) => Ok((a + "."@ + uncapitalized(field), ops)),
        },
        _ => match scala_expr_text(o, e) {
            Err(x) => Err(x),
            Ok(t) => Ok((t, Seq::empty())),
        },
    }
}

/// Arguments with their effects taken out, in parentheses, or nothing when
/// there are none.
pub open spec fn io_args(o: ScalaOptions, es: Seq<LangExprV>, k: nat) -> Result<(Seq<char>, Seq<Seq<char>>), GeneratorErrorV>
    decreases es, es.len() + 1,
{
    if es.len() == 0 {
        Ok((Seq::empty(), Seq::empty()))
    } else {
        match io_list(o, es, es.len(), k) {
            Err(x) => Err(x),
            Ok((j, ops)) => Ok(("("@ + j + ")"@, ops)),
        }
    }
}

/// The expressions `es[..n]` with their effects taken out, separated by
/// commas, and the effects.
pub open spec fn io_list(o: ScalaOptions, es: Seq<LangExprV>, n: nat, k: nat) -> Result<(Seq<char>, Seq<Seq<char>>), GeneratorErrorV>
    decreases es, n,
{
    if n == 0 || n > es.len() {
        Ok((Seq::empty(), Seq::empty()))
    } else {
        match io_list(o, es, (n - 1) as nat, k) {
            Err(x) => Err(x),
            Ok((p, ops1)) => match io_gather(o, es[n - 1], k + ops1.len()) {
                Err(x) => Err(x),
                Ok((t, ops2)) => Ok((if n == 1 { t } else { p + ", "@ + t }, ops1 + ops2)),
            },
        }
    }
}

/// The values of the fields `fs[..n]` with their effects taken out,
/// separated by commas, and the effects.
pub open spec fn io_fields(o: ScalaOptions, fs: Seq<(Seq<char>, LangExprV)>, n: nat, k: nat) -> Result<(Seq<char>, Seq<Seq<char>>), GeneratorErrorV>
    decreases fs, n,
{
    if n == 0 || n > fs.len() {
        Ok((Seq::empty(), Seq::empty()))
    } else {
        match io_fields(o, fs, (n - 1) as nat, k) {
            Err(x) => Err(x),
            Ok((p, ops1)) => match io_gather(o, fs[n - 1].1, k + ops1.len()) {
                Err(x) => Err(x),
                Ok((t, ops2)) => Ok((if n == 1 { t } else { p + ", "@ + t }, ops1 + ops2)),
            },
        }
    }
}

/// Once the list before `k` fails, so does the list before any later `n`.
proof fn lemma_io_list_err(o: ScalaOptions, es: Seq<LangExprV>, k: nat, n: nat, start: nat)
    requires
        1 <= k <= n <= es.len(),
        io_list(o, es, k, start) is Err,
    ensures
        io_list(o, es, n, start) == io_list(o, es, k, start),
    decreases n,
{
    if n > k {
        lemma_io_list_err(o, es, k, (n - 1) as nat, start);
    }
}

/// Once the fields before `k` fail, so do the fields before any later `n`.
proof fn lemma_io_fields_err(o: ScalaOptions, fs: Seq<(Seq<char>, LangExprV)>, k: nat, n: nat, start: nat)
    requires
        1 <= k <= n <= fs.len(),
        io_fields(o, fs, k, start) is Err,
    ensures
        io_fields(o, fs, n, start) == io_fields(o, fs, k, start),
    decreases n,
{
    if n > k {
        lemma_io_fields_err(o, fs, k, (n - 1) as nat, start);
    }
}

/// Whether an exec result matches a gathered expression: the text, and the
/// effects added to those before.
pub open spec fn gathered(
    r: Result<String, GeneratorError>,
    before: Seq<String>,
    after: Seq<String>,
    expected: Result<(Seq<char>, Seq<Seq<char>>), GeneratorErrorV>,
) -> bool {
    match expected {
        Ok((t, new)) => r matches Ok(s) && s@ == t && strings_view(after) == strings_view(before) + new,
        Err(x) => r matches Err(y) && y@ == x,
    }
}

/// The text of an expression, written on its own.
fn expr_string(o: &ScalaOptions, e: &LangExpr) -> (r: Result<String, GeneratorError>)
    ensures
        match scala_expr_text(*o, e@) {
            Ok(t) => r matches Ok(s) && s@ == t,
            Err(x) => r matches Err(y) && y@ == x,
        },
{
    let mut s = String::new();
    proof {
        assert(s@ == Seq::<char>::empty());
    }
    match scala_write_expr(o, &mut s, e) {
        Ok(()) => {
            assert(s@ =~= ok_text(scala_expr_text(*o, e@)));
            Ok(s)
        },
        Err(x) => Err(x),
    }
}

/// Takes the effects out of an expression: adds them to `ops` and gives the
/// text of what is left.
pub fn io_gather_exec(o: &ScalaOptions, e: &LangExpr, ops: &mut Vec<String>) -> (r: Result<String, GeneratorError>)
    ensures
        gathered(r, old(ops)@, final(ops)@, io_gather(*o, e@, old(ops)@.len())),
    decreases e, 1nat,
{
    broadcast use lemma_add_assoc;
    let ghost k = ops@.len();
    let ghost sv0 = strings_view(ops@);
    match e {
        LangExpr::ReadDiscriminator | LangExpr::WriteDiscriminator(_) => {
            let t = match expr_string(o, e) {
                Ok(t) => t,
                Err(x) => return Err(x),
            };
            let name = io_name_exec(ops.len());
            ops.push(t);
            assert(strings_view(ops@) =~= sv0 + seq![ok_text(scala_expr_text(*o, e@))]);
            Ok(name)
        },
        LangExpr::CodecRead { .. } => io_gather_codec_read(o, e, ops),
        LangExpr::CodecWrite { .. } => io_gather_codec_write(o, e, ops),
        LangExpr::InvokeConverter { .. } => io_gather_converter(o, e, ops),
        LangExpr::InvokeOperation(..) => io_gather_operation(o, e, ops),
        LangExpr::InvokeUserConverter { .. } => io_gather_user_converter(o, e, ops),
        LangExpr::CreateStruct(..) => io_gather_struct(o, e, ops),
        LangExpr::CreateEnum(n, v, targs, case, value) => {
            let mut s = String::new();
            append_str(&mut s, "new ");
            match scala_write_qual_name(o, &mut s, n) {
                Ok(()) => {},
                Err(x) => return Err(x),
            }
            append_str(&mut s, ".V");
            let d = v.to_decimal();
            append_str(&mut s, d.as_str());
            append_str(&mut s, ".");
            let cn = make_type_name(case.as_str());
            append_str(&mut s, cn.as_str());
            match scala_write_type_args(o, &mut s, targs) {
                Ok(()) => {},
                Err(x) => return Err(x),
            }
            let c = match io_gather_exec(o, &**value, ops) {
                Ok(t) => t,
                Err(x) => return Err(x),
            };
            append_str(&mut s, "(");
            append_str(&mut s, c.as_str());
            append_str(&mut s, ")");
            assert(s@ =~= "new "@ + ok_text(scala_qual_name_text(*o, n@)) + ".V"@ + decimal_text(v@) + "."@ + capitalized(case@)
                + ok_text(scala_type_args_text(*o, lang_types_view(targs@))) + "("@ + c@ + ")"@);
            Ok(s)
        },
        LangExpr::StructField(_, _, field, value) => {
            let mut a = match io_gather_exec(o, &**value, ops) {
                Ok(t) => t,
                Err(x) => return Err(x),
            };
            append_str(&mut a, ".");
            let f = make_field_name(field.as_str());
            append_str(&mut a, f.as_str());
            Ok(a)
        },
        _ => {
            let t = match expr_string(o, e) {
                Ok(t) => t,
                Err(x) => return Err(x),
            };
            assert(strings_view(ops@) =~= sv0 + Seq::<Seq<char>>::empty());
            Ok(t)
        },
    }
}

/// Takes the effects out of arguments: adds them to `ops` and gives the
/// text of the arguments in parentheses (nothing when there are none).
fn io_args_exec(o: &ScalaOptions, es: &Vec<LangExpr>, ops: &mut Vec<String>) -> (r: Result<String, GeneratorError>)
    ensures
        gathered(r, old(ops)@, final(ops)@, io_args(*o, lang_exprs_view(es@), old(ops)@.len())),
    decreases es, 0nat,
{
    broadcast use lemma_add_assoc;
    proof {
        lemma_lang_exprs_view(es@);
    }
    let ghost ev = lang_exprs_view(es@);
    let ghost k = ops@.len();
    let ghost sv0 = strings_view(ops@);
    if es.len() == 0 {
        assert(strings_view(ops@) =~= sv0 + Seq::<Seq<char>>::empty());
        return Ok(String::new());
    }
    let mut s = String::new();
    assert(strings_view(ops@) =~= sv0 + Seq::<Seq<char>>::empty());
    let mut i: usize = 0;
    while i < es.len()
        invariant
            i <= es@.len(),
            ev == lang_exprs_view(es@),
            ev.len() == es@.len(),
            forall|j: int| 0 <= j < es@.len() ==> #[trigger] ev[j] == lang_expr_view(es@[j]),
            io_list(*o, ev, i as nat, k) is Ok,
            s@ == io_list(*o, ev, i as nat, k)->Ok_0.0,
            strings_view(ops@) == sv0 + io_list(*o, ev, i as nat, k)->Ok_0.1,
            k == old(ops)@.len(),
            sv0 == strings_view(old(ops)@),
        decreases es@.len() - i,
    {
        let ghost prev = io_list(*o, ev, i as nat, k)->Ok_0;
        let ghost sv1 = strings_view(ops@);
        assert(sv1.len() == k + prev.1.len());
        let t = match io_gather_exec(o, &es[i], ops) {
            Ok(t) => t,
            Err(x) => {
                proof {
                    lemma_io_list_err(*o, ev, (i + 1) as nat, ev.len(), k);
                }
                return Err(x);
            },
        };
        let ghost ops2 = strings_view(ops@).skip(sv1.len() as int);
        assert(strings_view(ops@) =~= sv1 + ops2);
        if i > 0 {
            append_str(&mut s, ", ");
        }
        append_str(&mut s, t.as_str());
        assert(strings_view(ops@) =~= sv0 + (prev.1 + ops2));
        i = i + 1;
    }
    let mut r = "(".to_owned();
    append_str(&mut r, s.as_str());
    append_str(&mut r, ")");
    proof {
        reveal_strlit("(");
    }
    Ok(r)
}

/// Takes the effects out of an operation's call.
fn io_gather_operation(o: &ScalaOptions, e: &LangExpr, ops: &mut Vec<String>) -> (r: Result<String, GeneratorError>)
    requires
        e is InvokeOperation,
    ensures
        gathered(r, old(ops)@, final(ops)@, io_gather(*o, e@, old(ops)@.len())),
    decreases e, 0nat,
{
    broadcast use lemma_add_assoc;
    match e {
        LangExpr::InvokeOperation(op, target, targs, args) => {
            let mut s = String::new();
            let ghost tgt: Seq<char>;
            match target {
                OperationTarget::VersionedType(n, v) => {
                    match scala_write_qual_name(o, &mut s, n) {
                        Ok(()) => {},
                        Err(x) => return Err(x),
                    }
                    append_str(&mut s, ".V");
                    let d = v.to_decimal();
                    append_str(&mut s, d.as_str());
                    append_str(&mut s, ".");
                    proof {
                        tgt = ok_text(scala_qual_name_text(*o, n@)) + ".V"@ + decimal_text(v@) + "."@;
                    }
                    assert(s@ =~= tgt);
                },
                OperationTarget::ExternType(n) => {
                    match scala_write_qual_name(o, &mut s, n) {
                        Ok(()) => {},
                        Err(x) => return Err(x),
                    }
                    append_str(&mut s, ".");
                    proof {
                        tgt = ok_text(scala_qual_name_text(*o, n@)) + "."@;
                    }
                    assert(s@ =~= tgt);
                },
            }
            write_operation_name(&mut s, op);
            match scala_write_type_args(o, &mut s, targs) {
                Ok(()) => {},
                Err(x) => return Err(x),
            }
            let c = match io_args_exec(o, args, ops) {
                Ok(c) => c,
                Err(x) => return Err(x),
            };
            append_str(&mut s, c.as_str());
            assert(s@ =~= tgt + operation_name_text(op@) + ok_text(scala_type_args_text(*o, lang_types_view(targs@))) + c@);
            Ok(s)
        },
        _ => {
            proof {
                assert(false);
            }
            Ok(String::new())
        },
    }
}

/// Takes the effects out of a call of a user's conversion.
fn io_gather_user_converter(o: &ScalaOptions, e: &LangExpr, ops: &mut Vec<String>) -> (r: Result<String, GeneratorError>)
    requires
        e is InvokeUserConverter,
    ensures
        gathered(r, old(ops)@, final(ops)@, io_gather(*o, e@, old(ops)@.len())),
    decreases e, 0nat,
{
    broadcast use lemma_add_assoc;
    match e {
        LangExpr::InvokeUserConverter { name, prev_ver, version, type_args, args } => {
            let mut s = String::new();
            match scala_write_qual_name(o, &mut s, name) {
                Ok(()) => {},
                Err(x) => return Err(x),
            }
            append_str(&mut s, "_Conversions.");
            append_str(&mut s, "v");
            let d1 = prev_ver.to_decimal();
            append_str(&mut s, d1.as_str());
            append_str(&mut s, "ToV");
            let d2 = version.to_decimal();
            append_str(&mut s, d2.as_str());
            match scala_write_type_args(o, &mut s, type_args) {
                Ok(()) => {},
                Err(x) => return Err(x),
            }
            let c = match io_args_exec(o, args, ops) {
                Ok(c) => c,
                Err(x) => return Err(x),
            };
            append_str(&mut s, c.as_str());
            assert(s@ =~= ok_text(scala_qual_name_text(*o, name@)) + "_Conversions."@ + "v"@ + decimal_text(prev_ver@) + "ToV"@
                + decimal_text(version@) + ok_text(scala_type_args_text(*o, lang_types_view(type_args@))) + c@);
            Ok(s)
        },
        _ => {
            proof {
                assert(false);
            }
            Ok(String::new())
        },
    }
}

/// Takes the effects out of the creation of a struct.
fn io_gather_struct(o: &ScalaOptions, e: &LangExpr, ops: &mut Vec<String>) -> (r: Result<String, GeneratorError>)
    requires
        e is CreateStruct,
    ensures
        gathered(r, old(ops)@, final(ops)@, io_gather(*o, e@, old(ops)@.len())),
    decreases e, 0nat,
{
    broadcast use lemma_add_assoc;
    match e {
        LangExpr::CreateStruct(n, v, targs, fields) => {
            proof {
                lemma_named_exprs_view(fields@);
            }
            let mut s = String::new();
            append_str(&mut s, "new ");
            match scala_write_qual_name(o, &mut s, n) {
                Ok(()) => {},
                Err(x) => return Err(x),
            }
            append_str(&mut s, ".V");
            let d = v.to_decimal();
            append_str(&mut s, d.as_str());
            match scala_write_type_args(o, &mut s, targs) {
                Ok(()) => {},
                Err(x) => return Err(x),
            }
            let c = match io_fields_exec(o, fields, ops) {
                Ok(c) => c,
                Err(x) => return Err(x),
            };
            append_str(&mut s, "(");
            append_str(&mut s, c.as_str());
            append_str(&mut s, ")");
            assert(s@ =~= "new "@ + ok_text(scala_qual_name_text(*o, n@)) + ".V"@ + decimal_text(v@)
                + ok_text(scala_type_args_text(*o, lang_types_view(targs@))) + "("@ + c@ + ")"@);
            Ok(s)
        },
        _ => {
            proof {
                assert(false);
            }
            Ok(String::new())
        },
    }
}

/// Takes the effects out of an expression of the `CodecRead` form.
#[verifier::spinoff_prover]
fn io_gather_codec_read(o: &ScalaOptions, e: &LangExpr, ops: &mut Vec<String>) -> (r: Result<String, GeneratorError>)
    requires
        e is CodecRead,
    ensures
        gathered(r, old(ops)@, final(ops)@, io_gather(*o, e@, old(ops)@.len())),
    decreases e, 0nat,
{
    broadcast use lemma_add_assoc;
    let ghost k = ops@.len();
    let ghost sv0 = strings_view(ops@);
    match e {
        LangExpr::CodecRead { codec } => {
            let mut ct = match io_gather_exec(o, &**codec, ops) {
                Ok(t) => t,
                Err(x) => return Err(x),
            };
            let ghost ops1 = strings_view(ops@).skip(sv0.len() as int);
            assert(strings_view(ops@) =~= sv0 + ops1);
            append_str(&mut ct, ".read(reader)");
            let name = io_name_exec(ops.len());
            let ghost ctv = ct@;
            let ghost pre = ops@;
            ops.push(ct);
            assert(strings_view(ops@) =~= strings_view(pre).push(ctv));
            assert(strings_view(ops@) =~= sv0 + ops1.push(ctv));
            Ok(name)
        },
        _ => {
            proof {
                assert(false);
            }
            Ok(String::new())
        },
    }
}

/// Takes the effects out of an expression of the `CodecWrite` form.
#[verifier::spinoff_prover]
fn io_gather_codec_write(o: &ScalaOptions, e: &LangExpr, ops: &mut Vec<String>) -> (r: Result<String, GeneratorError>)
    requires
        e is CodecWrite,
    ensures
        gathered(r, old(ops)@, final(ops)@, io_gather(*o, e@, old(ops)@.len())),
    decreases e, 0nat,
{
    broadcast use lemma_add_assoc;
    let ghost k = ops@.len();
    let ghost sv0 = strings_view(ops@);
    match e {
        LangExpr::CodecWrite { codec, value } => {
            let mut ct = match io_gather_exec(o, &**codec, ops) {
                Ok(t) => t,
                Err(x) => return Err(x),
            };
            let ghost ops1 = strings_view(ops@).skip(sv0.len() as int);
            assert(strings_view(ops@) =~= sv0 + ops1);
            let ghost sv1 = strings_view(ops@);
            let vt = match io_gather_exec(o, &**value, ops) {
                Ok(t) => t,
                Err(x) => return Err(x),
            };
            let ghost ops2 = strings_view(ops@).skip(sv1.len() as int);
            assert(strings_view(ops@) =~= sv1 + ops2);
            append_str(&mut ct, ".write(writer, ");
            append_str(&mut ct, vt.as_str());
            append_str(&mut ct, ")");
            let name = io_name_exec(ops.len());
            let ghost ctv = ct@;
            let ghost pre = ops@;
            ops.push(ct);
            assert(strings_view(ops@) =~= strings_view(pre).push(ctv));
            assert(strings_view(ops@) =~= sv0 + (ops1 + ops2).push(ctv));
            Ok(name)
        },
        _ => {
            proof {
                assert(false);
            }
            Ok(String::new())
        },
    }
}

/// Takes the effects out of an expression of the `InvokeConverter` form.
#[verifier::spinoff_prover]
fn io_gather_converter(o: &ScalaOptions, e: &LangExpr, ops: &mut Vec<String>) -> (r: Result<String, GeneratorError>)
    requires
        e is InvokeConverter,
    ensures
        gathered(r, old(ops)@, final(ops)@, io_gather(*o, e@, old(ops)@.len())),
    decreases e, 0nat,
{
    broadcast use lemma_add_assoc;
    let ghost k = ops@.len();
    let ghost sv0 = strings_view(ops@);
    match e {
        LangExpr::InvokeConverter { converter, value } => {
            let mut ct = match io_gather_exec(o, &**converter, ops) {
                Ok(t) => t,
                Err(x) => return Err(x),
            };
            let ghost ops1 = strings_view(ops@).skip(sv0.len() as int);
            assert(strings_view(ops@) =~= sv0 + ops1);
            let ghost sv1 = strings_view(ops@);
            let vt = match io_gather_exec(o, &**value, ops) {
                Ok(t) => t,
                Err(x) => return Err(x),
            };
            let ghost ops2 = strings_view(ops@).skip(sv1.len() as int);
            assert(strings_view(ops@) =~= sv1 + ops2);
            append_str(&mut ct, ".convert(");
            append_str(&mut ct, vt.as_str());
            append_str(&mut ct, ")");
            assert(strings_view(ops@) =~= sv0 + (ops1 + ops2));
            Ok(ct)
        },
        _ => {
            proof {
                assert(false);
            }
            Ok(String::new())
        },
    }
}

/// Takes the effects out of the values of a struct's fields: adds them to
/// `ops` and gives the values, separated by commas.
#[verifier::spinoff_prover]
fn io_fields_exec(o: &ScalaOptions, fields: &Vec<(&String, LangExpr)>, ops: &mut Vec<String>) -> (r: Result<String, GeneratorError>)
    ensures
        gathered(r, old(ops)@, final(ops)@, io_fields(*o, named_exprs_view(fields@), fields@.len(), old(ops)@.len())),
    decreases fields, 0nat,
{
    broadcast use lemma_add_assoc;
    proof {
        lemma_named_exprs_view(fields@);
    }
    let ghost fv = named_exprs_view(fields@);
    let ghost k = ops@.len();
    let ghost sv0 = strings_view(ops@);
    let mut c = String::new();
    assert(strings_view(ops@) =~= sv0 + Seq::<Seq<char>>::empty());
    let mut i: usize = 0;
    while i < fields.len()
        invariant
            i <= fields@.len(),
            fv == named_exprs_view(fields@),
            fv.len() == fields@.len(),
            forall|j: int| 0 <= j < fields@.len() ==> #[trigger] fv[j] == (fields@[j].0@, lang_expr_view(fields@[j].1)),
            io_fields(*o, fv, i as nat, k) is Ok,
            c@ == io_fields(*o, fv, i as nat, k)->Ok_0.0,
            strings_view(ops@) == sv0 + io_fields(*o, fv, i as nat, k)->Ok_0.1,
            k == old(ops)@.len(),
            sv0 == strings_view(old(ops)@),
        decreases fields@.len() - i,
    {
        let ghost prev = io_fields(*o, fv, i as nat, k)->Ok_0;
        let ghost sv1 = strings_view(ops@);
        assert(sv1.len() == k + prev.1.len());
        let t = match io_gather_exec(o, &fields[i].1, ops) {
            Ok(t) => t,
            Err(x) => {
                proof {
                    lemma_io_fields_err(*o, fv, (i + 1) as nat, fv.len(), k);
                }
                return Err(x);
            },
        };
        let ghost ops2 = strings_view(ops@).skip(sv1.len() as int);
        assert(strings_view(ops@) =~= sv1 + ops2);
        if i > 0 {
            append_str(&mut c, ", ");
        }
        append_str(&mut c, t.as_str());
        assert(strings_view(ops@) =~= sv0 + (prev.1 + ops2));
        i = i + 1;
    }
    Ok(c)
}

/// `k` levels deeper (the count stops at the largest `usize`).
pub open spec fn deeper_by(ind: nat, k: nat) -> nat
    decreases k,
{
    if k == 0 {
        ind
    } else {
        deeper(deeper_by(ind, (k - 1) as nat))
    }
}

/// Whether an expression, once its effects are taken out, is only a name:
/// a name itself, or an effect.
pub open spec fn bound_alone(e: LangExprV) -> bool {
    e is Identifier || e is ReadDiscriminator || e is WriteDiscriminator || e is CodecRead || e is CodecWrite
}

/// The expressions `es[..n]` of a block run for their effects: the names
/// that are left of those that are only a name (whose values are not
/// used), and the effects taken out of all of them, in order, numbered from
/// the first.
pub open spec fn io_stmts(o: ScalaOptions, es: Seq<LangExprV>, n: nat) -> Result<(Seq<Seq<char>>, Seq<Seq<char>>), GeneratorErrorV>
    decreases n,
{
    if n == 0 || n > es.len() {
        Ok((Seq::empty(), Seq::empty()))
    } else {
        match io_stmts(o, es, (n - 1) as nat) {
            Err(x) => Err(x),
            Ok((ign, ops)) => match io_gather(o, es[n - 1], ops.len()) {
                Err(x) => Err(x),
                Ok((t, ops2)) => Ok((if bound_alone(es[n - 1]) { ign.push(t) } else { ign }, ops + ops2)),
            },
        }
    }
}

/// The lines of a `for` comprehension that run the effects `ops[..n]`,
/// binding each to its name, or to `_` where its value is not used.
pub open spec fn effect_lines(ind: nat, ign: Seq<Seq<char>>, ops: Seq<Seq<char>>, n: nat) -> Seq<char>
    decreases n,
{
    if n == 0 || n > ops.len() {
        Seq::empty()
    } else {
        effect_lines(ind, ign, ops, (n - 1) as nat) + tabs(deeper(ind))
            + (if ign.contains(io_name((n - 1) as nat)) { "_"@ } else { io_name((n - 1) as nat) }) + " <- "@ + ops[n - 1] + "\n"@
    }
}

/// A block run as a `zio` effect: with no effects, the result (or `()`)
/// lifted into an effect; otherwise a `for` comprehension that runs the
/// effects in order and yields the result (or `()`).
#[verifier::opaque]
pub open spec fn io_block_text(o: ScalaOptions, ind: nat, es: Seq<LangExprV>, res: Option<LangExprV>) -> Result<Seq<char>, GeneratorErrorV> {
    match io_stmts(o, es, es.len()) {
        Err(x) => Err(x),
        Ok((ign, ops1)) => {
            let r = match res {
                None => Ok(("()"@, Seq::<Seq<char>>::empty())),
                Some(x) => io_gather(o, x, ops1.len()),
            };
            match r {
                Err(x) => Err(x),
                Ok((rt, ops2)) => {
                    let ops = ops1 + ops2;
                    if ops.len() == 0 {
                        Ok("zio.IO.succeed("@ + rt + ")\n"@)
                    } else {
                        Ok("for {\n"@ + effect_lines(ind, ign, ops, ops.len()) + tabs(ind) + "} yield "@ + rt + "\n"@)
                    }
                },
            }
        },
    }
}

/// The expressions `es[..n]`, each on a line of its own.
pub open spec fn scala_lines(o: ScalaOptions, ind: nat, es: Seq<LangExprV>, n: nat) -> Result<Seq<char>, GeneratorErrorV>
    decreases n,
{
    if n == 0 || n > es.len() {
        Ok(Seq::empty())
    } else {
        match scala_lines(o, ind, es, (n - 1) as nat) {
            Err(e) => Err(e),
            Ok(p) => match scala_expr_text(o, es[n - 1]) {
                Err(e) => Err(e),
                Ok(x) => Ok(p + tabs(ind) + x + "\n"@),
            },
        }
    }
}

/// A plain block: each expression on a line of its own, then the result.
#[verifier::opaque]
pub open spec fn plain_block_text(o: ScalaOptions, ind: nat, es: Seq<LangExprV>, res: Option<LangExprV>) -> Result<Seq<char>, GeneratorErrorV> {
    match scala_lines(o, deeper(ind), es, es.len()) {
        Err(e) => Err(e),
        Ok(a) => match res {
            None => Ok("{\n"@ + a + tabs(ind) + "}\n"@),
            Some(r) => match scala_expr_text(o, r) {
                Err(e) => Err(e),
                Ok(b) => Ok("{\n"@ + a + tabs(deeper(ind)) + b + "\n"@ + tabs(ind) + "}\n"@),
            },
        },
    }
}

/// The value matched on, with its effects taken out where the match runs
/// as an effect.
pub open spec fn match_head(o: ScalaOptions, value: LangExprV, io: bool) -> Result<(Seq<char>, Seq<Seq<char>>), GeneratorErrorV> {
    if io {
        io_gather(o, value, 0)
    } else {
        match scala_expr_text(o, value) {
            Err(e) => Err(e),
            Ok(t) => Ok((t, Seq::empty())),
        }
    }
}

/// The effects `ops[..n]` run one inside the other with `flatMap`, each
/// binding its name, one level deeper each time.
pub open spec fn flat_maps(ind: nat, ops: Seq<Seq<char>>, n: nat) -> Seq<char>
    decreases n,
{
    if n == 0 || n > ops.len() {
        Seq::empty()
    } else {
        flat_maps(ind, ops, (n - 1) as nat) + ops[n - 1] + ".flatMap { "@ + io_name((n - 1) as nat) + " =>\n"@ + tabs(deeper_by(ind, n))
    }
}

/// The closing braces of `n` nested `flatMap`s, innermost first.
pub open spec fn closings(ind: nat, n: nat) -> Seq<char>
    decreases n,
{
    if n == 0 {
        Seq::empty()
    } else {
        tabs(deeper_by(ind, (n - 1) as nat)) + "}\n"@ + closings(ind, (n - 1) as nat)
    }
}

/// The Scala text of a statement that starts where a line is under way, at
/// indentation `ind`; where `io`, it is run as a `zio` effect.
pub open spec fn scala_stmt_text(o: ScalaOptions, ind: nat, st: LangStmtV, io: bool) -> Result<Seq<char>, GeneratorErrorV>
    decreases st, 0nat,
{
    match st {
        LangStmtV::Expr(es, res) => if io { io_block_text(o, ind, es, res) } else { plain_block_text(o, ind, es, res) },
        LangStmtV::MatchEnum(value, vt, cases) => if cases.len() == 0 {
            match scala_expr_text(o, value) {
                Err(e) => Err(e),
                Ok(v) => Ok(v + "\n"@),
            }
        } else {
            scala_match_enum_text(o, ind, value, vt, cases, io)
        },
        LangStmtV::MatchDiscriminator(value, cases) => scala_match_disc_text(o, ind, value, cases, io),
    }
}

/// A match on an enum value, with a case for each case class.
pub open spec fn scala_match_enum_text(
    o: ScalaOptions,
    ind: nat,
    value: LangExprV,
    vt: LangTypeV,
    cases: Seq<(Seq<char>, Seq<char>, LangStmtV)>,
    io: bool,
) -> Result<Seq<char>, GeneratorErrorV>
    decreases cases, cases.len() + 1,
{
    match match_head(o, value, io) {
        Err(e) => Err(e),
        Ok((v, ops)) => match scala_enum_cases_text(o, deeper_by(ind, ops.len() + 1), vt, cases, cases.len(), io) {
            Err(e) => Err(e),
            Ok(c) => Ok(flat_maps(ind, ops, ops.len()) + v + " match {\n"@ + c + tabs(deeper_by(ind, ops.len())) + "}\n"@
                + closings(ind, ops.len())),
        },
    }
}

/// A match on a discriminator, with a case for each tag.
pub open spec fn scala_match_disc_text(o: ScalaOptions, ind: nat, value: LangExprV, cases: Seq<(nat, LangStmtV)>, io: bool) -> Result<Seq<char>, GeneratorErrorV>
    decreases cases, cases.len() + 1,
{
    match match_head(o, value, io) {
        Err(e) => Err(e),
        Ok((v, ops)) => match scala_disc_cases_text(o, deeper_by(ind, ops.len() + 1), cases, cases.len(), io) {
            Err(e) => Err(e),
            Ok(c) => Ok(flat_maps(ind, ops, ops.len()) + v + " match {\n"@ + c + tabs(deeper_by(ind, ops.len())) + "}\n"@
                + closings(ind, ops.len())),
        },
    }
}

/// The pattern of one case of an enum value: the case class, binding its
/// value.
pub open spec fn case_pattern(o: ScalaOptions, vt: LangTypeV, binding: Seq<char>, case: Seq<char>) -> Result<Seq<char>, GeneratorErrorV> {
    match vt {
        LangTypeV::Versioned(_, name, v, _, _) => match scala_qual_name_text(o, name) {
            Err(e) => Err(e),
            Ok(q) => Ok(q + ".V"@ + decimal_text(v) + "."@ + capitalized(case) + "("@ + binding + ")"@),
        },
        _ => Err(GeneratorErrorV::CouldNotGenerateType),
    }
}

/// One case of a match on an enum value.
pub open spec fn scala_enum_case_text(o: ScalaOptions, ind: nat, vt: LangTypeV, c: (Seq<char>, Seq<char>, LangStmtV), io: bool) -> Result<Seq<char>, GeneratorErrorV>
    decreases c, 1nat,
{
    let (binding, case, body) = c;
    match case_pattern(o, vt, binding, case) {
        Err(e) => Err(e),
        Ok(p) => match scala_stmt_text(o, ind, body, io) {
            Err(e) => Err(e),
            Ok(b) => Ok(tabs(ind) + "case "@ + p + " => "@ + b),
        },
    }
}

/// The cases `cases[..n]` of a match on an enum value.
pub open spec fn scala_enum_cases_text(o: ScalaOptions, ind: nat, vt: LangTypeV, cases: Seq<(Seq<char>, Seq<char>, LangStmtV)>, n: nat, io: bool) -> Result<Seq<char>, GeneratorErrorV>
    decreases cases, n,
{
    if n == 0 || n > cases.len() {
        Ok(Seq::empty())
    } else {
        match scala_enum_cases_text(o, ind, vt, cases, (n - 1) as nat, io) {
            Err(e) => Err(e),
            Ok(p) => match scala_enum_case_text(o, ind, vt, cases[n - 1], io) {
                Err(e) => Err(e),
                Ok(x) => Ok(p + x),
            },
        }
    }
}

/// One case of a match on a discriminator.
pub open spec fn scala_disc_case_text(o: ScalaOptions, ind: nat, c: (nat, LangStmtV), io: bool) -> Result<Seq<char>, GeneratorErrorV>
    decreases c, 1nat,
{
    match scala_stmt_text(o, ind, c.1, io) {
        Err(e) => Err(e),
        Ok(b) => Ok(tabs(ind) + "case "@ + scala_runtime_package() + ".Util.BigIntValue("@ + decimal_text(c.0) + ") => "@ + b),
    }
}

/// The cases `cases[..n]` of a match on a discriminator.
pub open spec fn scala_disc_cases_text(o: ScalaOptions, ind: nat, cases: Seq<(nat, LangStmtV)>, n: nat, io: bool) -> Result<Seq<char>, GeneratorErrorV>
    decreases cases, n,
{
    if n == 0 || n > cases.len() {
        Ok(Seq::empty())
    } else {
        match scala_disc_cases_text(o, ind, cases, (n - 1) as nat, io) {
            Err(e) => Err(e),
            Ok(p) => match scala_disc_case_text(o, ind, cases[n - 1], io) {
                Err(e) => Err(e),
                Ok(x) => Ok(p + x),
            },
        }
    }
}

/// Once the lines before `k` fail, so do those before any later `n`.
proof fn lemma_scala_lines_err(o: ScalaOptions, ind: nat, es: Seq<LangExprV>, k: nat, n: nat)
    requires
        1 <= k <= n <= es.len(),
        scala_lines(o, ind, es, k) is Err,
    ensures
        scala_lines(o, ind, es, n) == scala_lines(o, ind, es, k),
    decreases n,
{
    if n > k {
        lemma_scala_lines_err(o, ind, es, k, (n - 1) as nat);
    }
}

/// Once the expressions before `k` fail, so do those before any later `n`.
proof fn lemma_io_stmts_err(o: ScalaOptions, es: Seq<LangExprV>, k: nat, n: nat)
    requires
        1 <= k <= n <= es.len(),
        io_stmts(o, es, k) is Err,
    ensures
        io_stmts(o, es, n) == io_stmts(o, es, k),
    decreases n,
{
    if n > k {
        lemma_io_stmts_err(o, es, k, (n - 1) as nat);
    }
}

/// Once the cases before `k` fail, so do those before any later `n`.
proof fn lemma_scala_enum_cases_err(o: ScalaOptions, ind: nat, vt: LangTypeV, cases: Seq<(Seq<char>, Seq<char>, LangStmtV)>, k: nat, n: nat, io: bool)
    requires
        1 <= k <= n <= cases.len(),
        scala_enum_cases_text(o, ind, vt, cases, k, io) is Err,
    ensures
        scala_enum_cases_text(o, ind, vt, cases, n, io) == scala_enum_cases_text(o, ind, vt, cases, k, io),
    decreases n,
{
    if n > k {
        lemma_scala_enum_cases_err(o, ind, vt, cases, k, (n - 1) as nat, io);
    }
}

/// Once the cases before `k` fail, so do those before any later `n`.
proof fn lemma_scala_disc_cases_err(o: ScalaOptions, ind: nat, cases: Seq<(nat, LangStmtV)>, k: nat, n: nat, io: bool)
    requires
        1 <= k <= n <= cases.len(),
        scala_disc_cases_text(o, ind, cases, k, io) is Err,
    ensures
        scala_disc_cases_text(o, ind, cases, n, io) == scala_disc_cases_text(o, ind, cases, k, io),
    decreases n,
{
    if n > k {
        lemma_scala_disc_cases_err(o, ind, cases, k, (n - 1) as nat, io);
    }
}

/// Writes the expressions, each on a line of its own.
fn scala_write_lines(o: &ScalaOptions, out: &mut String, ind: usize, es: &Vec<LangExpr>) -> (r: Result<(), GeneratorError>)
    ensures
        wrote(r, old(out)@, final(out)@, scala_lines(*o, ind as nat, lang_exprs_view(es@), es@.len())),
{
    broadcast use lemma_add_assoc;
    proof {
        lemma_lang_exprs_view(es@);
    }
    let ghost ev = lang_exprs_view(es@);
    let ghost start = out@;
    assert(out@ == start + ok_text(scala_lines(*o, ind as nat, ev, 0)));
    let mut i: usize = 0;
    while i < es.len()
        invariant
            i <= es@.len(),
            ev == lang_exprs_view(es@),
            ev.len() == es@.len(),
            forall|j: int| 0 <= j < es@.len() ==> #[trigger] ev[j] == lang_expr_view(es@[j]),
            scala_lines(*o, ind as nat, ev, i as nat) is Ok,
            out@ == start + ok_text(scala_lines(*o, ind as nat, ev, i as nat)),
        decreases es@.len() - i,
    {
        write_indent(out, ind);
        match scala_write_expr(o, out, &es[i]) {
            Ok(()) => {},
            Err(x) => {
                proof {
                    lemma_scala_lines_err(*o, ind as nat, ev, (i + 1) as nat, ev.len());
                }
                return Err(x);
            },
        }
        append_str(out, "\n");
        assert(out@ == start + ok_text(scala_lines(*o, ind as nat, ev, (i + 1) as nat)));
        i = i + 1;
    }
    Ok(())
}

/// Writes a plain block.
#[verifier::spinoff_prover]
#[verifier::rlimit(50)]
fn write_plain_block(o: &ScalaOptions, out: &mut String, ind: usize, es: &Vec<LangExpr>, res: &Option<LangExpr>) -> (r: Result<(), GeneratorError>)
    ensures
        wrote(r, old(out)@, final(out)@, plain_block_text(*o, ind as nat, lang_exprs_view(es@), opt_expr_view(*res))),
{
    reveal(plain_block_text);
    proof {
        lemma_lang_exprs_view(es@);
    }
    let ghost before = out@;
    let inner = deeper_exec(ind);
    append_str(out, "{\n");
    match scala_write_lines(o, out, inner, es) {
        Ok(()) => {},
        Err(x) => {
            return Err(x);
        },
    }
    let ghost a = ok_text(scala_lines(*o, inner as nat, lang_exprs_view(es@), es@.len()));
    assert(out@ == before + "{\n"@ + a);
    match res {
        None => {
            write_indent(out, ind);
            append_str(out, "}\n");
            assert(out@ =~= before + ("{\n"@ + a + tabs(ind as nat) + "}\n"@));
            Ok(())
        },
        Some(r) => {
            write_indent(out, inner);
            match scala_write_expr(o, out, r) {
                Ok(()) => {},
                Err(x) => return Err(x),
            }
            let ghost b = ok_text(scala_expr_text(*o, r@));
            assert(out@ == before + "{\n"@ + a + tabs(inner as nat) + b);
            append_str(out, "\n");
            write_indent(out, ind);
            append_str(out, "}\n");
            assert(out@ =~= before + ("{\n"@ + a + tabs(inner as nat) + b + "\n"@ + tabs(ind as nat) + "}\n"@));
            Ok(())
        },
    }
}

/// Takes the effects out of the expressions of a block: gives the names
/// left of those that are only a name, and adds the effects to `ops`.
fn io_stmts_exec(o: &ScalaOptions, es: &Vec<LangExpr>, ops: &mut Vec<String>) -> (r: Result<Vec<String>, GeneratorError>)
    requires
        old(ops)@.len() == 0,
    ensures
        match io_stmts(*o, lang_exprs_view(es@), es@.len()) {
            Ok((ign, new)) => r matches Ok(v) && strings_view(v@) == ign && strings_view(final(ops)@) == new,
            Err(x) => r matches Err(y) && y@ == x,
        },
{
    broadcast use lemma_add_assoc;
    proof {
        lemma_lang_exprs_view(es@);
    }
    let ghost ev = lang_exprs_view(es@);
    let mut ign: Vec<String> = Vec::new();
    assert(strings_view(ign@) =~= Seq::<Seq<char>>::empty());
    assert(strings_view(ops@) =~= Seq::<Seq<char>>::empty());
    let mut i: usize = 0;
    while i < es.len()
        invariant
            i <= es@.len(),
            ev == lang_exprs_view(es@),
            ev.len() == es@.len(),
            forall|j: int| 0 <= j < es@.len() ==> #[trigger] ev[j] == lang_expr_view(es@[j]),
            io_stmts(*o, ev, i as nat) is Ok,
            strings_view(ign@) == io_stmts(*o, ev, i as nat)->Ok_0.0,
            strings_view(ops@) == io_stmts(*o, ev, i as nat)->Ok_0.1,
        decreases es@.len() - i,
    {
        let ghost prev = io_stmts(*o, ev, i as nat)->Ok_0;
        let ghost sv1 = strings_view(ops@);
        let t = match io_gather_exec(o, &es[i], ops) {
            Ok(t) => t,
            Err(x) => {
                proof {
                    lemma_io_stmts_err(*o, ev, (i + 1) as nat, ev.len());
                }
                return Err(x);
            },
        };
        let ghost ops2 = strings_view(ops@).skip(sv1.len() as int);
        assert(strings_view(ops@) =~= sv1 + ops2);
        let alone = match &es[i] {
            LangExpr::Identifier(_) | LangExpr::ReadDiscriminator | LangExpr::WriteDiscriminator(_)
            | LangExpr::CodecRead { .. } | LangExpr::CodecWrite { .. } => true,
            _ => false,
        };
        assert(alone == bound_alone(ev[i as int]));
        if alone {
            let ghost pre = ign@;
            let ghost tv = t@;
            ign.push(t);
            assert(strings_view(ign@) =~= strings_view(pre).push(tv));
        }
        i = i + 1;
    }
    Ok(ign)
}

/// Whether `v` holds `s`.
fn names_contain(v: &Vec<String>, s: &String) -> (r: bool)
    ensures
        r == strings_view(v@).contains(s@),
{
    let r = crate::scope::contains_string(v, s);
    proof {
        if r {
            let i = choose|i: int| 0 <= i < v@.len() && v@[i]@ == s@;
            assert(strings_view(v@)[i] == s@);
        }
        if strings_view(v@).contains(s@) {
            let i = choose|i: int| 0 <= i < strings_view(v@).len() && strings_view(v@)[i] == s@;
            assert(v@[i]@ == s@);
        }
    }
    r
}

/// Writes a block run as a `zio` effect.
#[verifier::spinoff_prover]
#[verifier::rlimit(50)]
fn write_io_block(o: &ScalaOptions, out: &mut String, ind: usize, es: &Vec<LangExpr>, res: &Option<LangExpr>) -> (r: Result<(), GeneratorError>)
    ensures
        wrote(r, old(out)@, final(out)@, io_block_text(*o, ind as nat, lang_exprs_view(es@), opt_expr_view(*res))),
{
    reveal(io_block_text);
    proof {
        lemma_lang_exprs_view(es@);
    }
    let ghost before = out@;
    let ghost ev = lang_exprs_view(es@);
    let mut ops: Vec<String> = Vec::new();
    let ign = match io_stmts_exec(o, es, &mut ops) {
        Ok(v) => v,
        Err(x) => return Err(x),
    };
    let ghost ops1 = strings_view(ops@);
    let rt = match res {
        None => "()".to_owned(),
        Some(x) => match io_gather_exec(o, x, &mut ops) {
            Ok(t) => t,
            Err(e) => return Err(e),
        },
    };
    let ghost ops2 = strings_view(ops@).skip(ops1.len() as int);
    proof {
        reveal_strlit("()");
        assert(strings_view(ops@) =~= ops1 + ops2);
    }
    let ghost all = strings_view(ops@);
    if ops.len() == 0 {
        append_str(out, "zio.IO.succeed(");
        append_str(out, rt.as_str());
        append_str(out, ")\n");
        assert(out@ =~= before + ("zio.IO.succeed("@ + rt@ + ")\n"@));
        return Ok(());
    }
    append_str(out, "for {\n");
    let ghost start = out@;
    let inner = deeper_exec(ind);
    let mut i: usize = 0;
    while i < ops.len()
        invariant
            i <= ops@.len(),
            all == strings_view(ops@),
            all.len() == ops@.len(),
            out@ == start + effect_lines(ind as nat, strings_view(ign@), all, i as nat),
            inner == deeper(ind as nat),
        decreases ops@.len() - i,
    {
        write_indent(out, inner);
        let name = io_name_exec(i);
        if names_contain(&ign, &name) {
            append_str(out, "_");
        } else {
            append_str(out, name.as_str());
        }
        append_str(out, " <- ");
        append_str(out, ops[i].as_str());
        append_str(out, "\n");
        assert(all[i as int] == ops@[i as int]@);
        assert(out@ =~= start + effect_lines(ind as nat, strings_view(ign@), all, (i + 1) as nat));
        i = i + 1;
    }
    write_indent(out, ind);
    append_str(out, "} yield ");
    append_str(out, rt.as_str());
    append_str(out, "\n");
    assert(out@ =~= before + ("for {\n"@ + effect_lines(ind as nat, strings_view(ign@), all, all.len()) + tabs(ind as nat) + "} yield "@ + rt@ + "\n"@));
    Ok(())
}

/// The value matched on, with its effects taken out where the match runs
/// as an effect; the effects are added to `ops`.
fn write_match_head(o: &ScalaOptions, value: &LangExpr, io: bool, ops: &mut Vec<String>) -> (r: Result<String, GeneratorError>)
    requires
        old(ops)@.len() == 0,
    ensures
        match match_head(*o, value@, io) {
            Ok((v, new)) => r matches Ok(s) && s@ == v && strings_view(final(ops)@) == new,
            Err(x) => r matches Err(y) && y@ == x,
        },
{
    if io {
        let r = io_gather_exec(o, value, ops);
        proof {
            assert(strings_view(old(ops)@) =~= Seq::<Seq<char>>::empty());
            if r is Ok {
                assert(strings_view(ops@) =~= Seq::<Seq<char>>::empty() + io_gather(*o, value@, 0)->Ok_0.1);
            }
        }
        r
    } else {
        let r = expr_string(o, value);
        assert(strings_view(ops@) =~= Seq::<Seq<char>>::empty());
        r
    }
}

/// Writes the effects run one inside the other with `flatMap`; gives the
/// indentation before each and after the last.
fn write_flat_maps(out: &mut String, ind: usize, ops: &Vec<String>) -> (r: (Vec<usize>, usize))
    ensures
        final(out)@ == old(out)@ + flat_maps(ind as nat, strings_view(ops@), ops@.len()),
        r.0@.len() == ops@.len(),
        forall|j: int| 0 <= j < ops@.len() ==> r.0@[j] == deeper_by(ind as nat, j as nat),
        r.1 == deeper_by(ind as nat, ops@.len()),
{
    broadcast use lemma_add_assoc;
    let ghost ov = strings_view(ops@);
    let ghost start = out@;
    let mut levels: Vec<usize> = Vec::new();
    let mut lvl = ind;
    let mut i: usize = 0;
    while i < ops.len()
        invariant
            i <= ops@.len(),
            ov == strings_view(ops@),
            ov.len() == ops@.len(),
            out@ == start + flat_maps(ind as nat, ov, i as nat),
            levels@.len() == i,
            forall|j: int| 0 <= j < i ==> levels@[j] == deeper_by(ind as nat, j as nat),
            lvl == deeper_by(ind as nat, i as nat),
        decreases ops@.len() - i,
    {
        levels.push(lvl);
        append_str(out, ops[i].as_str());
        append_str(out, ".flatMap { ");
        let name = io_name_exec(i);
        append_str(out, name.as_str());
        append_str(out, " =>\n");
        lvl = deeper_exec(lvl);
        write_indent(out, lvl);
        assert(ov[i as int] == ops@[i as int]@);
        assert(out@ =~= start + flat_maps(ind as nat, ov, (i + 1) as nat));
        i = i + 1;
    }
    (levels, lvl)
}

/// Writes the closing braces of nested `flatMap`s, innermost first.
fn write_closings(out: &mut String, ind: usize, levels: &Vec<usize>)
    requires
        forall|j: int| 0 <= j < levels@.len() ==> levels@[j] == deeper_by(ind as nat, j as nat),
    ensures
        final(out)@ == old(out)@ + closings(ind as nat, levels@.len()),
{
    broadcast use lemma_add_assoc;
    let ghost start = out@;
    let mut j: usize = levels.len();
    while j > 0
        invariant
            j <= levels@.len(),
            forall|k: int| 0 <= k < levels@.len() ==> levels@[k] == deeper_by(ind as nat, k as nat),
            start + closings(ind as nat, levels@.len()) == out@ + closings(ind as nat, j as nat),
        decreases j,
    {
        let ghost before = out@;
        write_indent(out, levels[j - 1]);
        append_str(out, "}\n");
        assert(closings(ind as nat, j as nat) == tabs(deeper_by(ind as nat, (j - 1) as nat)) + "}\n"@ + closings(ind as nat, (j - 1) as nat));
        assert(out@ == before + (tabs(deeper_by(ind as nat, (j - 1) as nat)) + "}\n"@));
        j = j - 1;
    }
    assert(out@ + closings(ind as nat, 0) =~= out@);
}

/// Writes one case of a match on an enum value.
#[verifier::spinoff_prover]
fn scala_write_enum_case(o: &ScalaOptions, out: &mut String, ind: usize, vt: &LangType, c: &MatchCase, io: bool) -> (r: Result<(), GeneratorError>)
    ensures
        wrote(r, old(out)@, final(out)@, scala_enum_case_text(*o, ind as nat, vt@, (c.binding_name@, c.case_name@, lang_stmt_view(c.body)), io)),
    decreases c, 0nat,
{
    broadcast use lemma_add_assoc;
    let ghost before = out@;
    write_indent(out, ind);
    append_str(out, "case ");
    match vt {
        LangType::Versioned(_, name, v, _, _) => {
            match scala_write_qual_name(o, out, name) {
                Ok(()) => {},
                Err(x) => return Err(x),
            }
            append_str(out, ".V");
            let d = v.to_decimal();
            append_str(out, d.as_str());
            append_str(out, ".");
            let cn = make_type_name(c.case_name.as_str());
            append_str(out, cn.as_str());
            append_str(out, "(");
            append_str(out, c.binding_name.as_str());
            append_str(out, ")");
        },
        _ => return Err(GeneratorError::CouldNotGenerateType),
    }
    append_str(out, " => ");
    let ghost p = ok_text(case_pattern(*o, vt@, c.binding_name@, c.case_name@));
    assert(out@ =~= before + (tabs(ind as nat) + "case "@ + p + " => "@));
    match scala_write_statement(o, out, ind, &c.body, io) {
        Ok(()) => {},
        Err(x) => return Err(x),
    }
    Ok(())
}

/// Writes the cases of a match on an enum value.
fn scala_write_enum_cases(o: &ScalaOptions, out: &mut String, ind: usize, vt: &LangType, cases: &Vec<MatchCase>, io: bool) -> (r: Result<(), GeneratorError>)
    ensures
        wrote(r, old(out)@, final(out)@, scala_enum_cases_text(*o, ind as nat, vt@, match_cases_view(cases@), cases@.len(), io)),
    decreases cases, 0nat,
{
    proof {
        lemma_match_cases_view(cases@);
    }
    let ghost cv = match_cases_view(cases@);
    let ghost start = out@;
    assert(out@ == start + ok_text(scala_enum_cases_text(*o, ind as nat, vt@, cv, 0, io)));
    let mut i: usize = 0;
    while i < cases.len()
        invariant
            i <= cases@.len(),
            cv == match_cases_view(cases@),
            cv.len() == cases@.len(),
            forall|j: int| 0 <= j < cases@.len() ==> #[trigger] cv[j]
                == (cases@[j].binding_name@, cases@[j].case_name@, lang_stmt_view(cases@[j].body)),
            scala_enum_cases_text(*o, ind as nat, vt@, cv, i as nat, io) is Ok,
            out@ == start + ok_text(scala_enum_cases_text(*o, ind as nat, vt@, cv, i as nat, io)),
        decreases cases@.len() - i,
    {
        match scala_write_enum_case(o, out, ind, vt, &cases[i], io) {
            Ok(()) => {},
            Err(x) => {
                proof {
                    lemma_scala_enum_cases_err(*o, ind as nat, vt@, cv, (i + 1) as nat, cv.len(), io);
                }
                return Err(x);
            },
        }
        proof {
            lemma_add_assoc(start, ok_text(scala_enum_cases_text(*o, ind as nat, vt@, cv, i as nat, io)),
                ok_text(scala_enum_case_text(*o, ind as nat, vt@, cv[i as int], io)));
        }
        i = i + 1;
    }
    Ok(())
}

/// Writes one case of a match on a discriminator.
#[verifier::spinoff_prover]
fn scala_write_disc_case(o: &ScalaOptions, out: &mut String, ind: usize, c: &(BigNat, LangStmt), io: bool) -> (r: Result<(), GeneratorError>)
    ensures
        wrote(r, old(out)@, final(out)@, scala_disc_case_text(*o, ind as nat, (c.0@, lang_stmt_view(c.1)), io)),
    decreases c, 0nat,
{
    broadcast use lemma_add_assoc;
    let ghost before = out@;
    write_indent(out, ind);
    append_str(out, "case ");
    append_str(out, scala_runtime_package_name());
    append_str(out, ".Util.BigIntValue(");
    let d = c.0.to_decimal();
    append_str(out, d.as_str());
    append_str(out, ") => ");
    assert(out@ =~= before + (tabs(ind as nat) + "case "@ + scala_runtime_package() + ".Util.BigIntValue("@ + decimal_text(c.0@) + ") => "@));
    match scala_write_statement(o, out, ind, &c.1, io) {
        Ok(()) => {},
        Err(x) => return Err(x),
    }
    Ok(())
}

/// Writes the cases of a match on a discriminator.
fn scala_write_disc_cases(o: &ScalaOptions, out: &mut String, ind: usize, cases: &Vec<(BigNat, LangStmt)>, io: bool) -> (r: Result<(), GeneratorError>)
    ensures
        wrote(r, old(out)@, final(out)@, scala_disc_cases_text(*o, ind as nat, disc_cases_view(cases@), cases@.len(), io)),
    decreases cases, 0nat,
{
    proof {
        lemma_disc_cases_view(cases@);
    }
    let ghost cv = disc_cases_view(cases@);
    let ghost start = out@;
    assert(out@ == start + ok_text(scala_disc_cases_text(*o, ind as nat, cv, 0, io)));
    let mut i: usize = 0;
    while i < cases.len()
        invariant
            i <= cases@.len(),
            cv == disc_cases_view(cases@),
            cv.len() == cases@.len(),
            forall|j: int| 0 <= j < cases@.len() ==> #[trigger] cv[j] == (cases@[j].0@, lang_stmt_view(cases@[j].1)),
            scala_disc_cases_text(*o, ind as nat, cv, i as nat, io) is Ok,
            out@ == start + ok_text(scala_disc_cases_text(*o, ind as nat, cv, i as nat, io)),
        decreases cases@.len() - i,
    {
        match scala_write_disc_case(o, out, ind, &cases[i], io) {
            Ok(()) => {},
            Err(x) => {
                proof {
                    lemma_scala_disc_cases_err(*o, ind as nat, cv, (i + 1) as nat, cv.len(), io);
                }
                return Err(x);
            },
        }
        proof {
            lemma_add_assoc(start, ok_text(scala_disc_cases_text(*o, ind as nat, cv, i as nat, io)),
                ok_text(scala_disc_case_text(*o, ind as nat, cv[i as int], io)));
        }
        i = i + 1;
    }
    Ok(())
}

/// Writes a match on an enum value that has cases.
#[verifier::spinoff_prover]
#[verifier::rlimit(50)]
fn scala_write_match_enum(o: &ScalaOptions, out: &mut String, ind: usize, value: &LangExpr, vt: &LangType, cases: &Vec<MatchCase>, io: bool) -> (r: Result<(), GeneratorError>)
    ensures
        wrote(r, old(out)@, final(out)@, scala_match_enum_text(*o, ind as nat, value@, vt@, match_cases_view(cases@), io)),
    decreases cases, 1nat,
{
    proof {
        lemma_match_cases_view(cases@);
    }
    let ghost before = out@;
    let mut ops: Vec<String> = Vec::new();
    let v = match write_match_head(o, value, io, &mut ops) {
        Ok(v) => v,
        Err(x) => return Err(x),
    };
    let ghost ov = strings_view(ops@);
    let (levels, lvl) = write_flat_maps(out, ind, &ops);
    append_str(out, v.as_str());
    append_str(out, " match {\n");
    let ghost h = flat_maps(ind as nat, ov, ov.len()) + v@ + " match {\n"@;
    assert(out@ =~= before + h);
    let inner = deeper_exec(lvl);
    assert(ov.len() == ops@.len());
    assert(inner as nat == deeper_by(ind as nat, ov.len() + 1));
    match scala_write_enum_cases(o, out, inner, vt, cases, io) {
        Ok(()) => {},
        Err(x) => return Err(x),
    }
    let ghost c = ok_text(scala_enum_cases_text(*o, deeper_by(ind as nat, ov.len() + 1), vt@, match_cases_view(cases@), cases@.len(), io));
    assert(out@ =~= before + (h + c));
    write_indent(out, lvl);
    append_str(out, "}\n");
    assert(out@ =~= before + (h + c + tabs(deeper_by(ind as nat, ov.len())) + "}\n"@));
    write_closings(out, ind, &levels);
    assert(out@ =~= before + (h + c + tabs(deeper_by(ind as nat, ov.len())) + "}\n"@ + closings(ind as nat, ov.len())));
    Ok(())
}

/// Writes a match on a discriminator.
#[verifier::spinoff_prover]
#[verifier::rlimit(50)]
fn scala_write_match_disc(o: &ScalaOptions, out: &mut String, ind: usize, value: &LangExpr, cases: &Vec<(BigNat, LangStmt)>, io: bool) -> (r: Result<(), GeneratorError>)
    ensures
        wrote(r, old(out)@, final(out)@, scala_match_disc_text(*o, ind as nat, value@, disc_cases_view(cases@), io)),
    decreases cases, 1nat,
{
    proof {
        lemma_disc_cases_view(cases@);
    }
    let ghost before = out@;
    let mut ops: Vec<String> = Vec::new();
    let v = match write_match_head(o, value, io, &mut ops) {
        Ok(v) => v,
        Err(x) => return Err(x),
    };
    let ghost ov = strings_view(ops@);
    let (levels, lvl) = write_flat_maps(out, ind, &ops);
    append_str(out, v.as_str());
    append_str(out, " match {\n");
    let ghost h = flat_maps(ind as nat, ov, ov.len()) + v@ + " match {\n"@;
    assert(out@ =~= before + h);
    let inner = deeper_exec(lvl);
    assert(ov.len() == ops@.len());
    assert(inner as nat == deeper_by(ind as nat, ov.len() + 1));
    match scala_write_disc_cases(o, out, inner, cases, io) {
        Ok(()) => {},
        Err(x) => return Err(x),
    }
    let ghost c = ok_text(scala_disc_cases_text(*o, deeper_by(ind as nat, ov.len() + 1), disc_cases_view(cases@), cases@.len(), io));
    assert(out@ =~= before + (h + c));
    write_indent(out, lvl);
    append_str(out, "}\n");
    assert(out@ =~= before + (h + c + tabs(deeper_by(ind as nat, ov.len())) + "}\n"@));
    write_closings(out, ind, &levels);
    assert(out@ =~= before + (h + c + tabs(deeper_by(ind as nat, ov.len())) + "}\n"@ + closings(ind as nat, ov.len())));
    Ok(())
}

/// Writes the Scala text of a statement, which starts where a line is under
/// way, at indentation `ind`; where `io`, it is run as a `zio` effect.
pub fn scala_write_statement(o: &ScalaOptions, out: &mut String, ind: usize, st: &LangStmt, io: bool) -> (r: Result<(), GeneratorError>)
    ensures
        wrote(r, old(out)@, final(out)@, scala_stmt_text(*o, ind as nat, st@, io)),
    decreases st, 2nat,
{
    match st {
        LangStmt::Expr(es, res) => {
            if io {
                write_io_block(o, out, ind, es, res)
            } else {
                write_plain_block(o, out, ind, es, res)
            }
        },
        LangStmt::MatchEnum { value, value_type, cases } => {
            proof {
                lemma_match_cases_view(cases@);
            }
            if cases.len() == 0 {
                let ghost before = out@;
                match scala_write_expr(o, out, value) {
                    Ok(()) => {},
                    Err(x) => return Err(x),
                }
                append_str(out, "\n");
                assert(out@ =~= before + (ok_text(scala_expr_text(*o, value@)) + "\n"@));
                Ok(())
            } else {
                scala_write_match_enum(o, out, ind, value, value_type, cases, io)
            }
        },
        LangStmt::MatchDiscriminator { value, cases } => {
            proof {
                lemma_disc_cases_view(cases@);
            }
            scala_write_match_disc(o, out, ind, value, cases, io)
        },
    }
}

/// How an operation is carried out, as Scala text that starts where a line
/// is under way at indentation `ind`: an expression, or an anonymous codec
/// (whose reads and writes run as `zio` effects) or converter.
pub open spec fn scala_impl_text(o: ScalaOptions, ind: nat, s: LangExprStmtV) -> Result<Seq<char>, GeneratorErrorV> {
    let i1 = deeper(ind);
    match s {
        LangExprStmtV::Expr(e) => match scala_expr_text(o, e) {
            Err(e) => Err(e),
            Ok(x) => Ok(x + ";\n"@),
        },
        LangExprStmtV::CreateCodec(t, read, write) => match scala_type_text(o, t) {
            Err(e) => Err(e),
            Ok(tt) => match scala_stmt_text(o, i1, read, true) {
                Err(e) => Err(e),
                Ok(r) => match scala_stmt_text(o, i1, write, true) {
                    Err(e) => Err(e),
                    Ok(w) => Ok("new "@ + scala_runtime_package() + ".Codec["@ + tt + "] {\n"@
                        + tabs(i1) + "override def read[R, E](reader: "@ + scala_runtime_package() + ".FormatReader[R, E]): zio.ZIO[R, E, "@
                        + tt + "] = "@ + r
                        + tabs(i1) + "override def write[R, E](writer: "@ + scala_runtime_package() + ".FormatWriter[R, E], value: "@
                        + tt + "): zio.ZIO[R, E, Unit] = "@ + w
                        + tabs(ind) + "}\n"@),
                },
            },
        },
        LangExprStmtV::CreateConverter(from, to, body) => match scala_type_text(o, from) {
            Err(e) => Err(e),
            Ok(ft) => match scala_type_text(o, to) {
                Err(e) => Err(e),
                Ok(tt) => match scala_stmt_text(o, i1, body, false) {
                    Err(e) => Err(e),
                    Ok(b) => Ok("new "@ + scala_runtime_package() + ".Converter["@ + ft + ", "@ + tt + "] {\n"@
                        + tabs(i1) + "override def convert(prev: "@ + ft + "): "@ + tt + " = "@ + b
                        + tabs(ind) + "};\n"@),
                },
            },
        },
    }
}

/// Writes how an operation is carried out.
pub fn scala_write_impl(o: &ScalaOptions, out: &mut String, ind: usize, s: &LangExprStmt) -> (r: Result<(), GeneratorError>)
    ensures
        wrote(r, old(out)@, final(out)@, scala_impl_text(*o, ind as nat, s@)),
{
    let ghost before = out@;
    let i1 = deeper_exec(ind);
    match s {
        LangExprStmt::Expr(e) => {
            match scala_write_expr(o, out, e) {
                Ok(()) => {},
                Err(x) => return Err(x),
            }
            append_str(out, ";\n");
            assert(out@ =~= before + (ok_text(scala_expr_text(*o, e@)) + ";\n"@));
            Ok(())
        },
        LangExprStmt::CreateCodec { .. } => scala_write_codec_impl(o, out, ind, s),
        LangExprStmt::CreateConverter { .. } => scala_write_converter_impl(o, out, ind, s),
    }
}


/// Writes an anonymous codec of an operation.
#[verifier::spinoff_prover]
#[verifier::rlimit(80)]
fn scala_write_codec_impl(o: &ScalaOptions, out: &mut String, ind: usize, s: &LangExprStmt) -> (r: Result<(), GeneratorError>)
    requires
        s is CreateCodec,
    ensures
        wrote(r, old(out)@, final(out)@, scala_impl_text(*o, ind as nat, s@)),
{
    broadcast use lemma_add_assoc;
    let ghost before = out@;
    let i1 = deeper_exec(ind);
    match s {
        LangExprStmt::CreateCodec { t, read, write } => {
            append_str(out, "new ");
            append_str(out, scala_runtime_package_name());
            append_str(out, ".Codec[");
            match scala_write_type(o, out, t) {
                Ok(()) => {},
                Err(x) => return Err(x),
            }
            let ghost tt = ok_text(scala_type_text(*o, t@));
            append_str(out, "] {\n");
            write_indent(out, i1);
            append_str(out, "override def read[R, E](reader: ");
            append_str(out, scala_runtime_package_name());
            append_str(out, ".FormatReader[R, E]): zio.ZIO[R, E, ");
            let ghost p1 = "new "@ + scala_runtime_package() + ".Codec["@ + tt + "] {\n"@
                + tabs(i1 as nat) + "override def read[R, E](reader: "@ + scala_runtime_package() + ".FormatReader[R, E]): zio.ZIO[R, E, "@;
            assert(out@ == before + p1);
            match scala_write_type(o, out, t) {
                Ok(()) => {},
                Err(x) => {
                    assert(false);
                    return Err(x);
                },
            }
            append_str(out, "] = ");
            let ghost p2 = p1 + tt + "] = "@;
            assert(out@ == before + p2);
            match scala_write_statement(o, out, i1, read, true) {
                Ok(()) => {},
                Err(x) => return Err(x),
            }
            let ghost rt = ok_text(scala_stmt_text(*o, i1 as nat, (**read)@, true));
            write_indent(out, i1);
            append_str(out, "override def write[R, E](writer: ");
            append_str(out, scala_runtime_package_name());
            append_str(out, ".FormatWriter[R, E], value: ");
            let ghost p3 = p2 + rt + tabs(i1 as nat) + "override def write[R, E](writer: "@ + scala_runtime_package() + ".FormatWriter[R, E], value: "@;
            assert(out@ == before + p3);
            match scala_write_type(o, out, t) {
                Ok(()) => {},
                Err(x) => {
                    assert(false);
                    return Err(x);
                },
            }
            append_str(out, "): zio.ZIO[R, E, Unit] = ");
            let ghost p4 = p3 + tt + "): zio.ZIO[R, E, Unit] = "@;
            assert(out@ == before + p4);
            match scala_write_statement(o, out, i1, write, true) {
                Ok(()) => {},
                Err(x) => return Err(x),
            }
            let ghost wt = ok_text(scala_stmt_text(*o, i1 as nat, (**write)@, true));
            write_indent(out, ind);
            append_str(out, "}\n");
            assert(out@ == before + (p4 + wt + tabs(ind as nat) + "}\n"@));
            Ok(())
        },
        _ => {
            proof {
                assert(false);
            }
            Ok(())
        },
    }
}

/// Writes an anonymous converter of an operation.
#[verifier::spinoff_prover]
#[verifier::rlimit(40)]
fn scala_write_converter_impl(o: &ScalaOptions, out: &mut String, ind: usize, s: &LangExprStmt) -> (r: Result<(), GeneratorError>)
    requires
        s is CreateConverter,
    ensures
        wrote(r, old(out)@, final(out)@, scala_impl_text(*o, ind as nat, s@)),
{
    let ghost before = out@;
    let i1 = deeper_exec(ind);
    match s {
        LangExprStmt::CreateConverter { from_type, to_type, body } => {
            append_str(out, "new ");
            append_str(out, scala_runtime_package_name());
            append_str(out, ".Converter[");
            match scala_write_type(o, out, from_type) {
                Ok(()) => {},
                Err(x) => return Err(x),
            }
            let ghost ft = ok_text(scala_type_text(*o, from_type@));
            append_str(out, ", ");
            let ghost p1 = "new "@ + scala_runtime_package() + ".Converter["@ + ft + ", "@;
            assert(out@ =~= before + p1);
            match scala_write_type(o, out, to_type) {
                Ok(()) => {},
                Err(x) => return Err(x),
            }
            let ghost tt = ok_text(scala_type_text(*o, to_type@));
            append_str(out, "] {\n");
            write_indent(out, i1);
            append_str(out, "override def convert(prev: ");
            let ghost p2 = p1 + tt + "] {\n"@ + tabs(i1 as nat) + "override def convert(prev: "@;
            assert(out@ =~= before + p2);
            match scala_write_type(o, out, from_type) {
                Ok(()) => {},
                Err(x) => {
                    assert(false);
                    return Err(x);
                },
            }
            append_str(out, "): ");
            let ghost p3 = p2 + ft + "): "@;
            assert(out@ =~= before + p3);
            match scala_write_type(o, out, to_type) {
                Ok(()) => {},
                Err(x) => {
                    assert(false);
                    return Err(x);
                },
            }
            append_str(out, " = ");
            let ghost p4 = p3 + tt + " = "@;
            assert(out@ =~= before + p4);
            match scala_write_statement(o, out, i1, body, false) {
                Ok(()) => {},
                Err(x) => return Err(x),
            }
            let ghost bt = ok_text(scala_stmt_text(*o, i1 as nat, (**body)@, false));
            write_indent(out, ind);
            append_str(out, "};\n");
            assert(out@ =~= before + (p4 + bt + tabs(ind as nat) + "};\n"@));
            Ok(())
        },
        _ => {
            proof {
                assert(false);
            }
            Ok(())
        },
    }
}

/// Type parameters in square brackets; nothing when there are none.
pub open spec fn scala_type_params_text(ps: Seq<Seq<char>>) -> Seq<char> {
    if ps.len() == 0 {
        Seq::empty()
    } else {
        "["@ + names_joined(ps, ps.len()) + "]"@
    }
}

/// Writes type parameters in square brackets, if there are any.
pub fn scala_write_type_params(out: &mut String, ps: &Vec<String>)
    ensures
        final(out)@ == old(out)@ + scala_type_params_text(strings_view(ps@)),
{
    broadcast use lemma_add_assoc;
    if ps.len() > 0 {
        append_str(out, "[");
        write_names(out, ps);
        append_str(out, "]");
    } else {
        assert(out@ == old(out)@ + scala_type_params_text(strings_view(ps@)));
    }
}

/// The parameters `ps[..n]` of a method, each with its type, separated by
/// commas.
pub open spec fn scala_params_text(o: ScalaOptions, ps: Seq<(Seq<char>, LangTypeV)>, n: nat) -> Result<Seq<char>, GeneratorErrorV>
    decreases n,
{
    if n == 0 || n > ps.len() {
        Ok(Seq::empty())
    } else {
        match scala_params_text(o, ps, (n - 1) as nat) {
            Err(e) => Err(e),
            Ok(p) => match scala_type_text(o, ps[n - 1].1) {
                Err(e) => Err(e),
                Ok(t) => Ok(p + (if n == 1 { Seq::empty() } else { ", "@ }) + ps[n - 1].0 + ": "@ + t),
            },
        }
    }
}

/// Once the parameters before `k` fail, so do those before any later `n`.
proof fn lemma_scala_params_err(o: ScalaOptions, ps: Seq<(Seq<char>, LangTypeV)>, k: nat, n: nat)
    requires
        k <= n <= ps.len(),
        scala_params_text(o, ps, k) is Err,
    ensures
        scala_params_text(o, ps, n) == scala_params_text(o, ps, k),
    decreases n,
{
    if n > k {
        lemma_scala_params_err(o, ps, k, (n - 1) as nat);
    }
}

/// Writes the parameters of a method.
fn scala_write_params(o: &ScalaOptions, out: &mut String, ps: &Vec<(String, LangType)>) -> (r: Result<(), GeneratorError>)
    ensures
        wrote(r, old(out)@, final(out)@, scala_params_text(*o, type_args_view(ps@), ps@.len())),
{
    broadcast use lemma_add_assoc;
    let ghost pv = type_args_view(ps@);
    proof {
        lemma_type_args_view(ps@);
    }
    let ghost start = out@;
    let mut i: usize = 0;
    while i < ps.len()
        invariant
            i <= ps@.len(),
            pv == type_args_view(ps@),
            forall|j: int| 0 <= j < ps@.len() ==> #[trigger] pv[j] == (ps@[j].0@, ps@[j].1@),
            pv.len() == ps@.len(),
            scala_params_text(*o, pv, i as nat) is Ok,
            out@ == start + ok_text(scala_params_text(*o, pv, i as nat)),
        decreases ps@.len() - i,
    {
        if i > 0 {
            append_str(out, ", ");
        }
        append_str(out, ps[i].0.as_str());
        append_str(out, ": ");
        match scala_write_type(o, out, &ps[i].1) {
            Ok(()) => {},
            Err(x) => {
                proof {
                    lemma_scala_params_err(*o, pv, (i + 1) as nat, pv.len());
                }
                return Err(x);
            },
        }
        i = i + 1;
    }
    Ok(())
}

/// An operation as a member of a version's object at indentation `ind`: a
/// method (`def`) where it takes type parameters or parameters, else a
/// value (`val`).
pub open spec fn scala_operation_text(o: ScalaOptions, ind: nat, op: OperationInfoV) -> Result<Seq<char>, GeneratorErrorV> {
    let f = op.type_params.len() > 0 || op.params.len() > 0;
    let head = tabs(ind) + (if f { "def "@ } else { "val "@ }) + operation_name_text(op.operation) + scala_type_params_text(op.type_params);
    let ps = if f {
        match scala_params_text(o, op.params, op.params.len()) {
            Err(e) => Err(e),
            Ok(p) => Ok("("@ + p + ")"@),
        }
    } else {
        Ok(Seq::empty())
    };
    match ps {
        Err(e) => Err(e),
        Ok(p) => match scala_type_text(o, op.result) {
            Err(e) => Err(e),
            Ok(rt) => match scala_impl_text(o, ind, op.implementation) {
                Err(e) => Err(e),
                Ok(b) => Ok(head + p + ": "@ + rt + " = "@ + b),
            },
        },
    }
}

/// Writes an operation as a member of a version's object.
#[verifier::spinoff_prover]
pub fn scala_write_operation(o: &ScalaOptions, out: &mut String, ind: usize, op: &OperationInfo) -> (r: Result<(), GeneratorError>)
    ensures
        wrote(r, old(out)@, final(out)@, scala_operation_text(*o, ind as nat, op@)),
{
    broadcast use lemma_add_assoc;
    let ghost before = out@;
    proof {
        lemma_type_args_view(op.params@);
    }
    let f = op.type_params.len() > 0 || op.params.len() > 0;
    assert(op@.type_params.len() == op.type_params@.len());
    assert(op@.params.len() == op.params@.len());
    write_indent(out, ind);
    if f {
        append_str(out, "def ");
    } else {
        append_str(out, "val ");
    }
    write_operation_name(out, &op.operation);
    scala_write_type_params(out, &op.type_params);
    let ghost head = tabs(ind as nat) + (if f { "def "@ } else { "val "@ }) + operation_name_text(op@.operation)
        + scala_type_params_text(op@.type_params);
    assert(out@ == before + head);
    let ghost p: Seq<char>;
    if f {
        append_str(out, "(");
        match scala_write_params(o, out, &op.params) {
            Ok(()) => {},
            Err(x) => return Err(x),
        }
        append_str(out, ")");
        proof {
            p = "("@ + ok_text(scala_params_text(*o, op@.params, op@.params.len())) + ")"@;
        }
    } else {
        proof {
            p = Seq::empty();
        }
    }
    assert(out@ == before + (head + p));
    append_str(out, ": ");
    match scala_write_type(o, out, &op.result) {
        Ok(()) => {},
        Err(x) => return Err(x),
    }
    append_str(out, " = ");
    let ghost named = head + p + ": "@ + ok_text(scala_type_text(*o, op@.result)) + " = "@;
    assert(out@ == before + named);
    match scala_write_impl(o, out, ind, &op.implementation) {
        Ok(()) => {},
        Err(x) => return Err(x),
    }
    Ok(())
}

/// The operations `ops[..n]` as members at indentation `ind`.
pub open spec fn scala_ops_text(o: ScalaOptions, ind: nat, ops: Seq<OperationInfoV>, n: nat) -> Result<Seq<char>, GeneratorErrorV>
    decreases n,
{
    if n == 0 || n > ops.len() {
        Ok(Seq::empty())
    } else {
        match scala_ops_text(o, ind, ops, (n - 1) as nat) {
            Err(e) => Err(e),
            Ok(p) => match scala_operation_text(o, ind, ops[n - 1]) {
                Err(e) => Err(e),
                Ok(t) => Ok(p + t),
            },
        }
    }
}

/// Once the operations before `k` fail, so do those before any later `n`.
proof fn lemma_scala_ops_err(o: ScalaOptions, ind: nat, ops: Seq<OperationInfoV>, k: nat, n: nat)
    requires
        k <= n <= ops.len(),
        scala_ops_text(o, ind, ops, k) is Err,
    ensures
        scala_ops_text(o, ind, ops, n) == scala_ops_text(o, ind, ops, k),
    decreases n,
{
    if n > k {
        lemma_scala_ops_err(o, ind, ops, k, (n - 1) as nat);
    }
}

/// Writes operations as members.
pub(crate) fn scala_write_ops(o: &ScalaOptions, out: &mut String, ind: usize, ops: &Vec<OperationInfo>) -> (r: Result<(), GeneratorError>)
    ensures
        wrote(r, old(out)@, final(out)@, scala_ops_text(*o, ind as nat, ops_view(ops@), ops@.len())),
{
    let ghost ov = ops_view(ops@);
    let ghost start = out@;
    let mut i: usize = 0;
    while i < ops.len()
        invariant
            i <= ops@.len(),
            ov == ops_view(ops@),
            scala_ops_text(*o, ind as nat, ov, i as nat) is Ok,
            out@ == start + ok_text(scala_ops_text(*o, ind as nat, ov, i as nat)),
        decreases ops@.len() - i,
    {
        match scala_write_operation(o, out, ind, &ops[i]) {
            Ok(()) => {},
            Err(x) => {
                proof {
                    lemma_scala_ops_err(*o, ind as nat, ov, (i + 1) as nat, ov.len());
                }
                return Err(x);
            },
        }
        proof {
            lemma_add_assoc(start, ok_text(scala_ops_text(*o, ind as nat, ov, i as nat)), ok_text(scala_operation_text(*o, ind as nat, ov[i as int])));
        }
        i = i + 1;
    }
    Ok(())
}

/// The package clause of a file for the package `pkg`: none where its
/// Scala package is the root one.
pub open spec fn scala_package_clause(o: ScalaOptions, pkg: Seq<Seq<char>>) -> Result<Seq<char>, GeneratorErrorV> {
    match scala_package_spec(o, pkg) {
        Err(e) => Err(e),
        Ok(parts) => Ok(if parts.len() == 0 { Seq::empty() } else { "package "@ + dot_joined(parts, parts.len()) + "\n"@ }),
    }
}

/// Writes the package clause of a file for the package `pkg`.
pub(crate) fn scala_write_package(o: &ScalaOptions, out: &mut String, pkg: &PackageName) -> (r: Result<(), GeneratorError>)
    ensures
        wrote(r, old(out)@, final(out)@, scala_package_clause(*o, pkg@)),
{
    broadcast use lemma_add_assoc;
    let sp = match scala_package(o, pkg) {
        Ok(p) => p,
        Err(x) => return Err(x),
    };
    let parts = &sp.package;
    let ghost pv = strings_view(parts@);
    if parts.len() == 0 {
        return Ok(());
    }
    append_str(out, "package ");
    let ghost start = out@;
    let mut i: usize = 0;
    while i < parts.len()
        invariant
            i <= parts@.len(),
            pv == strings_view(parts@),
            out@ == start + dot_joined(pv, i as nat),
        decreases parts@.len() - i,
    {
        if i > 0 {
            append_str(out, ".");
        }
        append_str(out, parts[i].as_str());
        i = i + 1;
    }
    append_str(out, "\n");
    Ok(())
}

/// Effects are bound to names that tell them apart: the names given to any
/// two different effects of an expression differ.
pub proof fn lemma_io_names_distinct(j: nat, k: nat)
    ensures
        j != k ==> io_name(j) != io_name(k),
{
    lemma_decimal_text_injective(j, k);
    if io_name(j) == io_name(k) {
        let p = "value"@;
        assert(decimal_text(j) =~= io_name(j).skip(p.len() as int));
        assert(decimal_text(k) =~= io_name(k).skip(p.len() as int));
    }
}

/// Reading a struct whose fields are each read by a codec that needs no
/// effect of its own: the read of field `i` is the `i`-th effect taken out,
/// bound to the `i`-th name after the `k` effects before it, and the value
/// passed for field `i` is that name, the fields in order, separated by
/// ", ". With `lemma_io_names_distinct`, each field receives the value of its
/// own read.
pub proof fn lemma_struct_reads_in_order(o: ScalaOptions, fs: Seq<(Seq<char>, LangExprV)>, cts: Seq<Seq<char>>, k: nat, n: nat)
    requires
        n <= fs.len(),
        cts.len() == n,
        forall|i: int| 0 <= i < n ==> (#[trigger] fs[i].1 matches LangExprV::CodecRead(c)
            && io_gather(o, *c, k + i as nat) == Ok::<(Seq<char>, Seq<Seq<char>>), GeneratorErrorV>((cts[i], Seq::empty()))),
    ensures
        io_fields(o, fs, n, k) == Ok::<(Seq<char>, Seq<Seq<char>>), GeneratorErrorV>((
            joined_with(Seq::new(n, |i: int| io_name(k + i as nat)), ", "@),
            Seq::new(n, |i: int| cts[i] + ".read(reader)"@),
        )),
    decreases n,
{
    if n > 0 {
        let m = (n - 1) as nat;
        lemma_struct_reads_in_order(o, fs, cts.drop_last(), k, m);
        let op = cts[m as int] + ".read(reader)"@;
        lemma_gather_codec_read(o, fs[m as int].1, k + m, cts[m as int]);
        let names = Seq::new(n, |i: int| io_name(k + i as nat));
        let reads = Seq::new(n, |i: int| cts[i] + ".read(reader)"@);
        let names1 = Seq::new(m, |i: int| io_name(k + i as nat));
        let reads1 = Seq::new(m, |i: int| cts.drop_last()[i] + ".read(reader)"@);
        assert(names.drop_last() =~= names1);
        assert(reads1 + seq![op] =~= reads);
        assert(reads1.len() == m);
        if n == 1 {
            assert(joined_with(names, ", "@) == io_name(k + m));
        } else {
            assert(joined_with(names, ", "@) == joined_with(names1, ", "@) + ", "@ + io_name(k + m));
        }
    } else {
        assert(Seq::new(0, |i: int| cts[i] + ".read(reader)"@) =~= Seq::<Seq<char>>::empty());
    }
}

/// A codec read of a codec that needs no effect is one effect, bound to the
/// next name.
proof fn lemma_gather_codec_read(o: ScalaOptions, e: LangExprV, j: nat, ct: Seq<char>)
    requires
        e matches LangExprV::CodecRead(c) && io_gather(o, *c, j) == Ok::<(Seq<char>, Seq<Seq<char>>), GeneratorErrorV>((ct, Seq::empty())),
    ensures
        io_gather(o, e, j) == Ok::<(Seq<char>, Seq<Seq<char>>), GeneratorErrorV>((io_name(j), seq![ct + ".read(reader)"@])),
{
    assert(Seq::<Seq<char>>::empty().push(ct + ".read(reader)"@) =~= seq![ct + ".read(reader)"@]);
}

/// Type arguments are written each with its own text, in order, separated
/// by ", ".
pub proof fn lemma_scala_types_joined_each(o: ScalaOptions, xs: Seq<LangTypeV>, ts: Seq<Seq<char>>, n: nat)
    requires
        n <= xs.len(),
        ts.len() == n,
        forall|i: int| 0 <= i < n ==> scala_type_text(o, #[trigger] xs[i]) == Ok::<Seq<char>, GeneratorErrorV>(ts[i]),
    ensures
        scala_types_joined(o, xs, n) == Ok::<Seq<char>, GeneratorErrorV>(joined_with(Seq::new(n, |i: int| ts[i]), ", "@)),
    decreases n,
{
    if n > 0 {
        let m = (n - 1) as nat;
        assert(scala_type_text(o, xs[m as int]) == Ok::<Seq<char>, GeneratorErrorV>(ts[m as int]));
        lemma_scala_types_joined_each(o, xs, ts.drop_last(), m);
        let ys = Seq::new(n, |i: int| ts[i]);
        assert(ys.drop_last() =~= Seq::new(m, |i: int| ts.drop_last()[i]));
        let r = scala_types_joined(o, xs, n);
        assert(r is Ok);
        if n == 1 {
            assert(r->Ok_0 =~= ys[0]);
        } else {
            assert(r->Ok_0 =~= joined_with(ys, ", "@));
        }
    }
}

/// Arguments are written each with its own text, in order, separated by
/// ", ".
pub proof fn lemma_scala_exprs_joined_each(o: ScalaOptions, xs: Seq<LangExprV>, ts: Seq<Seq<char>>, n: nat)
    requires
        n <= xs.len(),
        ts.len() == n,
        forall|i: int| 0 <= i < n ==> scala_expr_text(o, #[trigger] xs[i]) == Ok::<Seq<char>, GeneratorErrorV>(ts[i]),
    ensures
        scala_exprs_joined(o, xs, n) == Ok::<Seq<char>, GeneratorErrorV>(joined_with(Seq::new(n, |i: int| ts[i]), ", "@)),
    decreases n,
{
    if n > 0 {
        let m = (n - 1) as nat;
        assert(scala_expr_text(o, xs[m as int]) == Ok::<Seq<char>, GeneratorErrorV>(ts[m as int]));
        lemma_scala_exprs_joined_each(o, xs, ts.drop_last(), m);
        let ys = Seq::new(n, |i: int| ts[i]);
        assert(ys.drop_last() =~= Seq::new(m, |i: int| ts.drop_last()[i]));
        let r = scala_exprs_joined(o, xs, n);
        assert(r is Ok);
        if n == 1 {
            assert(r->Ok_0 =~= ys[0]);
        } else {
            assert(r->Ok_0 =~= joined_with(ys, ", "@));
        }
    }
}

/// The values given to a struct's constructor are those of its fields, in
/// field order, each written as its own argument, separated by ", ".
pub proof fn lemma_scala_field_values_each(o: ScalaOptions, xs: Seq<(Seq<char>, LangExprV)>, ts: Seq<Seq<char>>, n: nat)
    requires
        n <= xs.len(),
        ts.len() == n,
        forall|i: int| 0 <= i < n ==> scala_expr_text(o, #[trigger] xs[i].1) == Ok::<Seq<char>, GeneratorErrorV>(ts[i]),
    ensures
        scala_field_values_joined(o, xs, n) == Ok::<Seq<char>, GeneratorErrorV>(joined_with(Seq::new(n, |i: int| ts[i]), ", "@)),
    decreases n,
{
    if n > 0 {
        let m = (n - 1) as nat;
        assert(scala_expr_text(o, xs[m as int].1) == Ok::<Seq<char>, GeneratorErrorV>(ts[m as int]));
        lemma_scala_field_values_each(o, xs, ts.drop_last(), m);
        let ys = Seq::new(n, |i: int| ts[i]);
        assert(ys.drop_last() =~= Seq::new(m, |i: int| ts.drop_last()[i]));
        let r = scala_field_values_joined(o, xs, n);
        assert(r is Ok);
        if n == 1 {
            assert(r->Ok_0 =~= ys[0]);
        } else {
            assert(r->Ok_0 =~= joined_with(ys, ", "@));
        }
    }
}

/// The line of a `for` comprehension that runs the `i`-th effect `op`: it
/// binds the effect's own name, or `_` where that name is not used.
pub open spec fn effect_binding(ind: nat, ign: Seq<Seq<char>>, op: Seq<char>, i: nat) -> Seq<char> {
    tabs(deeper(ind)) + (if ign.contains(io_name(i)) { "_"@ } else { io_name(i) }) + " <- "@ + op + "\n"@
}

/// A `for` comprehension runs the effects in order, one line each, the
/// `i`-th effect bound to the `i`-th name (with `lemma_io_names_distinct`,
/// no two effects share a name).
pub proof fn lemma_effect_lines_each(ind: nat, ign: Seq<Seq<char>>, ops: Seq<Seq<char>>, n: nat)
    requires
        n <= ops.len(),
    ensures
        effect_lines(ind, ign, ops, n) == joined_with(Seq::new(n, |i: int| effect_binding(ind, ign, ops[i], i as nat)), Seq::empty()),
    decreases n,
{
    if n > 0 {
        lemma_effect_lines_each(ind, ign, ops, (n - 1) as nat);
        let ys = Seq::new(n, |i: int| effect_binding(ind, ign, ops[i], i as nat));
        assert(ys.drop_last() =~= Seq::new((n - 1) as nat, |i: int| effect_binding(ind, ign, ops[i], i as nat)));
        if n == 1 {
            assert(effect_lines(ind, ign, ops, 0) == Seq::<char>::empty());
            assert(effect_lines(ind, ign, ops, 1) =~= ys[0]);
        } else {
            assert(effect_lines(ind, ign, ops, n) =~= joined_with(ys, Seq::empty()));
        }
    }
}

/// The `i`-th of the nested `flatMap`s that run effects: the `i`-th effect,
/// whose value is bound to the `i`-th name.
pub open spec fn flat_map_step(ind: nat, op: Seq<char>, i: nat) -> Seq<char> {
    op + ".flatMap { "@ + io_name(i) + " =>\n"@ + tabs(deeper_by(ind, i + 1))
}

/// Nested `flatMap`s run the effects in order, the `i`-th effect bound to the
/// `i`-th name.
pub proof fn lemma_flat_maps_each(ind: nat, ops: Seq<Seq<char>>, n: nat)
    requires
        n <= ops.len(),
    ensures
        flat_maps(ind, ops, n) == joined_with(Seq::new(n, |i: int| flat_map_step(ind, ops[i], i as nat)), Seq::empty()),
    decreases n,
{
    if n > 0 {
        lemma_flat_maps_each(ind, ops, (n - 1) as nat);
        let ys = Seq::new(n, |i: int| flat_map_step(ind, ops[i], i as nat));
        assert(ys.drop_last() =~= Seq::new((n - 1) as nat, |i: int| flat_map_step(ind, ops[i], i as nat)));
        if n == 1 {
            assert(flat_maps(ind, ops, 0) == Seq::<char>::empty());
            assert(flat_maps(ind, ops, 1) =~= ys[0]);
        } else {
            assert(flat_maps(ind, ops, n) =~= joined_with(ys, Seq::empty()));
        }
    }
}


/// The parameters of a method are written in order, each as its own name
/// and the text of its own type, separated by ", ".
pub proof fn lemma_scala_params_each(o: ScalaOptions, xs: Seq<(Seq<char>, LangTypeV)>, ts: Seq<Seq<char>>, n: nat)
    requires
        n <= xs.len(),
        ts.len() == n,
        forall|i: int| 0 <= i < n ==> scala_type_text(o, #[trigger] xs[i].1) == Ok::<Seq<char>, GeneratorErrorV>(ts[i]),
    ensures
        scala_params_text(o, xs, n) == Ok::<Seq<char>, GeneratorErrorV>(joined_with(Seq::new(n, |i: int| xs[i].0 + ": "@ + ts[i]), ", "@)),
    decreases n,
{
    if n > 0 {
        let m = (n - 1) as nat;
        assert(scala_type_text(o, xs[m as int].1) == Ok::<Seq<char>, GeneratorErrorV>(ts[m as int]));
        lemma_scala_params_each(o, xs, ts.drop_last(), m);
        let ys = Seq::new(n, |i: int| xs[i].0 + ": "@ + ts[i]);
        assert(ys.drop_last() =~= Seq::new(m, |i: int| xs[i].0 + ": "@ + ts.drop_last()[i]));
        let r = scala_params_text(o, xs, n);
        assert(r is Ok);
        if n == 1 {
            assert(r->Ok_0 =~= ys[0]);
        } else {
            assert(r->Ok_0 =~= joined_with(ys, ", "@));
        }
    }
}

} // verus!

