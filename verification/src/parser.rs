//! Reads model files: each reader here does what the function of the same
//! shape in `grammar` says, on the characters of the text.
use vstd::prelude::*;
use crate::bignum::BigNat;
use crate::names::{PackageName, QualifiedName, strings_view, lemma_strings_view_push};
use crate::model::{Type, FieldInfo, ConstantValue, ExternLiteralSpecifier, ExternLiteralIntBound};
use crate::ast::{constant_versions_view, type_versions_view, literals_view, definitions_view, type_view, types_view, value_view, values_view, record_view, fields_view, literal_view, definition_view, file_view, Definition, ModelFile, lemma_types_view_push, lemma_values_view_push, lemma_record_view_push};
use crate::lexer::{symbol_spec, identifier_exec, keyword_exec, symbol_exec, tag_exec, biguint_exec, bigint_exec, string_exec, skip_space_exec};
use crate::grammar::{bound_of, integer_literal_syntax, record_literal_syntax, case_or_record_literal_syntax, literal_body_syntax, literal_syntax, literals_syntax, literal_block_syntax, extern_type_syntax, definition_syntax, definitions_syntax, package_syntax, model_file_syntax, versioned_value_syntax, versioned_values_syntax, constant_syntax, field_syntax, fields_syntax, type_version_syntax, type_versions_syntax, opt_type_params_syntax, versioned_type_syntax, value_syntax, value_list_syntax, value_list_rest, sequence_value_syntax, case_value_syntax, record_value_syntax, record_fields_syntax, ident_list_rest, dotted_name_syntax, type_expr_syntax, type_list_syntax, type_list_rest, type_args_syntax};

verus! {

/// Reads more identifiers, each after the separator `sep`.
fn ident_list_rest_exec(s: &Vec<char>, p: usize, sep: char, init: Vec<String>) -> (r: (Vec<String>, usize))
    requires
        p <= s@.len(),
    ensures
        ident_list_rest(s@, p as int, sep, strings_view(init@)) == (strings_view(r.0@), r.1 as int),
        p <= r.1 <= s@.len(),
        r.0@.len() >= init@.len(),
{
    let ghost start = ident_list_rest(s@, p as int, sep, strings_view(init@));
    let ghost n0 = init@.len();
    let mut acc = init;
    let mut q = p;
    loop
        invariant
            p <= q <= s@.len(),
            n0 == init@.len(),
            acc@.len() >= n0,
            start == ident_list_rest(s@, p as int, sep, strings_view(init@)),
            start == ident_list_rest(s@, q as int, sep, strings_view(acc@)),
        decreases s@.len() - q,
    {
        match symbol_exec(s, q, sep) {
            None => return (acc, q),
            Some(q1) => match identifier_exec(s, q1) {
                None => return (acc, q),
                Some((w, q2)) => {
                    proof {
                        lemma_strings_view_push(acc@, w);
                    }
                    acc.push(w);
                    q = q2;
                },
            },
        }
    }
}

/// Reads a dotted name.
fn dotted_name_exec(s: &Vec<char>, p: usize) -> (r: Option<(QualifiedName, usize)>)
    requires
        p <= s@.len(),
    ensures
        match dotted_name_syntax(s@, p as int) {
            None => r is None,
            Some((n, q)) => r matches Some((rn, rq)) && rn@ == n && rq == q,
        },
        r matches Some((_, q)) ==> p < q <= s@.len(),
{
    match identifier_exec(s, p) {
        None => None,
        Some((first, q)) => {
            let mut v: Vec<String> = Vec::new();
            v.push(first);
            assert(strings_view(v@) =~= seq![first@]);
            let (mut parts, q2) = ident_list_rest_exec(s, q, '.', v);
            let ghost full = parts@;
            let name = parts.pop().unwrap();
            assert(strings_view(parts@) =~= strings_view(full).drop_last());
            Some((QualifiedName { package: PackageName { package: parts }, name }, q2))
        },
    }
}

/// Reads a type.
fn type_expr_exec(s: &Vec<char>, p: usize) -> (r: Option<(Type, usize)>)
    requires
        p <= s@.len(),
    ensures
        match type_expr_syntax(s@, p as int) {
            None => r is None,
            Some((tv, q)) => r matches Some((t, rq)) && type_view(t) == tv && rq == q,
        },
        r matches Some((_, q)) ==> p < q <= s@.len(),
    decreases s@.len() - p, 0nat,
{
    match dotted_name_exec(s, p) {
        None => None,
        Some((name, q)) => match type_args_exec(s, q) {
            Some((args, q2)) => Some((Type { name, args }, q2)),
            None => {
                let args: Vec<Type> = Vec::new();
                assert(types_view(args@) =~= Seq::empty());
                Some((Type { name, args }, q))
            },
        },
    }
}

/// Reads one or more types separated by commas.
fn type_list_exec(s: &Vec<char>, p: usize) -> (r: Option<(Vec<Type>, usize)>)
    requires
        p <= s@.len(),
    ensures
        match type_list_syntax(s@, p as int) {
            None => r is None,
            Some((tvs, q)) => r matches Some((ts, rq)) && types_view(ts@) == tvs && rq == q,
        },
        r matches Some((_, q)) ==> p < q <= s@.len(),
    decreases s@.len() - p, 1nat,
{
    match type_expr_exec(s, p) {
        None => None,
        Some((t, q0)) => {
            let mut acc: Vec<Type> = Vec::new();
            proof {
                lemma_types_view_push(acc@, t);
            }
            acc.push(t);
            assert(types_view(acc@) =~= seq![types_view(acc@)[0]]);
            let ghost start = type_list_rest(s@, q0 as int, types_view(acc@));
            let mut q = q0;
            loop
                invariant
                    p < q <= s@.len(),
                    type_list_syntax(s@, p as int) == Some(start),
                    q0 <= q,
                    start == type_list_rest(s@, q as int, types_view(acc@)),
                decreases s@.len() - q,
            {
                match symbol_exec(s, q, ',') {
                    None => return Some((acc, q)),
                    Some(q1) => match type_expr_exec(s, q1) {
                        None => return Some((acc, q)),
                        Some((t2, q2)) => {
                            proof {
                                lemma_types_view_push(acc@, t2);
                            }
                            acc.push(t2);
                            q = q2;
                        },
                    },
                }
            }
        },
    }
}

/// Reads type arguments in parentheses.
fn type_args_exec(s: &Vec<char>, p: usize) -> (r: Option<(Vec<Type>, usize)>)
    requires
        p <= s@.len(),
    ensures
        match type_args_syntax(s@, p as int) {
            None => r is None,
            Some((tvs, q)) => r matches Some((ts, rq)) && types_view(ts@) == tvs && rq == q,
        },
        r matches Some((_, q)) ==> p < q <= s@.len(),
    decreases s@.len() - p, 3nat,
{
    match symbol_exec(s, p, '(') {
        None => None,
        Some(q) => match type_list_exec(s, q) {
            None => None,
            Some((ts, q2)) => match symbol_exec(s, q2, ')') {
                Some(q3) => Some((ts, q3)),
                None => None,
            },
        },
    }
}

/// Reads a constant value.
fn value_exec(s: &Vec<char>, p: usize) -> (r: Option<(ConstantValue, usize)>)
    requires
        p <= s@.len(),
    ensures
        match value_syntax(s@, p as int) {
            None => r is None,
            Some((vv, q)) => r matches Some((v, rq)) && value_view(v) == vv && rq == q,
        },
        r matches Some((_, q)) ==> p < q <= s@.len(),
    decreases s@.len() - p, 5nat,
{
    if let Some((n, q)) = bigint_exec(s, p) {
        return Some((ConstantValue::Integer(n), q));
    }
    if let Some((w, q)) = string_exec(s, p) {
        return Some((ConstantValue::String(w), q));
    }
    if let Some(r) = sequence_value_exec(s, p) {
        return Some(r);
    }
    if let Some(r) = case_value_exec(s, p) {
        return Some(r);
    }
    if let Some(r) = record_value_exec(s, p) {
        return Some(r);
    }
    match dotted_name_exec(s, p) {
        Some((n, q)) => Some((ConstantValue::Constant(n), q)),
        None => None,
    }
}

/// Reads one or more values separated by commas.
fn value_list_exec(s: &Vec<char>, p: usize) -> (r: Option<(Vec<ConstantValue>, usize)>)
    requires
        p <= s@.len(),
    ensures
        match value_list_syntax(s@, p as int) {
            None => r is None,
            Some((vvs, q)) => r matches Some((vs, rq)) && values_view(vs@) == vvs && rq == q,
        },
        r matches Some((_, q)) ==> p < q <= s@.len(),
    decreases s@.len() - p, 6nat,
{
    match value_exec(s, p) {
        None => None,
        Some((v, q0)) => {
            let mut acc: Vec<ConstantValue> = Vec::new();
            proof {
                lemma_values_view_push(acc@, v);
            }
            acc.push(v);
            assert(values_view(acc@) =~= seq![values_view(acc@)[0]]);
            let ghost start = value_list_rest(s@, q0 as int, values_view(acc@));
            let mut q = q0;
            loop
                invariant
                    p < q <= s@.len(),
                    q0 <= q,
                    value_list_syntax(s@, p as int) == Some(start),
                    start == value_list_rest(s@, q as int, values_view(acc@)),
                decreases s@.len() - q,
            {
                match symbol_exec(s, q, ',') {
                    None => return Some((acc, q)),
                    Some(q1) => match value_exec(s, q1) {
                        None => return Some((acc, q)),
                        Some((v2, q2)) => {
                            proof {
                                lemma_values_view_push(acc@, v2);
                            }
                            acc.push(v2);
                            q = q2;
                        },
                    },
                }
            }
        },
    }
}

/// Reads a sequence value.
fn sequence_value_exec(s: &Vec<char>, p: usize) -> (r: Option<(ConstantValue, usize)>)
    requires
        p <= s@.len(),
    ensures
        match sequence_value_syntax(s@, p as int) {
            None => r is None,
            Some((vv, q)) => r matches Some((v, rq)) && value_view(v) == vv && rq == q,
        },
        r matches Some((_, q)) ==> p < q <= s@.len(),
    decreases s@.len() - p, 4nat,
{
    let q = match symbol_exec(s, p, '[') {
        None => return None,
        Some(q) => q,
    };
    let (vs, q2) = match value_list_exec(s, q) {
        None => {
            let vs: Vec<ConstantValue> = Vec::new();
            assert(values_view(vs@) =~= Seq::empty());
            (vs, q)
        },
        Some((vs, q1)) => match symbol_exec(s, q1, ',') {
            Some(q1b) => (vs, q1b),
            None => (vs, q1),
        },
    };
    match symbol_exec(s, q2, ']') {
        Some(q3) => Some((ConstantValue::Sequence(vs), q3)),
        None => None,
    }
}

/// Reads a case value.
fn case_value_exec(s: &Vec<char>, p: usize) -> (r: Option<(ConstantValue, usize)>)
    requires
        p <= s@.len(),
    ensures
        match case_value_syntax(s@, p as int) {
            None => r is None,
            Some((vv, q)) => r matches Some((v, rq)) && value_view(v) == vv && rq == q,
        },
        r matches Some((_, q)) ==> p < q <= s@.len(),
    decreases s@.len() - p, 4nat,
{
    let (n, q) = match identifier_exec(s, p) {
        None => return None,
        Some(r) => r,
    };
    let q1 = match symbol_exec(s, q, '(') {
        None => return None,
        Some(q1) => q1,
    };
    let (args, q2) = match value_list_exec(s, q1) {
        None => {
            let vs: Vec<ConstantValue> = Vec::new();
            assert(values_view(vs@) =~= Seq::empty());
            (vs, q1)
        },
        Some(r) => r,
    };
    match symbol_exec(s, q2, ')') {
        Some(q3) => Some((ConstantValue::Case(n, args), q3)),
        None => None,
    }
}

/// Reads a record value.
fn record_value_exec(s: &Vec<char>, p: usize) -> (r: Option<(ConstantValue, usize)>)
    requires
        p <= s@.len(),
    ensures
        match record_value_syntax(s@, p as int) {
            None => r is None,
            Some((vv, q)) => r matches Some((v, rq)) && value_view(v) == vv && rq == q,
        },
        r matches Some((_, q)) ==> p < q <= s@.len(),
    decreases s@.len() - p, 4nat,
{
    let q0 = match symbol_exec(s, p, '{') {
        None => return None,
        Some(q) => q,
    };
    let mut fs: Vec<(String, ConstantValue)> = Vec::new();
    assert(record_view(fs@) =~= Seq::empty());
    let ghost start = record_fields_syntax(s@, q0 as int, Seq::empty());
    let mut q = q0;
    loop
        invariant
            p < q0 <= q <= s@.len(),
            symbol_spec(s@, p as int, '{') == Some(q0 as int),
            start == record_fields_syntax(s@, q0 as int, Seq::empty()),
            start == record_fields_syntax(s@, q as int, record_view(fs@)),
        ensures
            p < q0 <= q <= s@.len(),
            symbol_spec(s@, p as int, '{') == Some(q0 as int),
            start == record_fields_syntax(s@, q0 as int, Seq::empty()),
            start == (record_view(fs@), q as int),
        decreases s@.len() - q,
    {
        let (n, q1) = match identifier_exec(s, q) {
            None => break,
            Some(r) => r,
        };
        let q2 = match symbol_exec(s, q1, '=') {
            None => break,
            Some(q2) => q2,
        };
        let (v, q3) = match value_exec(s, q2) {
            None => break,
            Some(r) => r,
        };
        let q4 = match symbol_exec(s, q3, ';') {
            None => break,
            Some(q4) => q4,
        };
        proof {
            lemma_record_view_push(fs@, (n, v));
        }
        fs.push((n, v));
        q = q4;
    }
    match symbol_exec(s, q, '}') {
        Some(q5) => Some((ConstantValue::Record(fs), q5)),
        None => None,
    }
}

/// Reads `version N = value;`.
fn versioned_value_exec(s: &Vec<char>, p: usize) -> (r: Option<((BigNat, ConstantValue), usize)>)
    requires
        p <= s@.len(),
    ensures
        match versioned_value_syntax(s@, p as int) {
            None => r is None,
            Some((e, q)) => r matches Some((re, rq)) && (re.0@, value_view(re.1)) == e && rq == q,
        },
        r matches Some((_, q)) ==> p < q <= s@.len(),
{
    let q1 = match keyword_exec(s, p, "version") {
        None => return None,
        Some(q) => q,
    };
    let (n, q2) = match biguint_exec(s, q1) {
        None => return None,
        Some(r) => r,
    };
    let q3 = match symbol_exec(s, q2, '=') {
        None => return None,
        Some(q) => q,
    };
    let (v, q4) = match value_exec(s, q3) {
        None => return None,
        Some(r) => r,
    };
    match symbol_exec(s, q4, ';') {
        None => None,
        Some(q5) => Some(((n, v), q5)),
    }
}

/// Reads `version N = value;` entries.
fn versioned_values_exec(s: &Vec<char>, p: usize) -> (r: (Vec<(BigNat, ConstantValue)>, usize))
    requires
        p <= s@.len(),
    ensures
        versioned_values_syntax(s@, p as int, Seq::empty()) == (constant_versions_view(r.0@), r.1 as int),
        p <= r.1 <= s@.len(),
{
    let mut acc: Vec<(BigNat, ConstantValue)> = Vec::new();
    assert(constant_versions_view(acc@) =~= Seq::empty());
    let mut q = p;
    loop
        invariant
            p <= q <= s@.len(),
            versioned_values_syntax(s@, p as int, Seq::empty()) == versioned_values_syntax(s@, q as int, constant_versions_view(acc@)),
        decreases s@.len() - q,
    {
        match versioned_value_exec(s, q) {
            None => return (acc, q),
            Some((e, q2)) => {
                assert(constant_versions_view(acc@.push(e)) =~= constant_versions_view(acc@).push((e.0@, value_view(e.1))));
                acc.push(e);
                q = q2;
            },
        }
    }
}

/// Reads `const name: Type { ... }`.
fn constant_exec(s: &Vec<char>, p: usize) -> (r: Option<(Definition, usize)>)
    requires
        p <= s@.len(),
    ensures
        match constant_syntax(s@, p as int) {
            None => r is None,
            Some((d, q)) => r matches Some((rd, rq)) && definition_view(rd) == d && rq == q,
        },
        r matches Some((_, q)) ==> p < q <= s@.len(),
{
    let q1 = match keyword_exec(s, p, "const") {
        None => return None,
        Some(q) => q,
    };
    let (n, q2) = match identifier_exec(s, q1) {
        None => return None,
        Some(r) => r,
    };
    let q3 = match symbol_exec(s, q2, ':') {
        None => return None,
        Some(q) => q,
    };
    let (t, q4) = match type_expr_exec(s, q3) {
        None => return None,
        Some(r) => r,
    };
    let q5 = match symbol_exec(s, q4, '{') {
        None => return None,
        Some(q) => q,
    };
    let (vs, q6) = versioned_values_exec(s, q5);
    match symbol_exec(s, q6, '}') {
        None => None,
        Some(q7) => Some((Definition::Constant(n, t, vs), q7)),
    }
}

/// Reads `name: Type;`.
fn field_exec(s: &Vec<char>, p: usize) -> (r: Option<((String, FieldInfo), usize)>)
    requires
        p <= s@.len(),
    ensures
        match field_syntax(s@, p as int) {
            None => r is None,
            Some((f, q)) => r matches Some((rf, rq)) && (rf.0@, type_view(rf.1.field_type)) == f && rq == q,
        },
        r matches Some((_, q)) ==> p < q <= s@.len(),
{
    let (n, q1) = match identifier_exec(s, p) {
        None => return None,
        Some(r) => r,
    };
    let q2 = match symbol_exec(s, q1, ':') {
        None => return None,
        Some(q) => q,
    };
    let (t, q3) = match type_expr_exec(s, q2) {
        None => return None,
        Some(r) => r,
    };
    match symbol_exec(s, q3, ';') {
        None => None,
        Some(q4) => Some(((n, FieldInfo { field_type: t }), q4)),
    }
}

/// Reads fields.
fn fields_exec(s: &Vec<char>, p: usize) -> (r: (Vec<(String, FieldInfo)>, usize))
    requires
        p <= s@.len(),
    ensures
        fields_syntax(s@, p as int, Seq::empty()) == (fields_view(r.0@), r.1 as int),
        p <= r.1 <= s@.len(),
{
    let mut acc: Vec<(String, FieldInfo)> = Vec::new();
    assert(fields_view(acc@) =~= Seq::empty());
    let mut q = p;
    loop
        invariant
            p <= q <= s@.len(),
            fields_syntax(s@, p as int, Seq::empty()) == fields_syntax(s@, q as int, fields_view(acc@)),
        decreases s@.len() - q,
    {
        match field_exec(s, q) {
            None => return (acc, q),
            Some((f, q2)) => {
                assert(fields_view(acc@.push(f)) =~= fields_view(acc@).push((f.0@, type_view(f.1.field_type))));
                acc.push(f);
                q = q2;
            },
        }
    }
}

/// Reads `version N { fields }`.
fn type_version_exec(s: &Vec<char>, p: usize) -> (r: Option<((BigNat, Vec<(String, FieldInfo)>), usize)>)
    requires
        p <= s@.len(),
    ensures
        match type_version_syntax(s@, p as int) {
            None => r is None,
            Some((v, q)) => r matches Some((rv, rq)) && (rv.0@, fields_view(rv.1@)) == v && rq == q,
        },
        r matches Some((_, q)) ==> p < q <= s@.len(),
{
    let q1 = match keyword_exec(s, p, "version") {
        None => return None,
        Some(q) => q,
    };
    let (n, q2) = match biguint_exec(s, q1) {
        None => return None,
        Some(r) => r,
    };
    let q3 = match symbol_exec(s, q2, '{') {
        None => return None,
        Some(q) => q,
    };
    let (fs, q4) = fields_exec(s, q3);
    match symbol_exec(s, q4, '}') {
        None => None,
        Some(q5) => Some(((n, fs), q5)),
    }
}

/// Reads type versions.
fn type_versions_exec(s: &Vec<char>, p: usize) -> (r: (Vec<(BigNat, Vec<(String, FieldInfo)>)>, usize))
    requires
        p <= s@.len(),
    ensures
        type_versions_syntax(s@, p as int, Seq::empty()) == (type_versions_view(r.0@), r.1 as int),
        p <= r.1 <= s@.len(),
{
    let mut acc: Vec<(BigNat, Vec<(String, FieldInfo)>)> = Vec::new();
    assert(type_versions_view(acc@) =~= Seq::empty());
    let mut q = p;
    loop
        invariant
            p <= q <= s@.len(),
            type_versions_syntax(s@, p as int, Seq::empty()) == type_versions_syntax(s@, q as int, type_versions_view(acc@)),
        decreases s@.len() - q,
    {
        match type_version_exec(s, q) {
            None => return (acc, q),
            Some((v, q2)) => {
                assert(type_versions_view(acc@.push(v)) =~= type_versions_view(acc@).push((v.0@, fields_view(v.1@))));
                acc.push(v);
                q = q2;
            },
        }
    }
}

/// Reads optional type parameters.
fn opt_type_params_exec(s: &Vec<char>, p: usize) -> (r: (Vec<String>, usize))
    requires
        p <= s@.len(),
    ensures
        opt_type_params_syntax(s@, p as int) == (strings_view(r.0@), r.1 as int),
        p <= r.1 <= s@.len(),
{
    let none: Vec<String> = Vec::new();
    assert(strings_view(none@) =~= Seq::empty());
    let q1 = match symbol_exec(s, p, '<') {
        None => return (none, p),
        Some(q) => q,
    };
    let (first, q2) = match identifier_exec(s, q1) {
        None => return (none, p),
        Some(r) => r,
    };
    let mut v: Vec<String> = Vec::new();
    v.push(first);
    assert(strings_view(v@) =~= seq![first@]);
    let (ps, q3) = ident_list_rest_exec(s, q2, ',', v);
    match symbol_exec(s, q3, '>') {
        None => (none, p),
        Some(q4) => (ps, q4),
    }
}

/// Reads `[final] struct|enum Name<params> { versions }`.
fn versioned_type_exec(s: &Vec<char>, p: usize) -> (r: Option<(Definition, usize)>)
    requires
        p <= s@.len(),
    ensures
        match versioned_type_syntax(s@, p as int) {
            None => r is None,
            Some((d, q)) => r matches Some((rd, rq)) && definition_view(rd) == d && rq == q,
        },
        r matches Some((_, q)) ==> p < q <= s@.len(),
{
    let (is_final, p1) = match keyword_exec(s, p, "final") {
        Some(q) => (true, q),
        None => (false, p),
    };
    let (is_enum, p2) = match keyword_exec(s, p1, "enum") {
        Some(q) => (true, q),
        None => match keyword_exec(s, p1, "struct") {
            Some(q) => (false, q),
            None => return None,
        },
    };
    let (n, p3) = match identifier_exec(s, p2) {
        None => return None,
        Some(r) => r,
    };
    let (ps, p4) = opt_type_params_exec(s, p3);
    let p5 = match symbol_exec(s, p4, '{') {
        None => return None,
        Some(q) => q,
    };
    let (vs, p6) = type_versions_exec(s, p5);
    match symbol_exec(s, p6, '}') {
        None => None,
        Some(p7) => Some((Definition::Versioned(is_final, is_enum, n, ps, vs), p7)),
    }
}

/// The bound that a bracket stands for.
fn bound_of_exec(c: char) -> (r: ExternLiteralIntBound)
    ensures
        r == bound_of(c),
{
    if c == '(' || c == ')' {
        ExternLiteralIntBound::Exclusive
    } else {
        ExternLiteralIntBound::Inclusive
    }
}

/// Reads an integer literal specifier.
fn integer_literal_exec(s: &Vec<char>, p: usize) -> (r: Option<(ExternLiteralSpecifier, usize)>)
    requires
        p <= s@.len(),
    ensures
        match integer_literal_syntax(s@, p as int) {
            None => r is None,
            Some((l, q)) => r matches Some((rl, rq)) && literal_view(rl) == l && rq == q,
        },
        r matches Some((_, q)) ==> p <= q <= s@.len(),
{
    let q1 = match tag_exec(s, p, "integer") {
        None => return None,
        Some(q) => q,
    };
    let a = skip_space_exec(s, q1);
    if !(a < s.len() && (s[a] == '[' || s[a] == '(')) {
        return None;
    }
    let b = skip_space_exec(s, a + 1);
    let (lo, q2) = match bigint_exec(s, b) {
        Some((n, q)) => (Some(n), q),
        None => (None, b),
    };
    let q3 = match symbol_exec(s, q2, ',') {
        None => return None,
        Some(q) => q,
    };
    let (hi, q4) = match bigint_exec(s, q3) {
        Some((n, q)) => (Some(n), q),
        None => (None, q3),
    };
    let c = skip_space_exec(s, q4);
    if !(c < s.len() && (s[c] == ']' || s[c] == ')')) {
        return None;
    }
    Some((ExternLiteralSpecifier::Integer(bound_of_exec(s[a]), lo, bound_of_exec(s[c]), hi), c + 1))
}

/// Reads a record literal specifier.
fn record_literal_exec(s: &Vec<char>, p: usize) -> (r: Option<(ExternLiteralSpecifier, usize)>)
    requires
        p <= s@.len(),
    ensures
        match record_literal_syntax(s@, p as int) {
            None => r is None,
            Some((l, q)) => r matches Some((rl, rq)) && literal_view(rl) == l && rq == q,
        },
        r matches Some((_, q)) ==> p <= q <= s@.len(),
{
    let q1 = match tag_exec(s, p, "record") {
        None => return None,
        Some(q) => q,
    };
    let q2 = match symbol_exec(s, q1, '{') {
        None => return None,
        Some(q) => q,
    };
    let (fs, q3) = fields_exec(s, q2);
    match symbol_exec(s, q3, '}') {
        None => None,
        Some(q4) => Some((ExternLiteralSpecifier::Record(fs), q4)),
    }
}

/// Reads a case literal specifier, or else a record literal specifier.
fn case_or_record_literal_exec(s: &Vec<char>, p: usize) -> (r: Option<(ExternLiteralSpecifier, usize)>)
    requires
        p <= s@.len(),
    ensures
        match case_or_record_literal_syntax(s@, p as int) {
            None => r is None,
            Some((l, q)) => r matches Some((rl, rq)) && literal_view(rl) == l && rq == q,
        },
        r matches Some((_, q)) ==> p <= q <= s@.len(),
{
    let q1 = match tag_exec(s, p, "case") {
        None => return record_literal_exec(s, p),
        Some(q) => q,
    };
    let (n, q2) = match identifier_exec(s, q1) {
        None => return record_literal_exec(s, p),
        Some(r) => r,
    };
    let q3 = match symbol_exec(s, q2, '(') {
        None => return record_literal_exec(s, p),
        Some(q) => q,
    };
    let (ts, q4) = match type_list_exec(s, q3) {
        Some(r) => r,
        None => {
            let ts: Vec<Type> = Vec::new();
            assert(types_view(ts@) =~= Seq::empty());
            (ts, q3)
        },
    };
    match symbol_exec(s, q4, ')') {
        Some(q5) => Some((ExternLiteralSpecifier::Case(n, ts), q5)),
        None => record_literal_exec(s, p),
    }
}

/// Reads one literal specifier, without its semicolon.
fn literal_body_exec(s: &Vec<char>, p: usize) -> (r: Option<(ExternLiteralSpecifier, usize)>)
    requires
        p <= s@.len(),
    ensures
        match literal_body_syntax(s@, p as int) {
            None => r is None,
            Some((l, q)) => r matches Some((rl, rq)) && literal_view(rl) == l && rq == q,
        },
        r matches Some((_, q)) ==> p <= q <= s@.len(),
{
    if let Some(r) = integer_literal_exec(s, p) {
        return Some(r);
    }
    if let Some(q) = tag_exec(s, p, "string") {
        return Some((ExternLiteralSpecifier::String, q));
    }
    match tag_exec(s, p, "sequence") {
        Some(q) => {
            let q1 = skip_space_exec(s, q);
            if q1 > q {
                match type_expr_exec(s, q1) {
                    Some((t, q2)) => Some((ExternLiteralSpecifier::Sequence(t), q2)),
                    None => case_or_record_literal_exec(s, p),
                }
            } else {
                case_or_record_literal_exec(s, p)
            }
        },
        None => case_or_record_literal_exec(s, p),
    }
}

/// Reads one literal specifier and its semicolon.
fn literal_exec(s: &Vec<char>, p: usize) -> (r: Option<(ExternLiteralSpecifier, usize)>)
    requires
        p <= s@.len(),
    ensures
        match literal_syntax(s@, p as int) {
            None => r is None,
            Some((l, q)) => r matches Some((rl, rq)) && literal_view(rl) == l && rq == q,
        },
        r matches Some((_, q)) ==> p < q <= s@.len(),
{
    let (l, q) = match literal_body_exec(s, p) {
        None => return None,
        Some(r) => r,
    };
    match symbol_exec(s, q, ';') {
        None => None,
        Some(q2) => Some((l, q2)),
    }
}

/// Reads `literal { literals }`.
fn literal_block_exec(s: &Vec<char>, p: usize) -> (r: Option<(Vec<ExternLiteralSpecifier>, usize)>)
    requires
        p <= s@.len(),
    ensures
        match literal_block_syntax(s@, p as int) {
            None => r is None,
            Some((ls, q)) => r matches Some((rl, rq)) && literals_view(rl@) == ls && rq == q,
        },
        r matches Some((_, q)) ==> p < q <= s@.len(),
{
    let q1 = match keyword_exec(s, p, "literal") {
        None => return None,
        Some(q) => q,
    };
    let q2 = match symbol_exec(s, q1, '{') {
        None => return None,
        Some(q) => q,
    };
    let mut acc: Vec<ExternLiteralSpecifier> = Vec::new();
    assert(literals_view(acc@) =~= Seq::empty());
    let mut q = q2;
    loop
        invariant
            p < q2 <= q <= s@.len(),
            literal_block_syntax(s@, p as int) == match symbol_spec(s@, literals_syntax(s@, q2 as int, Seq::empty()).1, '}') {
                None => None,
                Some(q4) => Some((literals_syntax(s@, q2 as int, Seq::empty()).0, q4)),
            },
            literals_syntax(s@, q2 as int, Seq::empty()) == literals_syntax(s@, q as int, literals_view(acc@)),
        ensures
            p < q2 <= q <= s@.len(),
            literal_block_syntax(s@, p as int) == match symbol_spec(s@, literals_syntax(s@, q2 as int, Seq::empty()).1, '}') {
                None => None,
                Some(q4) => Some((literals_syntax(s@, q2 as int, Seq::empty()).0, q4)),
            },
            literals_syntax(s@, q2 as int, Seq::empty()) == (literals_view(acc@), q as int),
        decreases s@.len() - q,
    {
        match literal_exec(s, q) {
            None => break,
            Some((l, q3)) => {
                assert(literals_view(acc@.push(l)) =~= literals_view(acc@).push(literal_view(l)));
                acc.push(l);
                q = q3;
            },
        }
    }
    match symbol_exec(s, q, '}') {
        None => None,
        Some(q4) => Some((acc, q4)),
    }
}

/// Reads `extern Name<params> { [literal { ... }] }`.
fn extern_type_exec(s: &Vec<char>, p: usize) -> (r: Option<(Definition, usize)>)
    requires
        p <= s@.len(),
    ensures
        match extern_type_syntax(s@, p as int) {
            None => r is None,
            Some((d, q)) => r matches Some((rd, rq)) && definition_view(rd) == d && rq == q,
        },
        r matches Some((_, q)) ==> p < q <= s@.len(),
{
    let q1 = match keyword_exec(s, p, "extern") {
        None => return None,
        Some(q) => q,
    };
    let (n, q2) = match identifier_exec(s, q1) {
        None => return None,
        Some(r) => r,
    };
    let (ps, q3) = opt_type_params_exec(s, q2);
    let q4 = match symbol_exec(s, q3, '{') {
        None => return None,
        Some(q) => q,
    };
    let (ls, q5) = match literal_block_exec(s, q4) {
        Some(r) => r,
        None => {
            let ls: Vec<ExternLiteralSpecifier> = Vec::new();
            assert(literals_view(ls@) =~= Seq::empty());
            (ls, q4)
        },
    };
    match symbol_exec(s, q5, '}') {
        None => None,
        Some(q6) => Some((Definition::Extern(n, ps, ls), q6)),
    }
}

/// Reads a top-level definition.
fn definition_exec(s: &Vec<char>, p: usize) -> (r: Option<(Definition, usize)>)
    requires
        p <= s@.len(),
    ensures
        match definition_syntax(s@, p as int) {
            None => r is None,
            Some((d, q)) => r matches Some((rd, rq)) && definition_view(rd) == d && rq == q,
        },
        r matches Some((_, q)) ==> p < q <= s@.len(),
{
    if let Some(r) = constant_exec(s, p) {
        return Some(r);
    }
    if let Some(r) = versioned_type_exec(s, p) {
        return Some(r);
    }
    extern_type_exec(s, p)
}

/// Reads a model file: what `model_file_syntax` reads from its characters.
pub fn parse_file(text: &str) -> (r: Option<ModelFile>)
    ensures
        match model_file_syntax(text@) {
            None => r is None,
            Some(f) => r matches Some(rf) && file_view(rf) == f,
        },
{
    let s = crate::text::chars_of(text);
    let q1 = match keyword_exec(&s, 0, "version") {
        None => return None,
        Some(q) => q,
    };
    let (n, q2) = match biguint_exec(&s, q1) {
        None => return None,
        Some(r) => r,
    };
    let q3 = match symbol_exec(&s, q2, ';') {
        None => return None,
        Some(q) => q,
    };
    let (pkg, q4) = match package_exec(&s, q3) {
        Some(r) => r,
        None => {
            let parts: Vec<String> = Vec::new();
            assert(strings_view(parts@) =~= Seq::empty());
            (PackageName { package: parts }, q3)
        },
    };
    let mut defs: Vec<Definition> = Vec::new();
    assert(definitions_view(defs@) =~= Seq::empty());
    let mut q = q4;
    loop
        invariant
            q4 <= q <= s@.len(),
            definitions_syntax(s@, q4 as int, Seq::empty()) == definitions_syntax(s@, q as int, definitions_view(defs@)),
        ensures
            q4 <= q <= s@.len(),
            definitions_syntax(s@, q4 as int, Seq::empty()) == (definitions_view(defs@), q as int),
        decreases s@.len() - q,
    {
        match definition_exec(&s, q) {
            None => break,
            Some((d, q5)) => {
                assert(definitions_view(defs@.push(d)) =~= definitions_view(defs@).push(definition_view(d)));
                defs.push(d);
                q = q5;
            },
        }
    }
    if skip_space_exec(&s, q) == s.len() {
        Some(ModelFile { latest_version: n, package: pkg, definitions: defs })
    } else {
        None
    }
}

/// Reads `package a.b.c;`.
fn package_exec(s: &Vec<char>, p: usize) -> (r: Option<(PackageName, usize)>)
    requires
        p <= s@.len(),
    ensures
        match package_syntax(s@, p as int) {
            None => r is None,
            Some((pkg, q)) => r matches Some((rp, rq)) && rp@ == pkg && rq == q,
        },
        r matches Some((_, q)) ==> p < q <= s@.len(),
{
    let q1 = match keyword_exec(s, p, "package") {
        None => return None,
        Some(q) => q,
    };
    let (first, q2) = match identifier_exec(s, q1) {
        None => return None,
        Some(r) => r,
    };
    let mut v: Vec<String> = Vec::new();
    v.push(first);
    assert(strings_view(v@) =~= seq![first@]);
    let (parts, q3) = ident_list_rest_exec(s, q2, '.', v);
    match symbol_exec(s, q3, ';') {
        None => None,
        Some(q4) => Some((PackageName { package: parts }, q4)),
    }
}

} // verus!
