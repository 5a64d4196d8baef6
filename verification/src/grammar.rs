//! The grammar of model files, as functions from the text and a position to
//! what is read there and the position after it. Lists are read greedily:
//! a list stops before the first item that cannot be read, and a separator
//! is only taken together with the item after it.
use vstd::prelude::*;
use crate::model::{ExternLiteralIntBound, NameView};
use crate::ast::{TypeV, ValueV, LiteralV, DefinitionV, ModelFileV};
use crate::lexer::{
    identifier_spec, keyword_spec, symbol_spec, tag_spec, biguint_spec, bigint_spec, string_spec,
    skip_space,
};

verus! {

/// The name made of dotted parts: all but the last are the package.
pub open spec fn qualify(parts: Seq<Seq<char>>) -> NameView {
    (parts.drop_last(), parts.last())
}

/// More identifiers, each after the separator `sep`, appended to `acc`.
pub open spec fn ident_list_rest(s: Seq<char>, p: int, sep: char, acc: Seq<Seq<char>>) -> (Seq<Seq<char>>, int)
    decreases s.len() - p,
{
    match symbol_spec(s, p, sep) {
        None => (acc, p),
        Some(q) => match identifier_spec(s, q) {
            Some((w, q2)) => if p < q2 <= s.len() {
                ident_list_rest(s, q2, sep, acc.push(w))
            } else {
                (acc, p)
            },
            None => (acc, p),
        },
    }
}

/// A dotted name: identifiers separated by dots.
pub open spec fn dotted_name_syntax(s: Seq<char>, p: int) -> Option<(NameView, int)> {
    match identifier_spec(s, p) {
        None => None,
        Some((first, q)) => {
            let (parts, q2) = ident_list_rest(s, q, '.', seq![first]);
            Some((qualify(parts), q2))
        },
    }
}

/// A type: a dotted name, optionally followed by arguments in parentheses.
pub open spec fn type_expr_syntax(s: Seq<char>, p: int) -> Option<(TypeV, int)>
    decreases s.len() - p, 0nat,
{
    match dotted_name_syntax(s, p) {
        None => None,
        Some((name, q)) => if p < q <= s.len() {
            match type_args_syntax(s, q) {
                Some((args, q2)) => Some((TypeV { name, args }, q2)),
                None => Some((TypeV { name, args: Seq::empty() }, q)),
            }
        } else {
            None
        },
    }
}

/// One or more types separated by commas.
pub open spec fn type_list_syntax(s: Seq<char>, p: int) -> Option<(Seq<TypeV>, int)>
    decreases s.len() - p, 1nat,
{
    match type_expr_syntax(s, p) {
        None => None,
        Some((t, q)) => if p < q <= s.len() {
            Some(type_list_rest(s, q, seq![t]))
        } else {
            None
        },
    }
}

/// More types, each after a comma, appended to `acc`.
pub open spec fn type_list_rest(s: Seq<char>, p: int, acc: Seq<TypeV>) -> (Seq<TypeV>, int)
    decreases s.len() - p, 2nat,
{
    match symbol_spec(s, p, ',') {
        None => (acc, p),
        Some(q) => if p < q <= s.len() {
            match type_expr_syntax(s, q) {
                Some((t, q2)) => if q < q2 <= s.len() {
                    type_list_rest(s, q2, acc.push(t))
                } else {
                    (acc, p)
                },
                None => (acc, p),
            }
        } else {
            (acc, p)
        },
    }
}

/// Type arguments: one or more types in parentheses.
pub open spec fn type_args_syntax(s: Seq<char>, p: int) -> Option<(Seq<TypeV>, int)>
    decreases s.len() - p, 3nat,
{
    match symbol_spec(s, p, '(') {
        None => None,
        Some(q) => if p < q <= s.len() {
            match type_list_syntax(s, q) {
                None => None,
                Some((ts, q2)) => match symbol_spec(s, q2, ')') {
                    Some(q3) => Some((ts, q3)),
                    None => None,
                },
            }
        } else {
            None
        },
    }
}

/// A constant value: an integer, a string, a sequence, a case, a record or
/// the name of another constant, tried in that order.
pub open spec fn value_syntax(s: Seq<char>, p: int) -> Option<(ValueV, int)>
    decreases s.len() - p, 5nat,
{
    match bigint_spec(s, p) {
        Some((n, q)) => Some((ValueV::Integer(n), q)),
        None => match string_spec(s, p) {
            Some((w, q)) => Some((ValueV::Str(w), q)),
            None => match sequence_value_syntax(s, p) {
                Some(r) => Some(r),
                None => match case_value_syntax(s, p) {
                    Some(r) => Some(r),
                    None => match record_value_syntax(s, p) {
                        Some(r) => Some(r),
                        None => match dotted_name_syntax(s, p) {
                            Some((n, q)) => Some((ValueV::Constant(n), q)),
                            None => None,
                        },
                    },
                },
            },
        },
    }
}

/// One or more values separated by commas.
pub open spec fn value_list_syntax(s: Seq<char>, p: int) -> Option<(Seq<ValueV>, int)>
    decreases s.len() - p, 6nat,
{
    match value_syntax(s, p) {
        None => None,
        Some((v, q)) => if p < q <= s.len() {
            Some(value_list_rest(s, q, seq![v]))
        } else {
            None
        },
    }
}

/// More values, each after a comma, appended to `acc`.
pub open spec fn value_list_rest(s: Seq<char>, p: int, acc: Seq<ValueV>) -> (Seq<ValueV>, int)
    decreases s.len() - p, 7nat,
{
    match symbol_spec(s, p, ',') {
        None => (acc, p),
        Some(q) => if p < q <= s.len() {
            match value_syntax(s, q) {
                Some((v, q2)) => if q < q2 <= s.len() {
                    value_list_rest(s, q2, acc.push(v))
                } else {
                    (acc, p)
                },
                None => (acc, p),
            }
        } else {
            (acc, p)
        },
    }
}

/// A sequence value: values separated by commas, with an optional trailing
/// comma, in square brackets.
pub open spec fn sequence_value_syntax(s: Seq<char>, p: int) -> Option<(ValueV, int)>
    decreases s.len() - p, 4nat,
{
    match symbol_spec(s, p, '[') {
        None => None,
        Some(q) => if p < q <= s.len() {
            let (vs, q2) = match value_list_syntax(s, q) {
                None => (Seq::empty(), q),
                Some((vs, q1)) => match symbol_spec(s, q1, ',') {
                    Some(q1b) => (vs, q1b),
                    None => (vs, q1),
                },
            };
            match symbol_spec(s, q2, ']') {
                Some(q3) => Some((ValueV::Sequence(vs), q3)),
                None => None,
            }
        } else {
            None
        },
    }
}

/// A case value: a name, then arguments separated by commas in parentheses.
pub open spec fn case_value_syntax(s: Seq<char>, p: int) -> Option<(ValueV, int)>
    decreases s.len() - p, 4nat,
{
    match identifier_spec(s, p) {
        None => None,
        Some((n, q)) => match symbol_spec(s, q, '(') {
            None => None,
            Some(q1) => if p < q1 <= s.len() {
                let (args, q2) = match value_list_syntax(s, q1) {
                    None => (Seq::empty(), q1),
                    Some((vs, q2)) => (vs, q2),
                };
                match symbol_spec(s, q2, ')') {
                    Some(q3) => Some((ValueV::Case(n, args), q3)),
                    None => None,
                }
            } else {
                None
            },
        },
    }
}

/// A record value: `name = value;` fields in braces.
pub open spec fn record_value_syntax(s: Seq<char>, p: int) -> Option<(ValueV, int)>
    decreases s.len() - p, 4nat,
{
    match symbol_spec(s, p, '{') {
        None => None,
        Some(q) => if p < q <= s.len() {
            let (fs, q2) = record_fields_syntax(s, q, Seq::empty());
            match symbol_spec(s, q2, '}') {
                Some(q3) => Some((ValueV::Record(fs), q3)),
                None => None,
            }
        } else {
            None
        },
    }
}

/// More `name = value;` fields, appended to `acc`.
pub open spec fn record_fields_syntax(s: Seq<char>, p: int, acc: Seq<(Seq<char>, ValueV)>) -> (Seq<(Seq<char>, ValueV)>, int)
    decreases s.len() - p, 8nat,
{
    match identifier_spec(s, p) {
        None => (acc, p),
        Some((n, q)) => match symbol_spec(s, q, '=') {
            None => (acc, p),
            Some(q1) => if p < q1 <= s.len() {
                match value_syntax(s, q1) {
                    None => (acc, p),
                    Some((v, q2)) => match symbol_spec(s, q2, ';') {
                        None => (acc, p),
                        Some(q3) => if p < q3 <= s.len() {
                            record_fields_syntax(s, q3, acc.push((n, v)))
                        } else {
                            (acc, p)
                        },
                    },
                }
            } else {
                (acc, p)
            },
        },
    }
}

/// `version N = value;`
pub open spec fn versioned_value_syntax(s: Seq<char>, p: int) -> Option<((nat, ValueV), int)> {
    match keyword_spec(s, p, "version"@) {
        None => None,
        Some(q1) => match biguint_spec(s, q1) {
            None => None,
            Some((n, q2)) => match symbol_spec(s, q2, '=') {
                None => None,
                Some(q3) => match value_syntax(s, q3) {
                    None => None,
                    Some((v, q4)) => match symbol_spec(s, q4, ';') {
                        None => None,
                        Some(q5) => Some(((n, v), q5)),
                    },
                },
            },
        },
    }
}

/// More `version N = value;` entries, appended to `acc`.
pub open spec fn versioned_values_syntax(s: Seq<char>, p: int, acc: Seq<(nat, ValueV)>) -> (Seq<(nat, ValueV)>, int)
    decreases s.len() - p,
{
    match versioned_value_syntax(s, p) {
        Some((e, q)) => if p < q <= s.len() {
            versioned_values_syntax(s, q, acc.push(e))
        } else {
            (acc, p)
        },
        None => (acc, p),
    }
}

/// `const name: Type { version N = value; ... }`
pub open spec fn constant_syntax(s: Seq<char>, p: int) -> Option<(DefinitionV, int)> {
    match keyword_spec(s, p, "const"@) {
        None => None,
        Some(q1) => match identifier_spec(s, q1) {
            None => None,
            Some((n, q2)) => match symbol_spec(s, q2, ':') {
                None => None,
                Some(q3) => match type_expr_syntax(s, q3) {
                    None => None,
                    Some((t, q4)) => match symbol_spec(s, q4, '{') {
                        None => None,
                        Some(q5) => {
                            let (vs, q6) = versioned_values_syntax(s, q5, Seq::empty());
                            match symbol_spec(s, q6, '}') {
                                None => None,
                                Some(q7) => Some((DefinitionV::Constant(n, t, vs), q7)),
                            }
                        },
                    },
                },
            },
        },
    }
}

/// `name: Type;`
pub open spec fn field_syntax(s: Seq<char>, p: int) -> Option<((Seq<char>, TypeV), int)> {
    match identifier_spec(s, p) {
        None => None,
        Some((n, q1)) => match symbol_spec(s, q1, ':') {
            None => None,
            Some(q2) => match type_expr_syntax(s, q2) {
                None => None,
                Some((t, q3)) => match symbol_spec(s, q3, ';') {
                    None => None,
                    Some(q4) => Some(((n, t), q4)),
                },
            },
        },
    }
}

/// More fields, appended to `acc`.
pub open spec fn fields_syntax(s: Seq<char>, p: int, acc: Seq<(Seq<char>, TypeV)>) -> (Seq<(Seq<char>, TypeV)>, int)
    decreases s.len() - p,
{
    match field_syntax(s, p) {
        Some((f, q)) => if p < q <= s.len() {
            fields_syntax(s, q, acc.push(f))
        } else {
            (acc, p)
        },
        None => (acc, p),
    }
}

/// `version N { fields }`
pub open spec fn type_version_syntax(s: Seq<char>, p: int) -> Option<((nat, Seq<(Seq<char>, TypeV)>), int)> {
    match keyword_spec(s, p, "version"@) {
        None => None,
        Some(q1) => match biguint_spec(s, q1) {
            None => None,
            Some((n, q2)) => match symbol_spec(s, q2, '{') {
                None => None,
                Some(q3) => {
                    let (fs, q4) = fields_syntax(s, q3, Seq::empty());
                    match symbol_spec(s, q4, '}') {
                        None => None,
                        Some(q5) => Some(((n, fs), q5)),
                    }
                },
            },
        },
    }
}

/// More type versions, appended to `acc`.
pub open spec fn type_versions_syntax(s: Seq<char>, p: int, acc: Seq<(nat, Seq<(Seq<char>, TypeV)>)>) -> (Seq<(nat, Seq<(Seq<char>, TypeV)>)>, int)
    decreases s.len() - p,
{
    match type_version_syntax(s, p) {
        Some((v, q)) => if p < q <= s.len() {
            type_versions_syntax(s, q, acc.push(v))
        } else {
            (acc, p)
        },
        None => (acc, p),
    }
}

/// Type parameters: identifiers separated by commas in angle brackets.
pub open spec fn type_params_syntax(s: Seq<char>, p: int) -> Option<(Seq<Seq<char>>, int)> {
    match symbol_spec(s, p, '<') {
        None => None,
        Some(q1) => match identifier_spec(s, q1) {
            None => None,
            Some((first, q2)) => {
                let (ps, q3) = ident_list_rest(s, q2, ',', seq![first]);
                match symbol_spec(s, q3, '>') {
                    None => None,
                    Some(q4) => Some((ps, q4)),
                }
            },
        },
    }
}

/// Optional type parameters: none when they cannot be read.
pub open spec fn opt_type_params_syntax(s: Seq<char>, p: int) -> (Seq<Seq<char>>, int) {
    match type_params_syntax(s, p) {
        Some(r) => r,
        None => (Seq::empty(), p),
    }
}

/// `[final] struct|enum Name<params> { versions }`
pub open spec fn versioned_type_syntax(s: Seq<char>, p: int) -> Option<(DefinitionV, int)> {
    let (is_final, p1) = match keyword_spec(s, p, "final"@) {
        Some(q) => (true, q),
        None => (false, p),
    };
    let kind = match keyword_spec(s, p1, "enum"@) {
        Some(q) => Some((true, q)),
        None => match keyword_spec(s, p1, "struct"@) {
            Some(q) => Some((false, q)),
            None => None,
        },
    };
    match kind {
        None => None,
        Some((is_enum, p2)) => match identifier_spec(s, p2) {
            None => None,
            Some((n, p3)) => {
                let (ps, p4) = opt_type_params_syntax(s, p3);
                match symbol_spec(s, p4, '{') {
                    None => None,
                    Some(p5) => {
                        let (vs, p6) = type_versions_syntax(s, p5, Seq::empty());
                        match symbol_spec(s, p6, '}') {
                            None => None,
                            Some(p7) => Some((DefinitionV::Versioned(is_final, is_enum, n, ps, vs), p7)),
                        }
                    },
                }
            },
        },
    }
}

/// The bound that a bracket of an integer literal stands for: parentheses
/// exclude the bound, square brackets include it.
pub open spec fn bound_of(c: char) -> ExternLiteralIntBound {
    if c == '(' || c == ')' {
        ExternLiteralIntBound::Exclusive
    } else {
        ExternLiteralIntBound::Inclusive
    }
}

/// The character at `p` is one of `a` and `b`.
pub open spec fn one_of_at(s: Seq<char>, p: int, a: char, b: char) -> bool {
    0 <= p < s.len() && (s[p] == a || s[p] == b)
}

/// `integer [lo, hi)` and the like; either number may be left out.
pub open spec fn integer_literal_syntax(s: Seq<char>, p: int) -> Option<(LiteralV, int)> {
    match tag_spec(s, p, "integer"@) {
        None => None,
        Some(q1) => {
            let a = skip_space(s, q1);
            if !one_of_at(s, a, '[', '(') {
                None
            } else {
                let b = skip_space(s, a + 1);
                let (lo, q2) = match bigint_spec(s, b) {
                    Some((n, q)) => (Some(n), q),
                    None => (None, b),
                };
                match symbol_spec(s, q2, ',') {
                    None => None,
                    Some(q3) => {
                        let (hi, q4) = match bigint_spec(s, q3) {
                            Some((n, q)) => (Some(n), q),
                            None => (None, q3),
                        };
                        let c = skip_space(s, q4);
                        if !one_of_at(s, c, ']', ')') {
                            None
                        } else {
                            Some((LiteralV::Integer(bound_of(s[a]), lo, bound_of(s[c]), hi), c + 1))
                        }
                    },
                }
            }
        },
    }
}

/// One literal of an extern type, without its semicolon.
pub open spec fn literal_body_syntax(s: Seq<char>, p: int) -> Option<(LiteralV, int)> {
    match integer_literal_syntax(s, p) {
        Some(r) => Some(r),
        None => match tag_spec(s, p, "string"@) {
            Some(q) => Some((LiteralV::Str, q)),
            None => match tag_spec(s, p, "sequence"@) {
                Some(q) => {
                    let q1 = skip_space(s, q);
                    if q1 > q {
                        match type_expr_syntax(s, q1) {
                            Some((t, q2)) => Some((LiteralV::Sequence(t), q2)),
                            None => case_or_record_literal_syntax(s, p),
                        }
                    } else {
                        case_or_record_literal_syntax(s, p)
                    }
                },
                None => case_or_record_literal_syntax(s, p),
            },
        },
    }
}

/// A case literal `case Name(types)` or a record literal `record { fields }`.
pub open spec fn case_or_record_literal_syntax(s: Seq<char>, p: int) -> Option<(LiteralV, int)> {
    match tag_spec(s, p, "case"@) {
        Some(q1) => match identifier_spec(s, q1) {
            Some((n, q2)) => match symbol_spec(s, q2, '(') {
                Some(q3) => {
                    let (ts, q4) = match type_list_syntax(s, q3) {
                        Some(r) => r,
                        None => (Seq::empty(), q3),
                    };
                    match symbol_spec(s, q4, ')') {
                        Some(q5) => Some((LiteralV::Case(n, ts), q5)),
                        None => record_literal_syntax(s, p),
                    }
                },
                None => record_literal_syntax(s, p),
            },
            None => record_literal_syntax(s, p),
        },
        None => record_literal_syntax(s, p),
    }
}

/// A record literal `record { fields }`.
pub open spec fn record_literal_syntax(s: Seq<char>, p: int) -> Option<(LiteralV, int)> {
    match tag_spec(s, p, "record"@) {
        None => None,
        Some(q1) => match symbol_spec(s, q1, '{') {
            None => None,
            Some(q2) => {
                let (fs, q3) = fields_syntax(s, q2, Seq::empty());
                match symbol_spec(s, q3, '}') {
                    None => None,
                    Some(q4) => Some((LiteralV::Record(fs), q4)),
                }
            },
        },
    }
}

/// One literal of an extern type, with its semicolon.
pub open spec fn literal_syntax(s: Seq<char>, p: int) -> Option<(LiteralV, int)> {
    match literal_body_syntax(s, p) {
        None => None,
        Some((l, q)) => match symbol_spec(s, q, ';') {
            None => None,
            Some(q2) => Some((l, q2)),
        },
    }
}

/// More literals, appended to `acc`.
pub open spec fn literals_syntax(s: Seq<char>, p: int, acc: Seq<LiteralV>) -> (Seq<LiteralV>, int)
    decreases s.len() - p,
{
    match literal_syntax(s, p) {
        Some((l, q)) => if p < q <= s.len() {
            literals_syntax(s, q, acc.push(l))
        } else {
            (acc, p)
        },
        None => (acc, p),
    }
}

/// `literal { literals }`
pub open spec fn literal_block_syntax(s: Seq<char>, p: int) -> Option<(Seq<LiteralV>, int)> {
    match keyword_spec(s, p, "literal"@) {
        None => None,
        Some(q1) => match symbol_spec(s, q1, '{') {
            None => None,
            Some(q2) => {
                let (ls, q3) = literals_syntax(s, q2, Seq::empty());
                match symbol_spec(s, q3, '}') {
                    None => None,
                    Some(q4) => Some((ls, q4)),
                }
            },
        },
    }
}

/// `extern Name<params> { [literal { ... }] }`
pub open spec fn extern_type_syntax(s: Seq<char>, p: int) -> Option<(DefinitionV, int)> {
    match keyword_spec(s, p, "extern"@) {
        None => None,
        Some(q1) => match identifier_spec(s, q1) {
            None => None,
            Some((n, q2)) => {
                let (ps, q3) = opt_type_params_syntax(s, q2);
                match symbol_spec(s, q3, '{') {
                    None => None,
                    Some(q4) => {
                        let (ls, q5) = match literal_block_syntax(s, q4) {
                            Some(r) => r,
                            None => (Seq::empty(), q4),
                        };
                        match symbol_spec(s, q5, '}') {
                            None => None,
                            Some(q6) => Some((DefinitionV::Extern(n, ps, ls), q6)),
                        }
                    },
                }
            },
        },
    }
}

/// A top-level definition: a constant, a struct or enum, or an extern type.
pub open spec fn definition_syntax(s: Seq<char>, p: int) -> Option<(DefinitionV, int)> {
    match constant_syntax(s, p) {
        Some(r) => Some(r),
        None => match versioned_type_syntax(s, p) {
            Some(r) => Some(r),
            None => extern_type_syntax(s, p),
        },
    }
}

/// More definitions, appended to `acc`.
pub open spec fn definitions_syntax(s: Seq<char>, p: int, acc: Seq<DefinitionV>) -> (Seq<DefinitionV>, int)
    decreases s.len() - p,
{
    match definition_syntax(s, p) {
        Some((d, q)) => if p < q <= s.len() {
            definitions_syntax(s, q, acc.push(d))
        } else {
            (acc, p)
        },
        None => (acc, p),
    }
}

/// `package a.b.c;`
pub open spec fn package_syntax(s: Seq<char>, p: int) -> Option<(Seq<Seq<char>>, int)> {
    match keyword_spec(s, p, "package"@) {
        None => None,
        Some(q1) => match identifier_spec(s, q1) {
            None => None,
            Some((first, q2)) => {
                let (parts, q3) = ident_list_rest(s, q2, '.', seq![first]);
                match symbol_spec(s, q3, ';') {
                    None => None,
                    Some(q4) => Some((parts, q4)),
                }
            },
        },
    }
}

/// A whole model file: `version N;`, an optional package directive, the
/// definitions, and nothing but white space after them.
pub open spec fn model_file_syntax(s: Seq<char>) -> Option<ModelFileV> {
    match keyword_spec(s, 0, "version"@) {
        None => None,
        Some(q1) => match biguint_spec(s, q1) {
            None => None,
            Some((n, q2)) => match symbol_spec(s, q2, ';') {
                None => None,
                Some(q3) => {
                    let (pkg, q4) = match package_syntax(s, q3) {
                        Some(r) => r,
                        None => (Seq::empty(), q3),
                    };
                    let (defs, q5) = definitions_syntax(s, q4, Seq::empty());
                    if skip_space(s, q5) == s.len() {
                        Some(ModelFileV { latest_version: n, package: pkg, definitions: defs })
                    } else {
                        None
                    }
                },
            },
        },
    }
}

} // verus!
