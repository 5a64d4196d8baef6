//! Loads a whole format from its files: the models read from the files are
//! merged in order and the result is type checked.
use vstd::prelude::*;
use crate::names::{QualifiedName, upper_name};
use crate::model::{Verilization, NameView, Constant, TypeDefinition, first_clash, max_nat};
use crate::assemble::{ParseError, ModelErrorV};
use crate::type_check::{type_check_verilization, type_check_spec, TypeCheckError, TypeCheckErrorView};

verus! {

/// Why a format could not be loaded.
#[derive(Debug)]
pub enum VError {
    ParseError(ParseError),
    MergeConflict(QualifiedName),
    TypeCheckError(TypeCheckError),
    NoInputFiles,
}

/// The view of a reading error.
pub enum ParseErrorV {
    Syntax,
    Model(ModelErrorV),
}

impl View for ParseError {
    type V = ParseErrorV;

    open spec fn view(&self) -> ParseErrorV {
        match self {
            ParseError::Syntax => ParseErrorV::Syntax,
            ParseError::Model(e) => ParseErrorV::Model(e@),
        }
    }
}

/// The view of a loading error.
pub enum VErrorV {
    ParseError(ParseErrorV),
    MergeConflict(NameView),
    TypeCheckError(TypeCheckErrorView),
    NoInputFiles,
}

impl View for VError {
    type V = VErrorV;

    open spec fn view(&self) -> VErrorV {
        match self {
            VError::ParseError(e) => VErrorV::ParseError(e@),
            VError::MergeConflict(n) => VErrorV::MergeConflict(n@),
            VError::TypeCheckError(e) => VErrorV::TypeCheckError(e@),
            VError::NoInputFiles => VErrorV::NoInputFiles,
        }
    }
}

/// The upper-cased names that merging `m` into a model takes, in order.
pub open spec fn incoming_upper(m: Verilization) -> Seq<NameView> {
    Verilization::incoming_names(m).map_values(|n: NameView| upper_name(n))
}

/// The first error in merging the read files `items[k..]` into a model whose
/// taken names are `taken`: a file that could not be read, or the first name
/// of a file that clashes with one taken before it.
pub open spec fn merge_error_from(items: Seq<Result<Verilization, ParseError>>, k: nat, taken: Seq<NameView>) -> Option<VErrorV>
    decreases items.len() - k,
{
    if k >= items.len() {
        None
    } else {
        match items[k as int] {
            Err(e) => Some(VErrorV::ParseError(e@)),
            Ok(m) => if k == 0 {
                merge_error_from(items, k + 1, m.taken_names())
            } else {
                match first_clash(taken, Verilization::incoming_names(m)) {
                    Some(j) => Some(VErrorV::MergeConflict(Verilization::incoming_names(m)[j as int])),
                    None => merge_error_from(items, k + 1, taken + incoming_upper(m)),
                }
            },
        }
    }
}

/// The first error in merging the read files, if any; no file at all is one.
pub open spec fn merge_error(items: Seq<Result<Verilization, ParseError>>) -> Option<VErrorV> {
    if items.len() == 0 {
        Some(VErrorV::NoInputFiles)
    } else {
        merge_error_from(items, 0, Seq::empty())
    }
}

/// The models of the files, when all of them were read.
pub open spec fn models_of(items: Seq<Result<Verilization, ParseError>>) -> Seq<Verilization> {
    items.map_values(|r: Result<Verilization, ParseError>| match r {
        Ok(m) => m,
        Err(_) => arbitrary(),
    })
}

/// The constants of the models, in order.
pub open spec fn all_constants(ms: Seq<Verilization>) -> Seq<(QualifiedName, Constant)>
    decreases ms.len(),
{
    if ms.len() == 0 {
        Seq::empty()
    } else {
        all_constants(ms.drop_last()) + ms.last().constant_entries()
    }
}

/// The types of the models, in order.
pub open spec fn all_types(ms: Seq<Verilization>) -> Seq<(QualifiedName, TypeDefinition)>
    decreases ms.len(),
{
    if ms.len() == 0 {
        Seq::empty()
    } else {
        all_types(ms.drop_last()) + ms.last().type_entries()
    }
}

/// The latest of the latest versions of the models.
pub open spec fn all_latest(ms: Seq<Verilization>) -> nat
    decreases ms.len(),
{
    if ms.len() == 0 {
        0
    } else if ms.len() == 1 {
        ms[0].latest()
    } else {
        max_nat(all_latest(ms.drop_last()), ms.last().latest())
    }
}

/// `m` is the merge of the models: their constants and their types in order,
/// and the latest of their latest versions.
pub open spec fn merged_as(m: Verilization, ms: Seq<Verilization>) -> bool {
    &&& m.wf()
    &&& m.constant_entries() == all_constants(ms)
    &&& m.type_entries() == all_types(ms)
    &&& m.latest() == all_latest(ms)
}

/// Merges the models read from the files, in order, and type checks the
/// result. Fails with the first file that could not be read or the first name
/// that clashes, in the order the files are merged; with no file at all; or
/// with the type checker's error.
pub fn load_all_models(items: Vec<Result<Verilization, ParseError>>) -> (r: Result<Verilization, VError>)
    requires
        forall|i: int| 0 <= i < items@.len() ==> (#[trigger] items@[i] matches Ok(m) ==> m.wf()),
    ensures
        match merge_error(items@) {
            Some(e) => r matches Err(re) && re@ == e,
            None => match r {
                Ok(m) => merged_as(m, models_of(items@)) && type_check_spec(&m) == Ok::<(), TypeCheckErrorView>(()),
                Err(VError::TypeCheckError(e)) => exists|m: Verilization| merged_as(m, models_of(items@))
                    && type_check_spec(&m) == Err::<(), TypeCheckErrorView>(e@),
                Err(_) => false,
            },
        },
{
    let ghost all = items@;
    let ghost ms = models_of(all);
    let mut rest = items;
    if rest.len() == 0 {
        return Err(VError::NoInputFiles);
    }
    let total = rest.len();
    let first = rest.remove(0);
    assert(first == all[0]);
    let mut model = match first {
        Err(e) => return Err(VError::ParseError(e)),
        Ok(m) => m,
    };
    proof {
        assert(ms[0] == model);
        assert(ms.take(1).drop_last() =~= Seq::<Verilization>::empty());
        assert(all_constants(Seq::<Verilization>::empty()) + model.constant_entries() =~= model.constant_entries());
        assert(all_types(Seq::<Verilization>::empty()) + model.type_entries() =~= model.type_entries());
        assert(ms.take(1)[0] == model);
        assert(rest@ =~= all.skip(1));
    }
    let mut k: usize = 1;
    while rest.len() > 0
        invariant
            all == items@,
            ms == models_of(all),
            all.len() == total,
            1 <= k <= total,
            k + rest@.len() == total,
            rest@ == all.skip(k as int),
            forall|i: int| 0 <= i < all.len() ==> (#[trigger] all[i] matches Ok(m) ==> m.wf()),
            forall|i: int| 0 <= i < k ==> #[trigger] all[i] is Ok,
            model.wf(),
            merged_as(model, ms.take(k as int)),
            merge_error(all) == merge_error_from(all, k as nat, model.taken_names()),
        decreases rest@.len(),
    {
        let item = rest.remove(0);
        assert(item == all[k as int]);
        match item {
            Err(e) => return Err(VError::ParseError(e)),
            Ok(other) => {
                let ghost before = model;
                assert(ms[k as int] == other);
                match model.merge(other) {
                    Err(n) => return Err(VError::MergeConflict(n)),
                    Ok(()) => {},
                }
                proof {
                    let t = ms.take(k as int + 1);
                    assert(t.drop_last() =~= ms.take(k as int));
                    assert(t.last() == other);
                    assert(incoming_upper(other) =~= Verilization::incoming_names(other).map_values(|n: NameView| upper_name(n)));
                }
            },
        }
        proof {
            assert(rest@ =~= all.skip(k as int + 1));
        }
        k = k + 1;
    }
    proof {
        assert(ms.take(k as int) =~= ms);
        assert(merge_error_from(all, k as nat, model.taken_names()) is None);
    }
    let ghost merged = model;
    match type_check_verilization(&model) {
        Ok(()) => Ok(model),
        Err(e) => Err(VError::TypeCheckError(e)),
    }
}

} // verus!
