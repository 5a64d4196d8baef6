//! Scopes: how a name written inside a definition is resolved.
use vstd::prelude::*;
use crate::names::{PackageName, QualifiedName};
use crate::model::{
    Verilization, ScopeLookup, ScopeLookupView, NameView, has_key, Named, Constant,
    VersionedTypeDefinitionData, ExternTypeDefinitionData,
};

verus! {

/// Some string of `v` is `s`.
pub open spec fn strings_contain(v: Seq<String>, s: Seq<char>) -> bool {
    exists|i: int| 0 <= i < v.len() && v[i]@ == s
}

/// Entry `i` is the first named `n`.
pub open spec fn is_first_named<A>(fields: Seq<(String, A)>, i: int, n: Seq<char>) -> bool {
    &&& 0 <= i < fields.len()
    &&& fields[i].0@ == n
    &&& forall|j: int| 0 <= j < i ==> fields[j].0@ != n
}

/// The index of the first entry named `n` (meaningful when there is one).
pub open spec fn first_named_index<A>(fields: Seq<(String, A)>, n: Seq<char>) -> int {
    choose|i: int| is_first_named(fields, i, n)
}

/// The first entry with a given name is unique.
pub proof fn lemma_first_named<A>(fields: Seq<(String, A)>, i: int, n: Seq<char>)
    requires
        is_first_named(fields, i, n),
    ensures
        first_named_index(fields, n) == i,
{
    let k = first_named_index(fields, n);
    assert(is_first_named(fields, k, n));
    if k < i {
        assert(fields[k].0@ != n);
    } else if i < k {
        assert(fields[i].0@ != n);
    }
}

/// Finds the first entry named `n`.
pub fn find_named<A>(fields: &Vec<(String, A)>, n: &String) -> (r: Option<usize>)
    ensures
        r is None <==> forall|j: int| 0 <= j < fields@.len() ==> fields@[j].0@ != n@,
        r matches Some(i) ==> is_first_named(fields@, i as int, n@),
{
    let mut i: usize = 0;
    while i < fields.len()
        invariant
            i <= fields@.len(),
            forall|j: int| 0 <= j < i ==> fields@[j].0@ != n@,
        decreases fields@.len() - i,
    {
        if fields[i].0 == *n {
            return Some(i);
        }
        i = i + 1;
    }
    None
}

/// Whether some string of `v` is `s`.
pub fn contains_string(v: &Vec<String>, s: &String) -> (r: bool)
    ensures
        r == strings_contain(v@, s@),
{
    let mut i: usize = 0;
    while i < v.len()
        invariant
            i <= v@.len(),
            forall|j: int| 0 <= j < i ==> v@[j]@ != s@,
        decreases v@.len() - i,
    {
        if v[i] == *s {
            return true;
        }
        i = i + 1;
    }
    false
}

/// Where names are looked up: the model, the package of the definition, its
/// imports and its type parameters.
pub struct Scope<'a> {
    pub model: &'a Verilization,
    pub current_pkg: Option<&'a PackageName>,
    pub imports: Option<&'a Vec<(String, ScopeLookup)>>,
    pub type_params: Option<&'a Vec<String>>,
}

impl<'a> Scope<'a> {
    /// What a name means in this scope. A name without a package is, in
    /// turn, a type parameter, an import, or a type of the current package;
    /// any other name means the type of that name.
    pub open spec fn lookup_view(self, name: NameView) -> ScopeLookupView {
        if name.0.len() == 0 && self.type_params is Some && strings_contain(self.type_params.unwrap()@, name.1) {
            ScopeLookupView::TypeParameter(name.1)
        } else if name.0.len() == 0 && self.imports is Some
            && exists|i: int| is_first_named(self.imports.unwrap()@, i, name.1) {
            self.imports.unwrap()@[first_named_index(self.imports.unwrap()@, name.1)].1@
        } else if name.0.len() == 0 && self.current_pkg is Some
            && has_key(self.model.type_entries(), (self.current_pkg.unwrap()@, name.1)) {
            ScopeLookupView::NamedType((self.current_pkg.unwrap()@, name.1))
        } else {
            ScopeLookupView::NamedType(name)
        }
    }

    /// The constant that a name means in this scope: one of the current
    /// package when the name has no package and that constant exists.
    pub open spec fn lookup_constant_view(self, name: NameView) -> NameView {
        if name.0.len() == 0 && self.current_pkg is Some
            && has_key(self.model.constant_entries(), (self.current_pkg.unwrap()@, name.1)) {
            (self.current_pkg.unwrap()@, name.1)
        } else {
            name
        }
    }

    /// The type parameters in scope.
    pub open spec fn params_view(self) -> Seq<String> {
        match self.type_params {
            Some(p) => p@,
            None => Seq::empty(),
        }
    }

    /// A scope with nothing in it but the model.
    pub fn empty(model: &'a Verilization) -> (r: Scope<'a>)
        ensures
            r.model == model,
            r.current_pkg is None,
            r.imports is None,
            r.type_params is None,
    {
        Scope { model, current_pkg: None, imports: None, type_params: None }
    }

    /// The scope inside a struct or enum definition.
    pub fn of_versioned_type(t: &Named<'a, VersionedTypeDefinitionData>) -> (r: Scope<'a>)
        ensures
            r.model == t.model,
            r.current_pkg == Some(&t.name.package),
            r.imports == Some(&t.value.imports),
            r.type_params == Some(&t.value.type_params),
    {
        Scope {
            model: t.model,
            current_pkg: Some(&t.name.package),
            imports: Some(&t.value.imports),
            type_params: Some(&t.value.type_params),
        }
    }

    /// The scope inside an extern type definition.
    pub fn of_extern_type(t: &Named<'a, ExternTypeDefinitionData>) -> (r: Scope<'a>)
        ensures
            r.model == t.model,
            r.current_pkg == Some(&t.name.package),
            r.imports == Some(&t.value.imports),
            r.type_params == Some(&t.value.type_params),
    {
        Scope {
            model: t.model,
            current_pkg: Some(&t.name.package),
            imports: Some(&t.value.imports),
            type_params: Some(&t.value.type_params),
        }
    }

    /// The scope inside a constant definition.
    pub fn of_constant(c: &Named<'a, Constant>) -> (r: Scope<'a>)
        ensures
            r.model == c.model,
            r.current_pkg == Some(&c.name.package),
            r.imports == Some(&c.value.imports),
            r.type_params is None,
    {
        Scope {
            model: c.model,
            current_pkg: Some(&c.name.package),
            imports: Some(&c.value.imports),
            type_params: None,
        }
    }

    /// What a name means in this scope.
    pub fn lookup(&self, name: QualifiedName) -> (r: ScopeLookup)
        ensures
            r@ == self.lookup_view(name@),
    {
        if name.package.package.len() == 0 {
            if let Some(params) = self.type_params {
                if contains_string(params, &name.name) {
                    return ScopeLookup::TypeParameter(name.name);
                }
            }
            if let Some(imports) = self.imports {
                match find_named(imports, &name.name) {
                    Some(i) => {
                        proof {
                            lemma_first_named(imports@, i as int, name.name@);
                        }
                        return imports[i].1.copy();
                    },
                    None => {},
                }
            }
            if let Some(pkg) = self.current_pkg {
                let candidate = QualifiedName { package: pkg.copy(), name: name.name.clone() };
                if self.model.has_type(&candidate) {
                    return ScopeLookup::NamedType(candidate);
                }
            }
        }
        ScopeLookup::NamedType(name)
    }

    /// The constant that a name means in this scope.
    pub fn lookup_constant(&self, name: QualifiedName) -> (r: QualifiedName)
        ensures
            r@ == self.lookup_constant_view(name@),
    {
        if name.package.package.len() == 0 {
            if let Some(pkg) = self.current_pkg {
                let candidate = QualifiedName { package: pkg.copy(), name: name.name.clone() };
                if self.model.has_constant(&candidate) {
                    return candidate;
                }
            }
        }
        name
    }

    /// The type parameters in scope.
    pub fn type_params(&self) -> (r: Vec<String>)
        ensures
            r@ == self.params_view(),
    {
        match self.type_params {
            Some(params) => params.clone(),
            None => Vec::new(),
        }
    }
}

} // verus!
