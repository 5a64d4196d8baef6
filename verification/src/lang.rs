//! The languages that code is generated for, the registry that finds a
//! language by name, naming conventions, and an output handler that keeps
//! the generated files in memory.
use vstd::prelude::*;
use core::marker::PhantomData;
use crate::text::{chars_of, string_from_chars, str_eq, append_str};
use crate::util::{capitalize_identifier, uncapitalize_identifier, capitalized, uncapitalized};
use crate::generator::GeneratorError;
use crate::model::Verilization;

verus! {

/// Whether a versioned type is a struct or an enum.
#[derive(Copy, Clone, Debug, PartialEq, Eq)]
pub enum VersionedTypeKind {
    Struct,
    Enum,
}

/// The name of a generated type: the name with its first letter capitalized.
pub fn make_type_name(name: &str) -> (r: String)
    ensures
        r@ == capitalized(name@),
{
    let cs = chars_of(name);
    let mut s = string_from_chars(&cs, 0, cs.len());
    assert(cs@.subrange(0, cs@.len() as int) =~= cs@);
    capitalize_identifier(&mut s);
    s
}

/// The name of a generated field: the name with its first letter made lower
/// case.
pub fn make_field_name(field_name: &str) -> (r: String)
    ensures
        r@ == uncapitalized(field_name@),
{
    let cs = chars_of(field_name);
    let mut s = string_from_chars(&cs, 0, cs.len());
    assert(cs@.subrange(0, cs@.len() as int) =~= cs@);
    uncapitalize_identifier(&mut s);
    s
}

/// A language that code can be generated for.
pub trait Language {
    /// The options the language is generated with.
    type Options: LanguageOptions;

    /// A file generated for the language.
    type File;

    /// The name of the language. A language that states nothing of itself
    /// keeps the defaults of this and the next two.
    closed spec fn language_name() -> Seq<char> {
        Seq::empty()
    }

    /// Whether generating the code of `model` with `options` can give `r`.
    closed spec fn generates(model: &Verilization, options: Self::Options, r: Result<Vec<Self::File>, GeneratorError>) -> bool {
        true
    }

    /// The path of a generated file, one part at a time, and its text.
    closed spec fn file_view(file: Self::File) -> (Seq<Seq<char>>, Seq<char>) {
        (Seq::empty(), Seq::empty())
    }

    /// The name of the language, as it is asked for on the command line.
    fn name() -> (r: &'static str)
        ensures
            r@ == Self::language_name();

    /// Generates the code of `model`.
    fn generate(model: &Verilization, options: &Self::Options) -> (r: Result<Vec<Self::File>, GeneratorError>)
        ensures
            Self::generates(model, *options, r);

    /// The path of a generated file, one part at a time, and its text.
    fn file_parts(file: Self::File) -> (r: (Vec<String>, String))
        ensures
            (r.0@.map_values(|p: String| p@), r.1@) == Self::file_view(file);
}

/// The options of a language, once every required one has been given.
pub trait LanguageOptions: Sized {
    /// The options as they are being given.
    type Builder: LanguageOptionsBuilder;

    /// Whether checking and finishing `builder` can give `r`.
    spec fn builds(builder: Self::Builder, r: Result<Self, GeneratorError>) -> bool;

    /// Checks that every required option was given, and makes the options.
    fn build(builder: Self::Builder) -> (r: Result<Self, GeneratorError>)
        ensures
            Self::builds(builder, r);
}

/// The options of a language as they are given, one at a time.
pub trait LanguageOptionsBuilder: Sized {
    /// Whether no option has been given yet.
    spec fn nothing_given(&self) -> bool;

    /// Whether giving the option `name` the value `value` can take the
    /// builder from `self` to `after`, with the result `r`.
    spec fn adds(&self, name: Seq<char>, value: Seq<char>, after: Self, r: Result<(), GeneratorError>) -> bool;

    /// A builder with no options given.
    fn empty() -> (r: Self)
        ensures
            r.nothing_given();

    /// Gives one option.
    fn add(&mut self, name: &str, value: &str) -> (r: Result<(), GeneratorError>)
        ensures
            old(self).adds(name@, value@, *final(self), r);
}

/// The Java language.
pub struct JavaLanguage {}

/// The Scala language.
pub struct ScalaLanguage {}

/// The TypeScript language.
pub struct TypeScriptLanguage {}

/// Work to be done for one language, chosen at run time by its name.
pub trait LanguageHandler: Sized {
    type Output;

    /// Whether running the work for the language `L` can take the handler
    /// from `self` to `after` and give `out`. A handler that states nothing
    /// of its work keeps this default.
    closed spec fn ran<L: Language>(&self, after: Self, out: Self::Output) -> bool {
        true
    }

    /// Does the work for the language `Lang`.
    fn run<Lang: Language>(&mut self) -> (r: Self::Output)
        ensures
            old(self).ran::<Lang>(*final(self), r);
}

/// A set of languages that can be looked up by name.
pub trait LanguageRegistry: Sized {
    /// The names of the languages, oldest first.
    spec fn names(&self) -> Seq<Seq<char>>;

    /// Whether a language of that name is registered.
    fn has_language(&self, lang_name: &str) -> (r: bool)
        ensures
            r == self.names().contains(lang_name@);
}

/// Running a handler for the languages of a registry.
pub trait LanguageDispatch<H: LanguageHandler>: LanguageRegistry {
    /// Whether `handler`, run for the language that a lookup of `name`
    /// finds (the one of that name added last), can go to `after` and give
    /// `out`; false where no language has that name.
    spec fn ran_for(&self, name: Seq<char>, handler: H, after: H, out: H::Output) -> bool;

    /// Whether the handler, run for every language in turn, oldest first,
    /// can go through `states` and give `outs`.
    spec fn ran_in_turn(&self, states: Seq<H>, outs: Seq<H::Output>) -> bool;

    /// Runs the handler once for the language of that name (the one added
    /// last, if several share it), if one is registered; otherwise leaves
    /// the handler as it is.
    fn handle_language(&self, lang_name: &str, handler: &mut H) -> (r: Option<H::Output>)
        ensures
            r is Some <==> self.names().contains(lang_name@),
            r matches Some(o) ==> self.ran_for(lang_name@, *old(handler), *final(handler), o),
            r is None ==> *final(handler) == *old(handler);

    /// Runs the handler for every language, oldest first, and gives the
    /// results in that order.
    fn each_language(&self, handler: &mut H) -> (r: Vec<H::Output>)
        ensures
            exists|states: Seq<H>| #![auto]
                self.ran_in_turn(states, r@) && states.len() == self.names().len() + 1
                && states[0] == *old(handler) && states[self.names().len() as int] == *final(handler);
}

/// A registry with no languages.
pub struct EmptyLanguageRegistry {}

/// A registry with one more language than `Prev`.
pub struct LanguageRegistryCons<Lang: Language, Prev: LanguageRegistry> {
    pub prev: Prev,
    pub lang: PhantomData<Lang>,
}

/// A registry with no languages.
pub fn language_registry_new() -> (r: EmptyLanguageRegistry)
    ensures
        r.names().len() == 0,
{
    EmptyLanguageRegistry {}
}

impl EmptyLanguageRegistry {
    /// The registry with one more language: this one, then `Lang`.
    pub fn add_language<Lang: Language>(self) -> (r: LanguageRegistryCons<Lang, EmptyLanguageRegistry>)
        ensures
            r.prev == self,
            r.names() == self.names().push(Lang::language_name()),
    {
        LanguageRegistryCons { prev: self, lang: PhantomData }
    }
}

impl<Lang: Language, Prev: LanguageRegistry> LanguageRegistryCons<Lang, Prev> {
    /// The registry with one more language: this one, then `Next`.
    pub fn add_language<Next: Language>(self) -> (r: LanguageRegistryCons<Next, LanguageRegistryCons<Lang, Prev>>)
        ensures
            r.prev == self,
            r.names() == self.names().push(Next::language_name()),
    {
        LanguageRegistryCons { prev: self, lang: PhantomData }
    }
}

/// A name is among `ns` with `n` pushed exactly when it is `n` or among `ns`.
proof fn lemma_push_contains(ns: Seq<Seq<char>>, n: Seq<char>, x: Seq<char>)
    ensures
        ns.push(n).contains(x) <==> (x == n || ns.contains(x)),
{
    let all = ns.push(n);
    if all.contains(x) {
        let i = choose|i: int| 0 <= i < all.len() && all[i] == x;
        if i < ns.len() {
            assert(ns[i] == x);
        }
    }
    if ns.contains(x) {
        let i = choose|i: int| 0 <= i < ns.len() && ns[i] == x;
        assert(all[i] == x);
    }
    if x == n {
        assert(all[all.len() - 1] == x);
    }
}

impl LanguageRegistry for EmptyLanguageRegistry {
    open spec fn names(&self) -> Seq<Seq<char>> {
        Seq::empty()
    }

    fn has_language(&self, lang_name: &str) -> (r: bool) {
        false
    }
}

impl<H: LanguageHandler> LanguageDispatch<H> for EmptyLanguageRegistry {
    open spec fn ran_for(&self, name: Seq<char>, handler: H, after: H, out: H::Output) -> bool {
        false
    }

    open spec fn ran_in_turn(&self, states: Seq<H>, outs: Seq<H::Output>) -> bool {
        states.len() == 1 && outs.len() == 0
    }

    fn handle_language(&self, lang_name: &str, handler: &mut H) -> (r: Option<H::Output>) {
        None
    }

    fn each_language(&self, handler: &mut H) -> (r: Vec<H::Output>) {
        let r: Vec<H::Output> = Vec::new();
        let ghost w = seq![*handler];
        assert(self.ran_in_turn(w, r@));
        assert(w[0] == *handler && w[self.names().len() as int] == *handler);
        r
    }
}

impl<Lang: Language, Prev: LanguageRegistry> LanguageRegistry for LanguageRegistryCons<Lang, Prev> {
    open spec fn names(&self) -> Seq<Seq<char>> {
        self.prev.names().push(Lang::language_name())
    }

    fn has_language(&self, lang_name: &str) -> (r: bool) {
        let here = str_eq(lang_name, Lang::name());
        let before = self.prev.has_language(lang_name);
        proof {
            lemma_push_contains(self.prev.names(), Lang::language_name(), lang_name@);
        }
        here || before
    }
}

impl<H: LanguageHandler, Lang: Language, Prev: LanguageDispatch<H>> LanguageDispatch<H> for LanguageRegistryCons<Lang, Prev> {
    open spec fn ran_for(&self, name: Seq<char>, handler: H, after: H, out: H::Output) -> bool {
        if name == Lang::language_name() {
            handler.ran::<Lang>(after, out)
        } else {
            self.prev.ran_for(name, handler, after, out)
        }
    }

    open spec fn ran_in_turn(&self, states: Seq<H>, outs: Seq<H::Output>) -> bool {
        &&& states.len() >= 2
        &&& outs.len() >= 1
        &&& self.prev.ran_in_turn(states.drop_last(), outs.drop_last())
        &&& states[states.len() - 2].ran::<Lang>(states.last(), outs.last())
    }

    fn handle_language(&self, lang_name: &str, handler: &mut H) -> (r: Option<H::Output>) {
        let here = str_eq(lang_name, Lang::name());
        proof {
            lemma_push_contains(self.prev.names(), Lang::language_name(), lang_name@);
        }
        if here {
            Some(handler.run::<Lang>())
        } else {
            self.prev.handle_language(lang_name, handler)
        }
    }

    fn each_language(&self, handler: &mut H) -> (r: Vec<H::Output>) {
        let ghost start = *handler;
        let mut results = self.prev.each_language(handler);
        let ghost pn = self.prev.names();
        let ghost states = choose|states: Seq<H>| #![auto]
            self.prev.ran_in_turn(states, results@) && states.len() == pn.len() + 1
            && states[0] == start && states[pn.len() as int] == *handler;
        let ghost mid = *handler;
        let o = handler.run::<Lang>();
        let ghost pre = results@;
        results.push(o);
        proof {
            let all = states.push(*handler);
            assert(all.drop_last() =~= states);
            assert(results@.drop_last() =~= pre);
            assert(all[all.len() - 2] == mid);
            assert(self.ran_in_turn(all, results@));
            assert(all[0] == start);
        }
        results
    }
}

/// Looking up the name of the language added last finds that language,
/// whatever was added before it under the same name.
pub proof fn lemma_last_added_found<H: LanguageHandler, Lang: Language, Prev: LanguageDispatch<H>>(
    registry: LanguageRegistryCons<Lang, Prev>,
    handler: H,
    after: H,
    out: H::Output,
)
    ensures
        registry.ran_for(Lang::language_name(), handler, after, out) == handler.ran::<Lang>(after, out),
{
}

/// The view of the files of a memory output handler: names and contents.
pub open spec fn files_view(files: Seq<(String, Vec<u8>)>) -> Seq<(Seq<char>, Seq<u8>)> {
    files.map_values(|f: (String, Vec<u8>)| (f.0@, f.1@))
}

/// Keeps generated files in memory, by name.
pub struct MemoryOutputHandler {
    pub files: Vec<(String, Vec<u8>)>,
}

impl MemoryOutputHandler {
    /// No two files have the same name.
    pub open spec fn wf(&self) -> bool {
        forall|i: int, j: int| 0 <= i < j < self.files@.len() ==> self.files@[i].0@ != self.files@[j].0@
    }

    /// A handler with no files.
    pub fn new() -> (r: MemoryOutputHandler)
        ensures
            r.wf(),
            r.files@.len() == 0,
    {
        MemoryOutputHandler { files: Vec::new() }
    }

    /// The file of that name: the one there is, or else a new empty one
    /// added last. Gives its position.
    pub fn create_file(&mut self, path: &str) -> (r: usize)
        requires
            old(self).wf(),
        ensures
            final(self).wf(),
            r < final(self).files@.len(),
            final(self).files@[r as int].0@ == path@,
            (exists|i: int| 0 <= i < old(self).files@.len() && old(self).files@[i].0@ == path@)
                ==> files_view(final(self).files@) == files_view(old(self).files@),
            !(exists|i: int| 0 <= i < old(self).files@.len() && old(self).files@[i].0@ == path@)
                ==> files_view(final(self).files@) == files_view(old(self).files@).push((path@, Seq::<u8>::empty())),
    {
        let mut i: usize = 0;
        while i < self.files.len()
            invariant
                i <= self.files@.len(),
                self.wf(),
                *self == *old(self),
                forall|j: int| 0 <= j < i ==> self.files@[j].0@ != path@,
            decreases self.files@.len() - i,
        {
            if str_eq(self.files[i].0.as_str(), path) {
                return i;
            }
            i = i + 1;
        }
        let mut name = String::new();
        append_str(&mut name, path);
        let ghost before = files_view(self.files@);
        self.files.push((name, Vec::new()));
        assert(files_view(self.files@) =~= before.push((path@, Seq::<u8>::empty())));
        i
    }

    /// Appends bytes to the file at position `file`.
    pub fn write(&mut self, file: usize, data: &[u8])
        requires
            old(self).wf(),
            file < old(self).files@.len(),
        ensures
            final(self).wf(),
            files_view(final(self).files@) == files_view(old(self).files@).update(
                file as int,
                (old(self).files@[file as int].0@, old(self).files@[file as int].1@ + data@),
            ),
    {
        let ghost before = files_view(self.files@);
        let (name, mut content) = self.files.remove(file);
        let mut k: usize = 0;
        while k < data.len()
            invariant
                k <= data@.len(),
                content@ == old(self).files@[file as int].1@ + data@.take(k as int),
            decreases data@.len() - k,
        {
            content.push(data[k]);
            assert(data@.take(k as int + 1) =~= data@.take(k as int).push(data@[k as int]));
            k = k + 1;
        }
        assert(data@.take(k as int) =~= data@);
        self.files.insert(file, (name, content));
        assert(files_view(self.files@) =~= before.update(file as int, (old(self).files@[file as int].0@, old(self).files@[file as int].1@ + data@)));
    }
}

} // verus!
