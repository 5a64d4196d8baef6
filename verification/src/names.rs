//! Package names and qualified names.
use vstd::prelude::*;
use crate::text::{chars_of, string_from_chars, string_push, append_str};

verus! {

/// The pieces of `s` between dots: `"a.b"` gives `["a", "b"]`, `""` gives `[""]`.
pub open spec fn split_dots(s: Seq<char>) -> Seq<Seq<char>>
    decreases s.len(),
{
    if s.len() == 0 {
        seq![seq![]]
    } else {
        let r = split_dots(s.drop_last());
        if s.last() == '.' {
            r.push(seq![])
        } else {
            r.update(r.len() - 1, r.last().push(s.last()))
        }
    }
}

/// The pieces joined with dots between them.
pub open spec fn join_dots(parts: Seq<Seq<char>>) -> Seq<char>
    decreases parts.len(),
{
    if parts.len() == 0 {
        seq![]
    } else if parts.len() == 1 {
        parts[0]
    } else {
        join_dots(parts.drop_last()) + seq!['.'] + parts.last()
    }
}

/// The views of a sequence of strings.
pub open spec fn strings_view(v: Seq<String>) -> Seq<Seq<char>> {
    v.map_values(|s: String| s@)
}

/// ASCII letters made upper case.
pub open spec fn ascii_upper(cs: Seq<char>) -> Seq<char> {
    cs.map_values(|c: char| if 'a' <= c <= 'z' { ((c as u32) - 32) as char } else { c })
}

pub proof fn lemma_strings_view_push(v: Seq<String>, s: String)
    ensures
        strings_view(v.push(s)) == strings_view(v).push(s@),
{
    assert(strings_view(v.push(s)) =~= strings_view(v).push(s@));
}

pub proof fn lemma_map_take_push<A, B>(v: Seq<A>, i: int, f: spec_fn(A) -> B)
    requires
        0 <= i < v.len(),
    ensures
        v.take(i + 1).map_values(f) == v.take(i).map_values(f).push(f(v[i])),
{
    assert(v.take(i + 1).map_values(f) =~= v.take(i).map_values(f).push(f(v[i])));
}

pub proof fn lemma_split_dots_nonempty(s: Seq<char>)
    ensures
        split_dots(s).len() >= 1,
    decreases s.len(),
{
    if s.len() > 0 {
        lemma_split_dots_nonempty(s.drop_last());
    }
}

/// Joining the pieces of `s` gives `s` back.
pub proof fn lemma_join_split(s: Seq<char>)
    ensures
        join_dots(split_dots(s)) == s,
    decreases s.len(),
{
    if s.len() > 0 {
        let p = s.drop_last();
        lemma_join_split(p);
        lemma_split_dots_nonempty(p);
        let r = split_dots(p);
        if s.last() == '.' {
            assert(r.push(seq![]).drop_last() =~= r);
            assert(join_dots(r.push(seq![])) =~= p + seq!['.'] + seq![]);
            assert(p + seq!['.'] =~= s);
        } else {
            let r2 = r.update(r.len() - 1, r.last().push(s.last()));
            if r.len() == 1 {
                assert(join_dots(r) == r[0]);
                assert(r2[0] =~= p.push(s.last()));
            } else {
                assert(r2.drop_last() =~= r.drop_last());
                assert(join_dots(r) == join_dots(r.drop_last()) + seq!['.'] + r.last());
                assert(join_dots(r2) =~= join_dots(r.drop_last()) + seq!['.'] + r.last().push(s.last()));
            }
            assert(p.push(s.last()) =~= s);
        }
    }
}

/// Splitting text followed by a piece without dots extends the last piece.
proof fn lemma_split_append(x: Seq<char>, b: Seq<char>)
    requires
        !b.contains('.'),
    ensures
        split_dots(x + b) == split_dots(x).update(split_dots(x).len() - 1, split_dots(x).last() + b),
    decreases b.len(),
{
    lemma_split_dots_nonempty(x);
    if b.len() == 0 {
        assert(x + b =~= x);
        assert(split_dots(x).last() + b =~= split_dots(x).last());
        assert(split_dots(x).update(split_dots(x).len() - 1, split_dots(x).last()) =~= split_dots(x));
    } else {
        let b0 = b.drop_last();
        let c = b.last();
        assert(!b0.contains('.')) by {
            if b0.contains('.') {
                let i = choose|i: int| 0 <= i < b0.len() && b0[i] == '.';
                assert(b[i] == '.');
            }
        }
        assert(c != '.') by {
            assert(b[b.len() - 1] == c);
        }
        lemma_split_append(x, b0);
        assert((x + b).drop_last() =~= x + b0);
        assert((x + b).last() == c);
        let r = split_dots(x + b0);
        assert(r.last() + seq![] =~= r.last());
        assert(split_dots(x).last() + b0 + seq![c] =~= split_dots(x).last() + b);
        assert(r.update(r.len() - 1, r.last().push(c)) =~= split_dots(x).update(split_dots(x).len() - 1, split_dots(x).last() + b));
    }
}

/// Splitting pieces without dots joined by dots gives the pieces back.
pub proof fn lemma_split_join(parts: Seq<Seq<char>>)
    requires
        parts.len() >= 1,
        forall|i: int| 0 <= i < parts.len() ==> !(#[trigger] parts[i]).contains('.'),
    ensures
        split_dots(join_dots(parts)) == parts,
    decreases parts.len(),
{
    if parts.len() == 1 {
        lemma_split_append(seq![], parts[0]);
        assert(seq![] + parts[0] =~= parts[0]);
        assert(split_dots(Seq::<char>::empty()) =~= seq![seq![]]);
        assert(seq![seq![]].update(0, Seq::<char>::empty() + parts[0]) =~= parts);
    } else {
        let init = parts.drop_last();
        assert forall|i: int| 0 <= i < init.len() implies !(#[trigger] init[i]).contains('.') by {
            assert(init[i] == parts[i]);
        }
        lemma_split_join(init);
        let a = join_dots(init);
        let ad = a + seq!['.'];
        assert(ad.drop_last() =~= a);
        assert(ad.last() == '.');
        assert(split_dots(ad) == split_dots(a).push(seq![]));
        assert(!parts.last().contains('.')) by {
            assert(parts[parts.len() - 1] == parts.last());
        }
        lemma_split_append(ad, parts.last());
        assert(join_dots(parts) == a + seq!['.'] + parts.last());
        assert(Seq::<char>::empty() + parts.last() =~= parts.last());
        assert(split_dots(ad).update(split_dots(ad).len() - 1, split_dots(ad).last() + parts.last()) =~= parts);
    }
}

/// Whatever the package, when each of its parts is non-empty and has no
/// dot, reading its dotted form gives the package back.
pub proof fn lemma_package_split_join(p: Seq<Seq<char>>)
    requires
        forall|i: int| 0 <= i < p.len() ==> (#[trigger] p[i]).len() > 0 && !p[i].contains('.'),
    ensures
        package_from_str(join_dots(p)) == p,
    decreases p.len(),
{
    if p.len() > 0 {
        lemma_split_join(p);
        if p.len() > 1 {
            assert(join_dots(p) == join_dots(p.drop_last()) + seq!['.'] + p.last());
        } else {
            assert(p[0].len() > 0);
        }
        assert(join_dots(p).len() > 0);
    }
}

/// Splitting `s` at its dots.
pub fn split_at_dots(s: &str) -> (r: Vec<String>)
    ensures
        strings_view(r@) == split_dots(s@),
{
    let cs = chars_of(s);
    let mut parts: Vec<String> = Vec::new();
    let mut start: usize = 0;
    let mut i: usize = 0;
    proof {
        assert(cs@.take(0) =~= Seq::<char>::empty());
    }
    while i < cs.len()
        invariant
            start <= i <= cs@.len(),
            cs@ == s@,
            strings_view(parts@).push(cs@.subrange(start as int, i as int)) == split_dots(cs@.take(i as int)),
        decreases cs@.len() - i,
    {
        let ghost before = split_dots(cs@.take(i as int));
        proof {
            assert(cs@.take(i + 1).drop_last() =~= cs@.take(i as int));
            assert(cs@.take(i + 1).last() == cs@[i as int]);
        }
        if cs[i] == '.' {
            let part = string_from_chars(&cs, start, i);
            parts.push(part);
            start = i + 1;
            proof {
                assert(strings_view(parts@) =~= before);
                assert(cs@.subrange(start as int, (i + 1) as int) =~= Seq::<char>::empty());
            }
        } else {
            proof {
                assert(cs@.subrange(start as int, i + 1) =~= cs@.subrange(start as int, i as int).push(cs@[i as int]));
                assert(strings_view(parts@).push(cs@.subrange(start as int, i + 1)) =~= before.update(
                    before.len() - 1,
                    before.last().push(cs@[i as int]),
                ));
            }
        }
        i = i + 1;
    }
    let last = string_from_chars(&cs, start, cs.len());
    parts.push(last);
    proof {
        assert(cs@.take(cs@.len() as int) =~= cs@);
        assert(strings_view(parts@) =~= split_dots(cs@));
    }
    parts
}

/// The strings joined with dots between them.
pub fn join_with_dots(parts: &Vec<String>) -> (r: String)
    ensures
        r@ == join_dots(strings_view(parts@)),
{
    let mut s = String::new();
    let mut i: usize = 0;
    while i < parts.len()
        invariant
            i <= parts@.len(),
            s@ == join_dots(strings_view(parts@).take(i as int)),
        decreases parts@.len() - i,
    {
        let ghost before = strings_view(parts@).take(i as int);
        if i > 0 {
            string_push(&mut s, '.');
        }
        append_str(&mut s, parts[i].as_str());
        proof {
            let now = strings_view(parts@).take(i + 1);
            assert(now.drop_last() =~= before);
            assert(now.last() == parts@[i as int]@);
            if i == 0 {
                assert(s@ =~= join_dots(now));
            } else {
                assert(s@ =~= join_dots(now));
            }
        }
        i = i + 1;
    }
    assert(strings_view(parts@).take(i as int) =~= strings_view(parts@));
    s
}

/// A dot-separated package.
#[derive(Debug, Clone)]
pub struct PackageName {
    pub package: Vec<String>,
}

impl View for PackageName {
    type V = Seq<Seq<char>>;

    open spec fn view(&self) -> Seq<Seq<char>> {
        strings_view(self.package@)
    }
}

/// The package that `PackageName::from_str` reads from `s`.
pub open spec fn package_from_str(s: Seq<char>) -> Seq<Seq<char>> {
    if s.len() == 0 {
        seq![]
    } else {
        split_dots(s)
    }
}

impl PackageName {
    /// The empty (root) package.
    pub fn new() -> (r: PackageName)
        ensures
            r@ == Seq::<Seq<char>>::empty(),
    {
        let r = PackageName { package: Vec::new() };
        assert(r@ =~= Seq::<Seq<char>>::empty());
        r
    }

    /// Reads a package from its dotted form; the empty string is the root package.
    pub fn from_str(pkg: &str) -> (r: PackageName)
        ensures
            r@ == package_from_str(pkg@),
    {
        let cs = chars_of(pkg);
        if cs.len() == 0 {
            let r = PackageName::new();
            r
        } else {
            PackageName { package: split_at_dots(pkg) }
        }
    }

    /// The package made of the given parts.
    pub fn from_parts(parts: &[&str]) -> (r: PackageName)
        ensures
            r@ == parts@.map_values(|p: &str| p@),
    {
        let mut package: Vec<String> = Vec::new();
        let mut i: usize = 0;
        while i < parts.len()
            invariant
                i <= parts@.len(),
                strings_view(package@) == parts@.take(i as int).map_values(|p: &str| p@),
            decreases parts@.len() - i,
        {
            let mut s = String::new();
            append_str(&mut s, parts[i]);
            let ghost before = package@;
            package.push(s);
            proof {
                lemma_strings_view_push(before, s);
                lemma_map_take_push(parts@, i as int, |p: &str| p@);
            }
            i = i + 1;
        }
        assert(parts@.take(i as int) =~= parts@);
        PackageName { package }
    }

    /// The dotted form of the package.
    pub fn to_string(&self) -> (r: String)
        ensures
            r@ == join_dots(self@),
    {
        join_with_dots(&self.package)
    }

    /// Whether the two packages are the same.
    pub fn equals(&self, other: &PackageName) -> (r: bool)
        ensures
            r == (self@ == other@),
    {
        if self.package.len() != other.package.len() {
            return false;
        }
        let mut i: usize = 0;
        while i < self.package.len()
            invariant
                i <= self@.len(),
                self@.len() == other@.len(),
                forall|j: int| 0 <= j < i ==> self@[j] == other@[j],
            decreases self@.len() - i,
        {
            if !(self.package[i] == other.package[i]) {
                assert(self@[i as int] == self.package@[i as int]@);
                assert(other@[i as int] == other.package@[i as int]@);
                return false;
            }
            i = i + 1;
        }
        assert(self@ =~= other@);
        true
    }

    /// A copy of the package.
    pub fn copy(&self) -> (r: PackageName)
        ensures
            r@ == self@,
    {
        let mut package: Vec<String> = Vec::new();
        let mut i: usize = 0;
        while i < self.package.len()
            invariant
                i <= self@.len(),
                strings_view(package@) == self@.take(i as int),
            decreases self@.len() - i,
        {
            let ghost before = package@;
            let c = self.package[i].clone();
            package.push(c);
            proof {
                lemma_strings_view_push(before, c);
                assert(self@.take(i + 1) =~= self@.take(i as int).push(self@[i as int]));
            }
            i = i + 1;
        }
        assert(self@.take(i as int) =~= self@);
        PackageName { package }
    }
}

/// A name that exists within a package.
#[derive(Debug, Clone)]
pub struct QualifiedName {
    pub package: PackageName,
    pub name: String,
}

impl View for QualifiedName {
    type V = (Seq<Seq<char>>, Seq<char>);

    open spec fn view(&self) -> (Seq<Seq<char>>, Seq<char>) {
        (self.package@, self.name@)
    }
}

/// The dotted form of a qualified name.
pub open spec fn qualified_text(q: (Seq<Seq<char>>, Seq<char>)) -> Seq<char> {
    if q.0.len() == 0 {
        q.1
    } else {
        join_dots(q.0) + seq!['.'] + q.1
    }
}

/// The name that `QualifiedName::from_str` reads: the last dotted piece is the
/// name, the others the package.
pub open spec fn qualified_from_str(s: Seq<char>) -> (Seq<Seq<char>>, Seq<char>) {
    (split_dots(s).drop_last(), split_dots(s).last())
}

impl QualifiedName {
    /// Reads a name from its dotted form: the last piece is the name, the
    /// pieces before it the package. Every string gives a name.
    pub fn from_str(name: &str) -> (r: Option<QualifiedName>)
        ensures
            r matches Some(q) && q@ == qualified_from_str(name@),
    {
        let mut parts = split_at_dots(name);
        proof {
            lemma_split_dots_nonempty(name@);
        }
        let last = parts.pop().unwrap();
        let r = QualifiedName { package: PackageName { package: parts }, name: last };
        proof {
            assert(r.package@ =~= split_dots(name@).drop_last());
        }
        Some(r)
    }

    /// The name `name` in the package made of `package`.
    pub fn from_parts(package: &[&str], name: &str) -> (r: QualifiedName)
        ensures
            r@ == (package@.map_values(|p: &str| p@), name@),
    {
        let mut n = String::new();
        append_str(&mut n, name);
        QualifiedName { package: PackageName::from_parts(package), name: n }
    }

    /// The dotted form of the name.
    pub fn to_string(&self) -> (r: String)
        ensures
            r@ == qualified_text(self@),
    {
        if self.package.package.len() == 0 {
            self.name.clone()
        } else {
            let mut s = self.package.to_string();
            string_push(&mut s, '.');
            append_str(&mut s, self.name.as_str());
            s
        }
    }

    /// Whether the two names are the same.
    pub fn equals(&self, other: &QualifiedName) -> (r: bool)
        ensures
            r == (self@ == other@),
    {
        self.package.equals(&other.package) && self.name == other.name
    }

    /// A copy of the name.
    pub fn copy(&self) -> (r: QualifiedName)
        ensures
            r@ == self@,
    {
        QualifiedName { package: self.package.copy(), name: self.name.clone() }
    }
}

/// Upper cases the ASCII letters of a string.
pub fn make_ascii_upper(s: &String) -> (r: String)
    ensures
        r@ == ascii_upper(s@),
{
    let cs = chars_of(s.as_str());
    let mut out = String::new();
    let mut i: usize = 0;
    while i < cs.len()
        invariant
            i <= cs@.len(),
            cs@ == s@,
            out@ == ascii_upper(cs@.take(i as int)),
        decreases cs@.len() - i,
    {
        let c = cs[i];
        let u = if 'a' <= c && c <= 'z' {
            ((c as u8) - 32) as char
        } else {
            c
        };
        string_push(&mut out, u);
        assert(ascii_upper(cs@.take(i + 1)) =~= ascii_upper(cs@.take(i as int)).push(u));
        i = i + 1;
    }
    assert(cs@.take(i as int) =~= cs@);
    out
}

/// The name with ASCII letters upper cased, as names are compared for clashes.
pub open spec fn upper_name(q: (Seq<Seq<char>>, Seq<char>)) -> (Seq<Seq<char>>, Seq<char>) {
    (q.0.map_values(|p: Seq<char>| ascii_upper(p)), ascii_upper(q.1))
}

/// Upper cases the ASCII letters of every part of a name.
pub fn make_name_uppercase(name: &mut QualifiedName)
    ensures
        final(name)@ == upper_name(old(name)@),
{
    let mut parts: Vec<String> = Vec::new();
    let mut i: usize = 0;
    while i < name.package.package.len()
        invariant
            i <= name.package@.len(),
            name@ == old(name)@,
            strings_view(parts@) == old(name)@.0.take(i as int).map_values(|p: Seq<char>| ascii_upper(p)),
        decreases name.package@.len() - i,
    {
        let u = make_ascii_upper(&name.package.package[i]);
        let ghost before = parts@;
        parts.push(u);
        proof {
            lemma_strings_view_push(before, u);
            lemma_map_take_push(old(name)@.0, i as int, |p: Seq<char>| ascii_upper(p));
        }
        i = i + 1;
    }
    assert(old(name)@.0.take(i as int) =~= old(name)@.0);
    let n = make_ascii_upper(&name.name);
    name.package = PackageName { package: parts };
    name.name = n;
}

/// Reading the dotted form of a qualified name gives back the text.
pub proof fn lemma_qualified_text_roundtrip(s: Seq<char>)
    ensures
        qualified_text(qualified_from_str(s)) == s,
{
    let parts = split_dots(s);
    lemma_split_dots_nonempty(s);
    lemma_join_split(s);
    if parts.len() == 1 {
        assert(parts.drop_last().len() == 0);
    } else {
        assert(join_dots(parts) == join_dots(parts.drop_last()) + seq!['.'] + parts.last());
    }
}

/// The dotted form of a package read back gives the text.
pub proof fn lemma_package_text_roundtrip(s: Seq<char>)
    ensures
        join_dots(package_from_str(s)) == s,
{
    if s.len() > 0 {
        lemma_join_split(s);
    }
}

} // verus!
