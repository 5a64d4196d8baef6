//! The order of package and qualified names: part by part, each part
//! character by character.
use vstd::prelude::*;
use core::cmp::Ordering;
use crate::names::{PackageName, QualifiedName};
use crate::text::{chars_of, seq_from, nth};

verus! {

/// The order of two texts, character by character; a text before any longer
/// text it begins.
pub open spec fn chars_order(a: Seq<char>, b: Seq<char>) -> Ordering
    decreases a.len(),
{
    if a.len() == 0 && b.len() == 0 {
        Ordering::Equal
    } else if a.len() == 0 {
        Ordering::Less
    } else if b.len() == 0 {
        Ordering::Greater
    } else if a[0] < b[0] {
        Ordering::Less
    } else if a[0] > b[0] {
        Ordering::Greater
    } else {
        chars_order(a.drop_first(), b.drop_first())
    }
}

/// The order of two packages, part by part; a package before any longer
/// package it begins.
pub open spec fn parts_order(a: Seq<Seq<char>>, b: Seq<Seq<char>>) -> Ordering
    decreases a.len(),
{
    if a.len() == 0 && b.len() == 0 {
        Ordering::Equal
    } else if a.len() == 0 {
        Ordering::Less
    } else if b.len() == 0 {
        Ordering::Greater
    } else {
        match chars_order(a[0], b[0]) {
            Ordering::Equal => parts_order(a.drop_first(), b.drop_first()),
            o => o,
        }
    }
}

/// The order of two qualified names: by package, then by name.
pub open spec fn names_order(a: (Seq<Seq<char>>, Seq<char>), b: (Seq<Seq<char>>, Seq<char>)) -> Ordering {
    match parts_order(a.0, b.0) {
        Ordering::Equal => chars_order(a.1, b.1),
        o => o,
    }
}

/// The opposite order.
pub open spec fn flipped(o: Ordering) -> Ordering {
    match o {
        Ordering::Less => Ordering::Greater,
        Ordering::Equal => Ordering::Equal,
        Ordering::Greater => Ordering::Less,
    }
}

/// Whatever the texts, they are equal exactly when neither comes first, and
/// swapping them flips their order.
pub proof fn lemma_chars_order(a: Seq<char>, b: Seq<char>)
    ensures
        (chars_order(a, b) == Ordering::Equal) <==> a == b,
        chars_order(b, a) == flipped(chars_order(a, b)),
    decreases a.len(),
{
    if a.len() > 0 && b.len() > 0 && a[0] == b[0] {
        lemma_chars_order(a.drop_first(), b.drop_first());
        if a.drop_first() == b.drop_first() {
            assert(a =~= seq![a[0]] + a.drop_first());
            assert(b =~= seq![b[0]] + b.drop_first());
        }
    }
    if a.len() > 0 && b.len() > 0 && a[0] != b[0] {
        assert(a[0] != b[0] ==> a != b);
    }
    if a.len() == 0 && b.len() == 0 {
        assert(a =~= b);
    }
}

/// Whatever the packages, they are equal exactly when neither comes first,
/// and swapping them flips their order.
pub proof fn lemma_parts_order(a: Seq<Seq<char>>, b: Seq<Seq<char>>)
    ensures
        (parts_order(a, b) == Ordering::Equal) <==> a == b,
        parts_order(b, a) == flipped(parts_order(a, b)),
    decreases a.len(),
{
    if a.len() == 0 && b.len() == 0 {
        assert(a =~= b);
    }
    if a.len() > 0 && b.len() > 0 {
        lemma_chars_order(a[0], b[0]);
        if a[0] == b[0] {
            lemma_parts_order(a.drop_first(), b.drop_first());
            if a.drop_first() == b.drop_first() {
                assert(a =~= seq![a[0]] + a.drop_first());
                assert(b =~= seq![b[0]] + b.drop_first());
            }
        }
    }
}

/// Whatever the names, they are equal exactly when neither comes first, and
/// swapping them flips their order.
pub proof fn lemma_names_order(a: (Seq<Seq<char>>, Seq<char>), b: (Seq<Seq<char>>, Seq<char>))
    ensures
        (names_order(a, b) == Ordering::Equal) <==> a == b,
        names_order(b, a) == flipped(names_order(a, b)),
{
    lemma_parts_order(a.0, b.0);
    lemma_chars_order(a.1, b.1);
}

/// Compares two texts character by character.
pub fn compare_text(a: &String, b: &String) -> (r: Ordering)
    ensures
        r == chars_order(a@, b@),
{
    let x = chars_of(a.as_str());
    let y = chars_of(b.as_str());
    let mut i: usize = 0;
    assert(seq_from(x@, 0) =~= x@);
    assert(seq_from(y@, 0) =~= y@);
    while i < x.len() && i < y.len() && x[i] == y[i]
        invariant
            i <= x@.len(),
            i <= y@.len(),
            x@ == a@,
            y@ == b@,
            chars_order(a@, b@) == chars_order(seq_from(x@, i), seq_from(y@, i)),
        decreases x@.len() - i,
    {
        let ghost j = i;
        i = i + 1;
        assert(seq_from(x@, j).drop_first() =~= seq_from(x@, i));
        assert(seq_from(y@, j).drop_first() =~= seq_from(y@, i));
    }
    if i == x.len() && i == y.len() {
        Ordering::Equal
    } else if i == x.len() {
        Ordering::Less
    } else if i == y.len() {
        Ordering::Greater
    } else if x[i] < y[i] {
        assert(seq_from(x@, i)[0] == nth(x@, i));
        assert(seq_from(y@, i)[0] == nth(y@, i));
        Ordering::Less
    } else {
        assert(seq_from(x@, i)[0] == nth(x@, i));
        assert(seq_from(y@, i)[0] == nth(y@, i));
        Ordering::Greater
    }
}

impl PackageName {
    /// Orders packages part by part; a package comes before any longer
    /// package it begins.
    pub fn cmp(&self, other: &PackageName) -> (r: Ordering)
        ensures
            r == parts_order(self@, other@),
    {
        let mut i: usize = 0;
        assert(seq_from(self@, 0) =~= self@);
        assert(seq_from(other@, 0) =~= other@);
        while i < self.package.len() && i < other.package.len()
            invariant
                i <= self@.len(),
                i <= other@.len(),
                parts_order(self@, other@) == parts_order(seq_from(self@, i), seq_from(other@, i)),
            decreases self@.len() - i,
        {
            let o = compare_text(&self.package[i], &other.package[i]);
            assert(seq_from(self@, i)[0] == nth(self.package@, i)@);
            assert(seq_from(other@, i)[0] == nth(other.package@, i)@);
            match o {
                Ordering::Equal => {},
                _ => return o,
            }
            let ghost j = i;
            i = i + 1;
            assert(seq_from(self@, j).drop_first() =~= seq_from(self@, i));
            assert(seq_from(other@, j).drop_first() =~= seq_from(other@, i));
        }
        if i == self.package.len() && i == other.package.len() {
            Ordering::Equal
        } else if i == self.package.len() {
            Ordering::Less
        } else {
            Ordering::Greater
        }
    }
}

impl QualifiedName {
    /// Orders names by package, then by name.
    pub fn cmp(&self, other: &QualifiedName) -> (r: Ordering)
        ensures
            r == names_order(self@, other@),
    {
        match self.package.cmp(&other.package) {
            Ordering::Equal => compare_text(&self.name, &other.name),
            o => o,
        }
    }
}


/// Coming first is transitive for texts.
pub proof fn lemma_chars_order_trans(a: Seq<char>, b: Seq<char>, c: Seq<char>)
    requires
        chars_order(a, b) == Ordering::Less,
        chars_order(b, c) == Ordering::Less,
    ensures
        chars_order(a, c) == Ordering::Less,
    decreases a.len(),
{
    if a.len() > 0 && b.len() > 0 && c.len() > 0 && a[0] == b[0] && b[0] == c[0] {
        lemma_chars_order_trans(a.drop_first(), b.drop_first(), c.drop_first());
    }
}

/// Coming first is transitive for packages.
pub proof fn lemma_parts_order_trans(a: Seq<Seq<char>>, b: Seq<Seq<char>>, c: Seq<Seq<char>>)
    requires
        parts_order(a, b) == Ordering::Less,
        parts_order(b, c) == Ordering::Less,
    ensures
        parts_order(a, c) == Ordering::Less,
    decreases a.len(),
{
    if a.len() > 0 && b.len() > 0 && c.len() > 0 {
        lemma_chars_order(a[0], b[0]);
        lemma_chars_order(b[0], c[0]);
        lemma_chars_order(a[0], c[0]);
        if chars_order(a[0], b[0]) == Ordering::Less && chars_order(b[0], c[0]) == Ordering::Less {
            lemma_chars_order_trans(a[0], b[0], c[0]);
        }
        if a[0] == b[0] && b[0] == c[0] {
            lemma_parts_order_trans(a.drop_first(), b.drop_first(), c.drop_first());
        }
    }
}

/// Coming first is transitive for qualified names.
pub proof fn lemma_names_order_trans(a: (Seq<Seq<char>>, Seq<char>), b: (Seq<Seq<char>>, Seq<char>), c: (Seq<Seq<char>>, Seq<char>))
    requires
        names_order(a, b) == Ordering::Less,
        names_order(b, c) == Ordering::Less,
    ensures
        names_order(a, c) == Ordering::Less,
{
    lemma_parts_order(a.0, b.0);
    lemma_parts_order(b.0, c.0);
    lemma_parts_order(a.0, c.0);
    if parts_order(a.0, b.0) == Ordering::Less && parts_order(b.0, c.0) == Ordering::Less {
        lemma_parts_order_trans(a.0, b.0, c.0);
    }
    if parts_order(a.0, b.0) == Ordering::Equal && parts_order(b.0, c.0) == Ordering::Equal {
        lemma_chars_order_trans(a.1, b.1, c.1);
    }
}

} // verus!
