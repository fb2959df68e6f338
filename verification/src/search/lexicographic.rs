//! Lexicographic order of character sequences (the order of `str`).

use vstd::prelude::*;

verus! {

/// `a` comes strictly before `b` in lexicographic order.
pub open spec fn seq_lt(a: Seq<char>, b: Seq<char>) -> bool
    decreases a.len(),
{
    if a.len() == 0 {
        b.len() > 0
    } else if b.len() == 0 {
        false
    } else if a[0] != b[0] {
        a[0] < b[0]
    } else {
        seq_lt(a.drop_first(), b.drop_first())
    }
}

/// `p` is a prefix of `s`.
pub open spec fn has_prefix(s: Seq<char>, p: Seq<char>) -> bool {
    p.len() <= s.len() && s.subrange(0, p.len() as int) == p
}

/// No sequence comes before itself.
pub proof fn lemma_seq_lt_irrefl(a: Seq<char>)
    ensures
        !seq_lt(a, a),
    decreases a.len(),
{
    if a.len() > 0 {
        lemma_seq_lt_irrefl(a.drop_first());
    }
}

/// Strict order is irreflexive and asymmetric, and two sequences are
/// either equal or ordered one way.
pub proof fn lemma_seq_lt_total(a: Seq<char>, b: Seq<char>)
    ensures
        !seq_lt(a, a),
        !(seq_lt(a, b) && seq_lt(b, a)),
        a != b ==> seq_lt(a, b) || seq_lt(b, a),
    decreases a.len(),
{
    lemma_seq_lt_irrefl(a);
    if a.len() > 0 && b.len() > 0 {
        lemma_seq_lt_total(a.drop_first(), b.drop_first());
        if a[0] == b[0] && a != b {
            assert(a.drop_first() != b.drop_first()) by {
                if a.drop_first() == b.drop_first() {
                    assert(a =~= seq![a[0]] + a.drop_first());
                    assert(b =~= seq![b[0]] + b.drop_first());
                }
            }
        }
    } else if a.len() > 0 {
    } else if b.len() > 0 {
    } else {
        assert(a =~= b);
    }
}

/// The strict order is transitive.
pub proof fn lemma_seq_lt_trans(a: Seq<char>, b: Seq<char>, c: Seq<char>)
    requires
        seq_lt(a, b),
        seq_lt(b, c),
    ensures
        seq_lt(a, c),
    decreases a.len(),
{
    if a.len() > 0 && b.len() > 0 && c.len() > 0 {
        if a[0] == b[0] && b[0] == c[0] {
            lemma_seq_lt_trans(a.drop_first(), b.drop_first(), c.drop_first());
        }
    }
}

/// A sequence that extends `p` is not before `p`.
pub proof fn lemma_prefix_not_lt(s: Seq<char>, p: Seq<char>)
    requires
        has_prefix(s, p),
    ensures
        !seq_lt(s, p),
    decreases p.len(),
{
    if p.len() > 0 {
        assert(s[0] == p[0]) by {
            assert(s.subrange(0, p.len() as int)[0] == s[0]);
        }
        assert(s.drop_first().subrange(0, p.len() - 1) =~= p.drop_first()) by {
            assert forall|i: int| 0 <= i < p.len() - 1 implies s.drop_first().subrange(
                0,
                p.len() - 1,
            )[i] == p.drop_first()[i] by {
                assert(s.subrange(0, p.len() as int)[i + 1] == s[i + 1]);
            }
        }
        lemma_prefix_not_lt(s.drop_first(), p.drop_first());
    }
}

/// Between a sequence with prefix `p` and a later sequence that is after
/// `p` but does not start with it, every sequence is not prefixed by `p`
/// once it is after the latter: extensions of `p` form an interval.
pub proof fn lemma_prefix_interval(p: Seq<char>, x: Seq<char>, y: Seq<char>)
    requires
        seq_lt(p, x),
        !has_prefix(x, p),
        !seq_lt(y, x),
    ensures
        !has_prefix(y, p),
        seq_lt(p, y),
    decreases p.len(),
{
    lemma_seq_lt_total(x, y);
    if p.len() == 0 {
        assert(x.subrange(0, 0) =~= p);
    } else if x == y {
    } else {
        assert(seq_lt(x, y));
        lemma_seq_lt_trans(p, x, y);
        assert(x.len() > 0);
        assert(y.len() > 0);
        if p[0] == x[0] && x[0] == y[0] {
            assert(!has_prefix(x.drop_first(), p.drop_first())) by {
                if has_prefix(x.drop_first(), p.drop_first()) {
                    assert(x.subrange(0, p.len() as int) =~= seq![x[0]] + x.drop_first().subrange(
                        0,
                        p.len() - 1,
                    ));
                    assert(p =~= seq![p[0]] + p.drop_first());
                }
            }
            lemma_prefix_interval(p.drop_first(), x.drop_first(), y.drop_first());
            if has_prefix(y, p) {
                assert(y.drop_first().subrange(0, p.len() - 1) =~= p.drop_first()) by {
                    assert forall|i: int| 0 <= i < p.len() - 1 implies y.drop_first().subrange(
                        0,
                        p.len() - 1,
                    )[i] == p.drop_first()[i] by {
                        assert(y.subrange(0, p.len() as int)[i + 1] == y[i + 1]);
                    }
                }
            }
        } else if has_prefix(y, p) {
            assert(y.subrange(0, p.len() as int)[0] == y[0]);
            assert(y[0] == p[0]);
            if p[0] == x[0] {
                assert(x[0] != y[0]);
            } else {
                assert(p[0] < x[0]);
                assert(x[0] != y[0]);
                assert(x[0] < y[0]);
            }
        }
    }
}

/// Compares two character sequences lexicographically: whether `a < b`.
pub fn chars_lt(a: &[char], b: &[char]) -> (r: bool)
    ensures
        r == seq_lt(a@, b@),
{
    let mut i: usize = 0;
    assert(a@.subrange(0, a@.len() as int) =~= a@);
    assert(b@.subrange(0, b@.len() as int) =~= b@);
    while i < a.len() && i < b.len() && a[i] == b[i]
        invariant
            i <= a@.len(),
            i <= b@.len(),
            a@.subrange(0, i as int) == b@.subrange(0, i as int),
            seq_lt(a@, b@) == seq_lt(a@.subrange(i as int, a@.len() as int), b@.subrange(i as int, b@.len() as int)),
        decreases a@.len() - i,
    {
        assert(a@.subrange(i as int, a@.len() as int).drop_first() =~= a@.subrange(i + 1, a@.len() as int));
        assert(b@.subrange(i as int, b@.len() as int).drop_first() =~= b@.subrange(i + 1, b@.len() as int));
        assert(a@.subrange(0, i + 1) =~= a@.subrange(0, i as int).push(a@[i as int]));
        assert(b@.subrange(0, i + 1) =~= b@.subrange(0, i as int).push(b@[i as int]));
        i = i + 1;
    }
    if i == a.len() {
        i < b.len()
    } else if i == b.len() {
        false
    } else {
        a[i] < b[i]
    }
}

/// Whether `s` starts with `p`.
pub fn chars_has_prefix(s: &[char], p: &[char]) -> (r: bool)
    ensures
        r == has_prefix(s@, p@),
{
    if p.len() > s.len() {
        return false;
    }
    let mut i: usize = 0;
    while i < p.len()
        invariant
            p@.len() <= s@.len(),
            i <= p@.len(),
            forall|j: int| 0 <= j < i ==> s@[j] == p@[j],
        decreases p@.len() - i,
    {
        if s[i] != p[i] {
            assert(s@.subrange(0, p@.len() as int)[i as int] != p@[i as int]);
            return false;
        }
        i = i + 1;
    }
    assert(s@.subrange(0, p@.len() as int) =~= p@);
    true
}

} // verus!
