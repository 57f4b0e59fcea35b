//! Lists from which some values are kept.
use vstd::prelude::*;

verus! {

/// A choice of values to keep.
pub trait Keeps<V> {
    spec fn keeps(&self, v: V) -> bool;

    fn keep(&self, v: &V) -> (r: bool)
        ensures
            r == self.keeps(*v),
    ;
}

/// The choice as a predicate.
pub open spec fn keeping<V, C: Keeps<V>>(c: C) -> spec_fn(V) -> bool {
    |v: V| c.keeps(v)
}

/// The values of a list that satisfy `p`, in their order.
pub open spec fn kept<V>(s: Seq<V>, p: spec_fn(V) -> bool) -> Seq<V>
    decreases s.len(),
{
    if s.len() == 0 {
        s
    } else if p(s.last()) {
        kept(s.drop_last(), p).push(s.last())
    } else {
        kept(s.drop_last(), p)
    }
}

/// What is kept is what was there and satisfies `p`.
pub proof fn lemma_kept<V>(s: Seq<V>, p: spec_fn(V) -> bool, x: V)
    ensures
        kept(s, p).contains(x) <==> s.contains(x) && p(x),
        kept(s, p).len() <= s.len(),
    decreases s.len(),
{
    if s.len() > 0 {
        let d = s.drop_last();
        lemma_kept(d, p, x);
        if kept(s, p).contains(x) {
            let i = choose|i: int| 0 <= i < kept(s, p).len() && kept(s, p)[i] == x;
            if i < kept(d, p).len() {
                assert(kept(d, p)[i] == x);
                let j = choose|j: int| 0 <= j < d.len() && d[j] == x;
                assert(s[j] == x);
            } else {
                assert(s[s.len() - 1] == x);
            }
        }
        if s.contains(x) && p(x) {
            let j = choose|j: int| 0 <= j < s.len() && s[j] == x;
            if j < d.len() {
                assert(d[j] == x);
                let i = choose|i: int| 0 <= i < kept(d, p).len() && kept(d, p)[i] == x;
                assert(kept(s, p)[i] == x);
            } else {
                assert(kept(s, p)[kept(d, p).len() as int] == x);
            }
        }
    } else if kept(s, p).contains(x) {
        assert(false);
    }
}

/// Numbers other than one.
pub open spec fn other_than(x: u32) -> spec_fn(u32) -> bool {
    |v: u32| v != x
}

/// A list without duplicates loses at most one value when one value is dropped.
pub proof fn lemma_without_one(s: Seq<u32>, x: u32)
    requires
        s.no_duplicates(),
    ensures
        kept(s, other_than(x)).no_duplicates(),
        kept(s, other_than(x)).len() == s.len() - (if s.contains(x) {
            1int
        } else {
            0int
        }),
    decreases s.len(),
{
    let p = other_than(x);
    if s.len() > 0 {
        let d = s.drop_last();
        assert(d.no_duplicates());
        lemma_without_one(d, x);
        assert(s.contains(x) <==> d.contains(x) || s.last() == x) by {
            if s.contains(x) {
                let j = choose|j: int| 0 <= j < s.len() && s[j] == x;
                if j < d.len() {
                    assert(d[j] == x);
                }
            }
            if d.contains(x) {
                let j = choose|j: int| 0 <= j < d.len() && d[j] == x;
                assert(s[j] == x);
            }
            if s.last() == x {
                assert(s[s.len() - 1] == x);
            }
        }
        if s.last() == x {
            assert(!d.contains(x)) by {
                if d.contains(x) {
                    let j = choose|j: int| 0 <= j < d.len() && d[j] == x;
                    assert(s[j] == s[s.len() - 1]);
                }
            }
        } else {
            let k = kept(d, p);
            assert(!k.contains(s.last())) by {
                lemma_kept(d, p, s.last());
                if d.contains(s.last()) {
                    let j = choose|j: int| 0 <= j < d.len() && d[j] == s.last();
                    assert(s[j] == s[s.len() - 1]);
                }
            }
            let r = kept(s, p);
            assert(r == k.push(s.last()));
            assert forall|i: int, j: int| 0 <= i < r.len() && 0 <= j < r.len() && i != j implies r[i] != r[j] by {
                if i == k.len() {
                    assert(k[j] == r[j]);
                    assert(k.contains(k[j]));
                } else if j == k.len() {
                    assert(k[i] == r[i]);
                    assert(k.contains(k[i]));
                } else {
                    assert(k[i] == r[i] && k[j] == r[j]);
                }
            }
        }
    }
}

/// Drops the values that a choice does not keep.
pub fn keep_in<V, C: Keeps<V>>(v: &mut Vec<V>, c: &C)
    ensures
        final(v)@ == kept(old(v)@, keeping(*c)),
{
    let ghost s = v@;
    let ghost p = keeping::<V, C>(*c);
    let ghost mut j: int = 0;
    let mut i: usize = 0;
    assert(s.take(0) =~= Seq::<V>::empty());
    while i < v.len()
        invariant
            0 <= j <= s.len(),
            s == old(v)@,
            p == keeping::<V, C>(*c),
            i == kept(s.take(j), p).len(),
            v@ == kept(s.take(j), p) + s.skip(j),
        decreases v@.len() - i,
    {
        proof {
            assert(v@[i as int] == s[j]);
            assert(s.take(j + 1).drop_last() =~= s.take(j));
            assert(s.take(j + 1).last() == s[j]);
        }
        if c.keep(&v[i]) {
            i = i + 1;
            proof {
                assert(v@ =~= kept(s.take(j + 1), p) + s.skip(j + 1));
            }
        } else {
            let _ = v.remove(i);
            proof {
                assert(v@ =~= kept(s.take(j + 1), p) + s.skip(j + 1));
            }
        }
        proof {
            j = j + 1;
        }
    }
    assert(s.take(j) =~= s);
    assert(v@ =~= kept(s, p));
}

} // verus!
