//! Searching and filtering vectors in place, against spec predicates.
use vstd::prelude::*;

verus! {

/// Position of the first element satisfying `p`, or -1.
pub open spec fn first_where<T>(s: Seq<T>, p: spec_fn(T) -> bool) -> int
    decreases s.len(),
{
    if s.len() == 0 {
        -1
    } else {
        let k = first_where(s.drop_last(), p);
        if k == -1 && p(s.last()) {
            s.len() - 1
        } else {
            k
        }
    }
}

pub proof fn lemma_first_where<T>(s: Seq<T>, p: spec_fn(T) -> bool)
    ensures
        -1 <= first_where(s, p) < s.len(),
        first_where(s, p) >= 0 ==> p(s[first_where(s, p)])
            && forall|j: int| 0 <= j < first_where(s, p) ==> !p(#[trigger] s[j]),
        first_where(s, p) == -1 ==> forall|j: int| 0 <= j < s.len() ==> !p(#[trigger] s[j]),
    decreases s.len(),
{
    if s.len() > 0 {
        lemma_first_where(s.drop_last(), p);
        assert forall|j: int| 0 <= j < s.len() - 1 implies s.drop_last()[j] == s[j] by {}
    }
}

/// Position of the first element for which `f` holds; `f` decides `p`.
pub fn position_where<T, F: Fn(&T) -> bool>(v: &Vec<T>, f: F, Ghost(p): Ghost<spec_fn(T) -> bool>) -> (r: Option<usize>)
    requires
        forall|x: &T| #[trigger] f.requires((x,)),
        forall|x: &T, b: bool| f.ensures((x,), b) ==> b == p(*x),
    ensures
        r is None <==> first_where(v@, p) == -1,
        r matches Some(i) ==> i as int == first_where(v@, p) && i < v@.len() && p(v@[i as int]),
{
    proof {
        lemma_first_where(v@, p);
    }
    let mut i: usize = 0;
    while i < v.len()
        invariant
            i <= v.len(),
            forall|x: &T| #[trigger] f.requires((x,)),
            forall|x: &T, b: bool| f.ensures((x,), b) ==> b == p(*x),
            forall|j: int| 0 <= j < i ==> !p(#[trigger] v@[j]),
        decreases v.len() - i,
    {
        if f(&v[i]) {
            proof {
                lemma_first_where(v@, p);
                let k = first_where(v@, p);
                if k >= 0 && k < i {
                    assert(p(v@[k]));
                }
            }
            return Some(i);
        }
        i = i + 1;
    }
    proof {
        lemma_first_where(v@, p);
        if first_where(v@, p) >= 0 {
            assert(p(v@[first_where(v@, p)]));
        }
    }
    None
}

/// Whether any element satisfies `p`.
pub fn any_where<T, F: Fn(&T) -> bool>(v: &Vec<T>, f: F, Ghost(p): Ghost<spec_fn(T) -> bool>) -> (r: bool)
    requires
        forall|x: &T| #[trigger] f.requires((x,)),
        forall|x: &T, b: bool| f.ensures((x,), b) ==> b == p(*x),
    ensures
        r == (first_where(v@, p) != -1),
        r == exists|j: int| 0 <= j < v@.len() && p(#[trigger] v@[j]),
{
    proof {
        lemma_first_where(v@, p);
    }
    let r = position_where(v, f, Ghost(p));
    proof {
        if let Some(i) = r {
            assert(p(v@[i as int]));
        }
    }
    r.is_some()
}

/// Keep, in order, the elements for which `f` holds; `f` decides `p`.
pub fn retain_where<T, F: Fn(&T) -> bool>(v: &mut Vec<T>, f: F, Ghost(p): Ghost<spec_fn(T) -> bool>)
    requires
        forall|x: &T| #[trigger] f.requires((x,)),
        forall|x: &T, b: bool| f.ensures((x,), b) ==> b == p(*x),
    ensures
        final(v)@ == old(v)@.filter(p),
{
    let ghost orig = v@;
    let ghost mut k: int = 0;
    let mut j: usize = 0;
    proof {
        assert(orig.take(0) =~= Seq::<T>::empty());
        reveal(Seq::filter);
        assert(orig.take(0).filter(p) =~= Seq::<T>::empty());
        assert(orig.skip(0) =~= orig);
        assert(v@ =~= orig.take(0).filter(p) + orig.skip(0));
    }
    while j < v.len()
        invariant
            forall|x: &T| #[trigger] f.requires((x,)),
            forall|x: &T, b: bool| f.ensures((x,), b) ==> b == p(*x),
            0 <= k <= orig.len(),
            j == orig.take(k).filter(p).len(),
            v@ == orig.take(k).filter(p) + orig.skip(k),
        decreases orig.len() - k,
    {
        proof {
            assert(v@[j as int] == orig[k]);
            assert(orig.take(k + 1) =~= orig.take(k).push(orig[k]));
            orig.take(k).lemma_filter_push(orig[k], p);
            assert(orig.skip(k) =~= seq![orig[k]] + orig.skip(k + 1));
        }
        if f(&v[j]) {
            j = j + 1;
            proof {
                k = k + 1;
                assert(v@ =~= orig.take(k).filter(p) + orig.skip(k));
            }
        } else {
            v.remove(j);
            proof {
                k = k + 1;
                assert(v@ =~= orig.take(k).filter(p) + orig.skip(k));
            }
        }
    }
    proof {
        assert(k == orig.len()) by {
            if k < orig.len() {
                assert(v@.len() == j + orig.skip(k).len());
            }
        }
        assert(orig.take(k) =~= orig);
        assert(orig.skip(k) =~= Seq::<T>::empty());
        assert(v@ =~= orig.filter(p));
    }
}

} // verus!
