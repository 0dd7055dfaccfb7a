use vstd::prelude::*;

verus! {

/// The sub-sequence of `s` whose elements satisfy `p`, in order.
///
/// Every per-tick pass over the entity store either transforms records or
/// drops some of them; `kept` and `mapped` are the two shapes those passes
/// take in contracts.
pub open spec fn kept<A>(s: Seq<A>, p: spec_fn(A) -> bool) -> Seq<A>
    decreases s.len(),
{
    if s.len() == 0 {
        Seq::empty()
    } else {
        let rest = kept(s.drop_last(), p);
        if p(s.last()) {
            rest.push(s.last())
        } else {
            rest
        }
    }
}

/// `s` with `f` applied to every element.
pub open spec fn mapped<A>(s: Seq<A>, f: spec_fn(A) -> A) -> Seq<A>
    decreases s.len(),
{
    if s.len() == 0 {
        Seq::empty()
    } else {
        mapped(s.drop_last(), f).push(f(s.last()))
    }
}

pub broadcast proof fn lemma_kept_push<A>(s: Seq<A>, p: spec_fn(A) -> bool, e: A)
    ensures
        #[trigger] kept(s.push(e), p) == if p(e) {
            kept(s, p).push(e)
        } else {
            kept(s, p)
        },
{
    assert(s.push(e).drop_last() =~= s);
}

pub broadcast proof fn lemma_mapped_push<A>(s: Seq<A>, f: spec_fn(A) -> A, e: A)
    ensures
        #[trigger] mapped(s.push(e), f) == mapped(s, f).push(f(e)),
{
    assert(s.push(e).drop_last() =~= s);
}

/// Everything `kept` returns satisfies the predicate and comes from `s`;
/// everything in `s` that satisfies the predicate is returned.
pub proof fn lemma_kept_props<A>(s: Seq<A>, p: spec_fn(A) -> bool)
    ensures
        kept(s, p).len() <= s.len(),
        forall|j: int|
            0 <= j < kept(s, p).len() ==> p(#[trigger] kept(s, p)[j]) && exists|i: int|
                0 <= i < s.len() && s[i] == kept(s, p)[j],
        forall|i: int| 0 <= i < s.len() && p(#[trigger] s[i]) ==> kept(s, p).contains(s[i]),
    decreases s.len(),
{
    if s.len() > 0 {
        let d = s.drop_last();
        lemma_kept_props(d, p);
        assert(forall|i: int| 0 <= i < d.len() ==> d[i] == s[i]);
        assert forall|i: int| 0 <= i < s.len() && p(#[trigger] s[i]) implies kept(s, p).contains(
            s[i],
        ) by {
            if i < d.len() {
                let j = choose|j: int| 0 <= j < kept(d, p).len() && kept(d, p)[j] == d[i];
                if p(s.last()) {
                    assert(kept(s, p)[j] == s[i]);
                } else {
                    assert(kept(s, p)[j] == s[i]);
                }
            } else {
                assert(s[i] == s.last());
                assert(kept(s, p).last() == s.last());
            }
        }
    }
}

/// `mapped` is the pointwise image of `s` under `f`.
pub proof fn lemma_mapped_props<A>(s: Seq<A>, f: spec_fn(A) -> A)
    ensures
        mapped(s, f).len() == s.len(),
        forall|i: int| 0 <= i < s.len() ==> mapped(s, f)[i] == f(#[trigger] s[i]),
    decreases s.len(),
{
    if s.len() > 0 {
        let d = s.drop_last();
        lemma_mapped_props(d, f);
        assert forall|i: int| 0 <= i < s.len() implies mapped(s, f)[i] == f(#[trigger] s[i]) by {
            if i < d.len() {
                assert(mapped(s, f)[i] == mapped(d, f)[i]);
                assert(d[i] == s[i]);
            } else {
                assert(mapped(s, f)[i] == f(s.last()));
            }
        }
    }
}

} // verus!
