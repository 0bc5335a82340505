use vstd::prelude::*;

verus! {

/// One past the largest identifier.
pub open spec fn id_limit() -> nat {
    0x1_0000_0000_0000_0000
}

/// Whether a sequence of identifiers rises strictly.
pub open spec fn ascending(s: Seq<u64>) -> bool {
    forall|i: int, j: int| 0 <= i < j < s.len() ==> s[i] < s[j]
}

/// Whether a sequence of identifiers never falls.
pub open spec fn ordered(s: Seq<u64>) -> bool {
    forall|i: int, j: int| 0 <= i <= j < s.len() ==> s[i] <= s[j]
}

/// Folds `f` over the members of `ids` below `n`, in ascending order.
pub open spec fn fold_ids<S>(ids: Set<u64>, n: nat, init: S, f: spec_fn(S, u64) -> S) -> S
    decreases n,
{
    if n == 0 {
        init
    } else {
        let earlier = fold_ids(ids, (n - 1) as nat, init, f);
        if n <= id_limit() && ids.contains((n - 1) as u64) {
            f(earlier, (n - 1) as u64)
        } else {
            earlier
        }
    }
}

/// The bound up to which a walk along `v` has folded once it has handled the
/// first `i` entries.
pub open spec fn folded_to(v: Seq<u64>, i: int) -> nat {
    if i <= 0 {
        0
    } else {
        (v[i - 1] + 1) as nat
    }
}

/// A fold does not change over a stretch that holds no member.
pub proof fn lemma_fold_skip<S>(ids: Set<u64>, a: nat, b: nat, init: S, f: spec_fn(S, u64) -> S)
    requires
        a <= b,
        forall|id: u64| a <= id < b ==> !ids.contains(id),
    ensures
        fold_ids(ids, b, init, f) == fold_ids(ids, a, init, f),
    decreases b - a,
{
    if a < b {
        lemma_fold_skip(ids, a, (b - 1) as nat, init, f);
    }
}

/// Walking an ascending list of all members, the fold up to the next entry
/// is the fold over the entries handled so far.
pub proof fn lemma_fold_next<S>(
    ids: Set<u64>,
    v: Seq<u64>,
    i: int,
    init: S,
    f: spec_fn(S, u64) -> S,
)
    requires
        ascending(v),
        v.to_set() == ids,
        0 <= i < v.len(),
    ensures
        fold_ids(ids, v[i] as nat, init, f) == fold_ids(ids, folded_to(v, i), init, f),
        fold_ids(ids, folded_to(v, i + 1), init, f) == f(
            fold_ids(ids, folded_to(v, i), init, f),
            v[i],
        ),
        folded_to(v, i) <= v[i],
{
    assert forall|id: u64| folded_to(v, i) <= id < v[i] implies !ids.contains(id) by {
        if ids.contains(id) {
            assert(v.to_set().contains(id));
            assert(v.contains(id));
            let j = choose|j: int| 0 <= j < v.len() && v[j] == id;
            if j < i {
                if j < i - 1 {
                    assert(v[j] < v[i - 1]);
                }
            } else if j > i {
                assert(v[i] < v[j]);
            }
        }
    }
    if i > 0 {
        assert(v[i - 1] < v[i]);
    }
    lemma_fold_skip(ids, folded_to(v, i), v[i] as nat, init, f);
    assert(v.contains(v[i]));
    assert(v.to_set().contains(v[i]));
}

/// Once an ascending list of all members has been walked, the fold is complete.
pub proof fn lemma_fold_done<S>(ids: Set<u64>, v: Seq<u64>, init: S, f: spec_fn(S, u64) -> S)
    requires
        ascending(v),
        v.to_set() == ids,
    ensures
        fold_ids(ids, id_limit(), init, f) == fold_ids(ids, folded_to(v, v.len() as int), init, f),
{
    let n = v.len() as int;
    assert forall|id: u64| folded_to(v, n) <= id < id_limit() implies !ids.contains(id) by {
        if ids.contains(id) {
            assert(v.to_set().contains(id));
            assert(v.contains(id));
            let j = choose|j: int| 0 <= j < v.len() && v[j] == id;
            if j < n - 1 {
                assert(v[j] < v[n - 1]);
            }
        }
    }
    lemma_fold_skip(ids, folded_to(v, n), id_limit(), init, f);
}

/// `<[u64]>::sort_unstable`: reorders the entries, each staying as often as it
/// was there, so that none is followed by a smaller one.
#[verifier::external_body]
fn sort_ids(ids: &mut Vec<u64>)
    ensures
        final(ids)@.to_multiset() == old(ids)@.to_multiset(),
        ordered(final(ids)@),
{
    ids.sort_unstable();
}

/// Sorts identifiers that are all different into strictly ascending order.
pub fn sort_distinct(ids: &mut Vec<u64>)
    requires
        old(ids)@.no_duplicates(),
    ensures
        ascending(final(ids)@),
        final(ids)@.to_set() == old(ids)@.to_set(),
        final(ids)@.len() == old(ids)@.len(),
{
    let ghost before = ids@;
    sort_ids(ids);
    proof {
        before.lemma_multiset_has_no_duplicates();
        ids@.lemma_multiset_has_no_duplicates_conv();
        assert forall|i: int, j: int| 0 <= i < j < ids@.len() implies ids@[i] < ids@[j] by {
            assert(ids@[i] <= ids@[j]);
            assert(ids@[i] != ids@[j]);
        }
        before.to_multiset_ensures();
        ids@.to_multiset_ensures();
        assert forall|x: u64| ids@.to_set().contains(x) <==> before.to_set().contains(x) by {
            assert(ids@.contains(x) <==> ids@.to_multiset().count(x) > 0);
            assert(before.contains(x) <==> before.to_multiset().count(x) > 0);
        }
        assert(ids@.to_set() =~= before.to_set());
    }
}

} // verus!
