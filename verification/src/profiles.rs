//! The profile list: the profiles found on disk, listed newest first.
use vstd::prelude::*;
use crate::records::{profile_views, Profile, ProfileView};
use crate::text::{
    lemma_text_less_irreflexive, lemma_text_less_total, lemma_text_less_transitive, text_less,
    text_lt,
};

verus! {

broadcast use vstd::string::group_string_axioms;

/// Whether, in the list `t`, the profile at `i` comes before the one at
/// `j` in newest-first order: it was created later, or at the same time and
/// was found earlier.
pub open spec fn newer_first(t: Seq<ProfileView>, i: int, j: int) -> bool {
    ||| text_less(t[j].created, t[i].created)
    ||| (t[i].created == t[j].created && i < j)
}

/// Whether `r` lists the profiles of `t` newest first, where `r[k]` is the
/// profile at position `perm[k]` of `t`: every profile of `t` appears, and
/// each comes before the ones after it in newest-first order (so profiles
/// created at the same time keep the order they were found in).
pub open spec fn lists_newest_first(t: Seq<ProfileView>, r: Seq<ProfileView>, perm: Seq<int>) -> bool {
    &&& r.len() == t.len()
    &&& perm.len() == t.len()
    &&& forall|k: int| 0 <= k < r.len() ==> 0 <= #[trigger] perm[k] < t.len() && r[k] == t[perm[k]]
    &&& forall|k: int, l: int| 0 <= k < l < r.len() ==> newer_first(t, #[trigger] perm[k], #[trigger] perm[l])
    &&& forall|j: int| 0 <= j < t.len() ==> #[trigger] perm.contains(j)
}

/// The profile list: the profiles found, ordered newest first by creation
/// time, keeping the order found among equal times.
pub fn assemble_profiles(found: Vec<Profile>) -> (r: Vec<Profile>)
    ensures
        exists|perm: Seq<int>| lists_newest_first(profile_views(found@), profile_views(r@), perm),
{
    let ghost t = profile_views(found@);
    let ghost orig = found@;
    let n = found.len();
    let mut rest = found;
    let mut sorted: Vec<Profile> = Vec::new();
    let ghost mut perm: Seq<int> = seq![];
    let mut i: usize = 0;
    while i < n
        invariant
            t == profile_views(orig),
            n == orig.len(),
            0 <= i <= n,
            rest@ == orig.skip(i as int),
            sorted@.len() == i,
            perm.len() == i,
            forall|k: int| 0 <= k < i ==> 0 <= #[trigger] perm[k] < i && sorted@[k]@ == t[perm[k]],
            forall|k: int, l: int| 0 <= k < l < i ==> newer_first(t, #[trigger] perm[k], #[trigger] perm[l]),
            forall|j: int| 0 <= j < i ==> #[trigger] perm.contains(j),
        decreases n - i,
    {
        let p = rest.remove(0);
        assert(orig.skip(i as int)[0] == orig[i as int]);
        assert(rest@ =~= orig.skip(i + 1));
        assert(p@ == t[i as int]);
        let mut pos: usize = 0;
        while pos < sorted.len() && !text_lt(sorted[pos].created.as_str(), p.created.as_str())
            invariant
                0 <= pos <= sorted@.len(),
                forall|k: int| 0 <= k < pos ==> !text_less(#[trigger] sorted@[k].created@, p.created@),
            decreases sorted@.len() - pos,
        {
            pos += 1;
        }
        let ghost old_sorted = sorted@;
        let ghost old_perm = perm;
        proof {
            let x = t[i as int];
            // Every entry before `pos` is not older than the new one.
            assert forall|k: int| 0 <= k < pos implies newer_first(t, #[trigger] old_perm[k], i as int) by {
                assert(old_sorted[k]@ == t[old_perm[k]]);
                assert(!text_less(old_sorted[k].created@, x.created));
                lemma_text_less_total(old_sorted[k].created@, x.created);
            }
            // Every entry from `pos` on is older than the new one.
            assert forall|l: int| pos <= l < i implies newer_first(t, i as int, #[trigger] old_perm[l]) by {
                assert(old_sorted[pos as int]@ == t[old_perm[pos as int]]);
                assert(text_less(old_sorted[pos as int].created@, x.created));
                if l > pos {
                    assert(newer_first(t, old_perm[pos as int], old_perm[l]));
                    assert(old_sorted[l]@ == t[old_perm[l]]);
                    if text_less(t[old_perm[l]].created, t[old_perm[pos as int]].created) {
                        lemma_text_less_transitive(t[old_perm[l]].created, t[old_perm[pos as int]].created, x.created);
                    }
                }
            }
        }
        sorted.insert(pos, p);
        proof {
            perm = perm.insert(pos as int, i as int);
            assert forall|k: int| 0 <= k < i + 1 implies 0 <= #[trigger] perm[k] < i + 1 && sorted@[k]@ == t[perm[k]] by {
                if k < pos {
                    assert(perm[k] == old_perm[k]);
                } else if k > pos {
                    assert(perm[k] == old_perm[k - 1]);
                }
            }
            assert forall|k: int, l: int| 0 <= k < l < i + 1 implies newer_first(t, #[trigger] perm[k], #[trigger] perm[l]) by {
                if k < pos && l < pos {
                    assert(perm[k] == old_perm[k] && perm[l] == old_perm[l]);
                } else if k < pos && l == pos {
                    assert(perm[k] == old_perm[k]);
                } else if k < pos {
                    assert(perm[k] == old_perm[k] && perm[l] == old_perm[l - 1]);
                } else if k == pos {
                    assert(perm[l] == old_perm[l - 1]);
                } else {
                    assert(perm[k] == old_perm[k - 1] && perm[l] == old_perm[l - 1]);
                }
            }
            assert forall|j: int| 0 <= j < i + 1 implies #[trigger] perm.contains(j) by {
                if j < i {
                    assert(old_perm.contains(j));
                    let k = choose|k: int| 0 <= k < old_perm.len() && old_perm[k] == j;
                    if k < pos {
                        assert(perm[k] == j);
                    } else {
                        assert(perm[k + 1] == j);
                    }
                } else {
                    assert(perm[pos as int] == j);
                }
            }
        }
        i += 1;
    }
    assert(lists_newest_first(t, profile_views(sorted@), perm));
    sorted
}


proof fn lemma_newer_first_strict(t: Seq<ProfileView>, i: int, j: int)
    ensures
        !newer_first(t, i, i),
        !(newer_first(t, i, j) && newer_first(t, j, i)),
{
    lemma_text_less_irreflexive(t[i].created);
    lemma_text_less_irreflexive(t[j].created);
    lemma_text_less_total(t[i].created, t[j].created);
}

proof fn lemma_sorted_orders_equal(t: Seq<ProfileView>, p: Seq<int>, q: Seq<int>)
    requires
        p.len() == q.len(),
        forall|x: int| p.contains(x) <==> q.contains(x),
        forall|k: int, l: int| 0 <= k < l < p.len() ==> newer_first(t, #[trigger] p[k], #[trigger] p[l]),
        forall|k: int, l: int| 0 <= k < l < q.len() ==> newer_first(t, #[trigger] q[k], #[trigger] q[l]),
    ensures
        p == q,
    decreases p.len(),
{
    if p.len() == 0 {
        assert(p =~= q);
    } else {
        assert(p.contains(p[0]));
        assert(q.contains(q[0]));
        let k = choose|k: int| 0 <= k < p.len() && p[k] == q[0];
        let l = choose|l: int| 0 <= l < q.len() && q[l] == p[0];
        if p[0] != q[0] {
            assert(k > 0 && l > 0);
            assert(newer_first(t, p[0], p[k]));
            assert(newer_first(t, q[0], q[l]));
            lemma_newer_first_strict(t, p[0], q[0]);
        }
        let p2 = p.drop_first();
        let q2 = q.drop_first();
        assert forall|x: int| p2.contains(x) <==> q2.contains(x) by {
            if p2.contains(x) {
                let m = choose|m: int| 0 <= m < p2.len() && p2[m] == x;
                assert(p[m + 1] == x);
                if x == p[0] {
                    assert(newer_first(t, p[0], p[m + 1]));
                    lemma_newer_first_strict(t, x, x);
                }
                assert(p.contains(x));
                let m2 = choose|m2: int| 0 <= m2 < q.len() && q[m2] == x;
                assert(m2 > 0);
                assert(q2[m2 - 1] == x);
            }
            if q2.contains(x) {
                let m = choose|m: int| 0 <= m < q2.len() && q2[m] == x;
                assert(q[m + 1] == x);
                if x == q[0] {
                    assert(newer_first(t, q[0], q[m + 1]));
                    lemma_newer_first_strict(t, x, x);
                }
                assert(q.contains(x));
                let m2 = choose|m2: int| 0 <= m2 < p.len() && p[m2] == x;
                assert(m2 > 0);
                assert(p2[m2 - 1] == x);
            }
        }
        assert forall|k: int, l: int| 0 <= k < l < p2.len() implies newer_first(t, #[trigger] p2[k], #[trigger] p2[l]) by {
            assert(p2[k] == p[k + 1] && p2[l] == p[l + 1]);
        }
        assert forall|k: int, l: int| 0 <= k < l < q2.len() implies newer_first(t, #[trigger] q2[k], #[trigger] q2[l]) by {
            assert(q2[k] == q[k + 1] && q2[l] == q[l + 1]);
        }
        lemma_sorted_orders_equal(t, p2, q2);
        assert(p =~= seq![p[0]] + p2);
        assert(q =~= seq![q[0]] + q2);
    }
}

/// The newest-first listing of the profiles found is unique: any two
/// listings that both satisfy it are the same list.
pub proof fn law_newest_first_listing_unique(
    t: Seq<ProfileView>,
    r1: Seq<ProfileView>,
    p1: Seq<int>,
    r2: Seq<ProfileView>,
    p2: Seq<int>,
)
    requires
        lists_newest_first(t, r1, p1),
        lists_newest_first(t, r2, p2),
    ensures
        r1 == r2,
{
    assert forall|x: int| p1.contains(x) <==> p2.contains(x) by {
        if p1.contains(x) {
            let k = choose|k: int| 0 <= k < p1.len() && p1[k] == x;
            assert(0 <= p1[k] < t.len());
        }
        if p2.contains(x) {
            let k = choose|k: int| 0 <= k < p2.len() && p2[k] == x;
            assert(0 <= p2[k] < t.len());
        }
    }
    lemma_sorted_orders_equal(t, p1, p2);
    assert forall|k: int| 0 <= k < r1.len() implies #[trigger] r1[k] == r2[k] by {
        assert(0 <= p1[k] < t.len());
        assert(0 <= p2[k] < t.len());
    }
    assert(r1 =~= r2);
}

/// The first profile of a newest-first listing was created no earlier
/// than any other profile in it.
pub proof fn law_newest_first_head(t: Seq<ProfileView>, r: Seq<ProfileView>, perm: Seq<int>)
    requires
        lists_newest_first(t, r, perm),
        r.len() > 0,
    ensures
        forall|k: int| 0 <= k < r.len() ==> !text_less(r[0].created, #[trigger] r[k].created),
{
    assert forall|k: int| 0 <= k < r.len() implies !text_less(r[0].created, #[trigger] r[k].created) by {
        assert(0 <= perm[0] < t.len() && 0 <= perm[k] < t.len());
        lemma_text_less_irreflexive(r[0].created);
        if k > 0 {
            assert(newer_first(t, perm[0], perm[k]));
            lemma_text_less_total(r[0].created, r[k].created);
        }
    }
}

} // verus!
