//! Descending order on (user, balance) pairs, and the top-N selection that
//! both leaderboard queries share: sort by balance, keep the first `limit`.

use vstd::prelude::*;

verus! {

/// Sorted by balance, largest first.
pub open spec fn sorted_desc(s: Seq<(u64, u32)>) -> bool {
    forall|i: int, j: int| 0 <= i <= j < s.len() ==> s[i].1 >= s[j].1
}

/// The users a pair sequence names, in order.
pub open spec fn keys_of(s: Seq<(u64, u32)>) -> Seq<u64> {
    s.map_values(|p: (u64, u32)| p.0)
}

/// Sort pairs by balance, descending. The result holds exactly the given
/// pairs: the multiset is unchanged.
pub fn sort_pairs_desc(v: Vec<(u64, u32)>) -> (r: Vec<(u64, u32)>)
    ensures
        sorted_desc(r@),
        r@.to_multiset() == v@.to_multiset(),
{
    let mut src = v;
    let mut out: Vec<(u64, u32)> = Vec::new();
    proof {
        broadcast use vstd::seq_lib::group_to_multiset_ensures;
        broadcast use vstd::multiset::group_multiset_axioms;

        assert forall|p: (u64, u32)| out@.to_multiset().count(p) == 0 by {
            assert(!out@.contains(p));
        }
        assert(out@.to_multiset().add(src@.to_multiset()) =~= v@.to_multiset());
    }
    while src.len() > 0
        invariant
            out@.to_multiset().add(src@.to_multiset()) =~= v@.to_multiset(),
            sorted_desc(out@),
            forall|a: int, b: int|
                0 <= a < out@.len() && 0 <= b < src@.len() ==> out@[a].1 >= src@[b].1,
        decreases src@.len(),
    {
        let ghost out0 = out@;
        let ghost src0 = src@;
        let mut m: usize = 0;
        let mut k: usize = 1;
        while k < src.len()
            invariant
                src@ == src0,
                src@.len() > 0,
                0 <= m < src@.len(),
                1 <= k <= src@.len(),
                forall|j: int| 0 <= j < k ==> src@[m as int].1 >= src@[j].1,
            decreases src@.len() - k,
        {
            if src[k].1 > src[m].1 {
                m = k;
            }
            k = k + 1;
        }
        let x = src.remove(m);
        out.push(x);
        proof {
            broadcast use vstd::seq_lib::group_to_multiset_ensures;
            broadcast use vstd::multiset::group_multiset_axioms;

            assert(src0.contains(x)) by {
                assert(src0[m as int] == x);
            }
            assert(src0.to_multiset().count(x) > 0);
            assert(out@.to_multiset() =~= out0.to_multiset().insert(x));
            assert(src@.to_multiset() =~= src0.to_multiset().remove(x));
            assert(out@.to_multiset().add(src@.to_multiset()) =~= out0.to_multiset().add(
                src0.to_multiset(),
            ));
            assert(sorted_desc(out@)) by {
                assert(forall|a: int| 0 <= a < out0.len() ==> out@[a] == out0[a]);
                assert(out@[out0.len() as int] == x);
                assert(forall|a: int| 0 <= a < out0.len() ==> out0[a].1 >= x.1);
            }
            assert forall|a: int, b: int|
                0 <= a < out@.len() && 0 <= b < src@.len() implies out@[a].1 >= src@[b].1 by {
                assert(src@ == src0.remove(m as int));
                if b < m {
                    assert(src@[b] == src0[b]);
                } else {
                    assert(src@[b] == src0[b + 1]);
                }
                if a < out0.len() {
                    assert(out@[a] == out0[a]);
                } else {
                    assert(out@[a] == x);
                    assert(x == src0[m as int]);
                }
            }
        }
    }
    proof {
        broadcast use vstd::seq_lib::group_to_multiset_ensures;
        broadcast use vstd::multiset::group_multiset_axioms;

        assert forall|p: (u64, u32)| src@.to_multiset().count(p) == 0 by {
            assert(!src@.contains(p));
        }
        assert(out@.to_multiset() =~= v@.to_multiset());
    }
    out
}

/// The largest `limit` entries, by balance, in descending order. Every
/// reported pair is one of the given entries, no user repeats, and any entry
/// left out is no larger than the smallest reported balance.
pub fn top_n_of(entries: Vec<(u64, u32)>, limit: usize) -> (r: Vec<(u64, u32)>)
    requires
        keys_of(entries@).no_duplicates(),
    ensures
        sorted_desc(r@),
        r@.len() == (if (limit as int) <= entries@.len() {
            limit as int
        } else {
            entries@.len() as int
        }),
        keys_of(r@).no_duplicates(),
        forall|i: int| 0 <= i < r@.len() ==> entries@.contains(#[trigger] r@[i]),
        forall|j: int|
            0 <= j < entries@.len() && !keys_of(r@).contains(#[trigger] entries@[j].0)
                ==> r@.len() == limit && (r@.len() > 0 ==> entries@[j].1 <= r@[r@.len() - 1].1),
{
    let ghost input = entries@;
    let mut sorted = sort_pairs_desc(entries);
    let ghost sq = sorted@;
    proof {
        broadcast use vstd::seq_lib::group_to_multiset_ensures;
        broadcast use vstd::multiset::group_multiset_axioms;

        // The entry pairs are pairwise distinct because their users are.
        assert(input.no_duplicates()) by {
            assert forall|a: int, b: int|
                0 <= a < b < input.len() implies input[a] != input[b] by {
                assert(keys_of(input)[a] == input[a].0 && keys_of(input)[b] == input[b].0);
            }
        }
        input.lemma_multiset_has_no_duplicates();
        assert(sq.no_duplicates()) by {
            assert forall|p: (u64, u32)|
                sq.to_multiset().contains(p) implies sq.to_multiset().count(p) == 1 by {
                assert(input.to_multiset().contains(p));
            }
            sq.lemma_multiset_has_no_duplicates_conv();
        }
        // Every sorted pair is an entry pair and the other way round.
        assert forall|i: int| 0 <= i < sq.len() implies input.contains(#[trigger] sq[i]) by {
            assert(sq.contains(sq[i]));
            assert(sq.to_multiset().count(sq[i]) > 0);
        }
        assert forall|j: int| 0 <= j < input.len() implies sq.contains(#[trigger] input[j]) by {
            assert(input.contains(input[j]));
            assert(input.to_multiset().count(input[j]) > 0);
        }
        // Users stay pairwise distinct after sorting: two sorted positions
        // with one user would be one entry pair counted twice.
        assert(keys_of(sq).no_duplicates()) by {
            assert forall|a: int, b: int|
                0 <= a < b < sq.len() implies keys_of(sq)[a] != keys_of(sq)[b] by {
                if sq[a].0 == sq[b].0 {
                    let ka = choose|ka: int| 0 <= ka < input.len() && input[ka] == sq[a];
                    let kb = choose|kb: int| 0 <= kb < input.len() && input[kb] == sq[b];
                    assert(keys_of(input)[ka] == input[ka].0 && keys_of(input)[kb]
                        == input[kb].0);
                    assert(ka == kb);
                }
                assert(keys_of(sq)[a] == sq[a].0 && keys_of(sq)[b] == sq[b].0);
            }
        }
        assert(sq.len() == input.len()) by {
            assert(sq.to_multiset().len() == sq.len());
            assert(input.to_multiset().len() == input.len());
        }
    }
    sorted.truncate(limit);
    proof {
        let rr = sorted@;
        if limit <= sq.len() {
            assert(rr == sq.subrange(0, limit as int));
        } else {
            assert(rr == sq);
        }
        assert(keys_of(rr).no_duplicates()) by {
            assert forall|a: int, b: int|
                0 <= a < b < rr.len() implies keys_of(rr)[a] != keys_of(rr)[b] by {
                assert(rr[a] == sq[a] && rr[b] == sq[b]);
                assert(keys_of(sq)[a] == sq[a].0 && keys_of(sq)[b] == sq[b].0);
                assert(keys_of(rr)[a] == rr[a].0 && keys_of(rr)[b] == rr[b].0);
            }
        }
        assert forall|j: int|
            0 <= j < input.len() && !keys_of(rr).contains(#[trigger] input[j].0) implies rr.len()
            == limit && (rr.len() > 0 ==> input[j].1 <= rr[rr.len() - 1].1) by {
            let p = choose|p: int| 0 <= p < sq.len() && sq[p] == input[j];
            if p < rr.len() {
                assert(rr[p] == sq[p]);
                assert(keys_of(rr)[p] == rr[p].0);
                assert(keys_of(rr).contains(input[j].0));
            }
            assert(p >= rr.len());
            assert(rr.len() < sq.len());
            assert(rr.len() == limit);
            if rr.len() > 0 {
                assert(sq[rr.len() - 1].1 >= sq[p].1);
                assert(rr[rr.len() - 1] == sq[rr.len() - 1]);
            }
        }
    }
    sorted
}

} // verus!
