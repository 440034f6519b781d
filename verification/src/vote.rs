//! Status-level rules of the reset vote: time arithmetic, the quorum and
//! majority test, and how casting a ballot rewrites the ballot lists.

use vstd::prelude::*;

use crate::types::{status_wf, VoteConfig, VoteStatus};

verus! {

/// `a + b`, clamped at the `u64` ceiling. Vote timestamps are summed this
/// way so that no configuration can overflow them.
pub open spec fn sat_add_u64(a: u64, b: u64) -> u64 {
    if a + b > u64::MAX {
        u64::MAX
    } else {
        (a + b) as u64
    }
}

/// How long a vote runs, in seconds.
pub open spec fn duration_seconds(c: VoteConfig) -> u64 {
    ((c.duration_minutes as int) * 60) as u64
}

/// How long the cooldown after a vote lasts, in seconds.
pub open spec fn cooldown_seconds(c: VoteConfig) -> u64 {
    ((c.cooldown_hours as int) * 3600) as u64
}

/// The outcome rule: a vote passes when the ballots reach the quorum and the
/// yes-share reaches the majority threshold. With no ballots at all the
/// yes-share counts as zero percent, so only a zero threshold passes then.
pub open spec fn vote_passes(yes: nat, no: nat, c: VoteConfig) -> bool {
    let total = yes + no;
    &&& total >= c.min_votes
    &&& (if total == 0 {
        c.majority_percentage == 0
    } else {
        100 * yes >= (c.majority_percentage as nat) * total
    })
}

/// The outcome rule applied to a status's ballot lists.
pub open spec fn vote_counts_pass(s: VoteStatus, c: VoteConfig) -> bool {
    vote_passes(s.yes_votes@.len(), s.no_votes@.len(), c)
}

/// Whether `now` still falls in the cooldown that followed the last vote.
pub open spec fn in_cooldown(s: VoteStatus, c: VoteConfig, now: u64) -> bool {
    &&& !s.active
    &&& s.last_vote_time.is_some()
    &&& now < sat_add_u64(s.last_vote_time.unwrap(), cooldown_seconds(c))
}

/// The status right after a vote starts at `now`: active, timed from `now`,
/// the initiator is recorded and is the only yes ballot, and the previous
/// cooldown mark is cleared.
pub open spec fn started_status(s: VoteStatus, initiator: u64, now: u64, c: VoteConfig) -> bool {
    &&& s.active
    &&& s.start_time == Some(now)
    &&& s.end_time == Some(sat_add_u64(now, duration_seconds(c)))
    &&& s.initiator_id == Some(initiator)
    &&& s.yes_votes@ == seq![initiator]
    &&& s.no_votes@ == Seq::<u64>::empty()
    &&& s.last_vote_time.is_none()
}

/// Keeps every ballot but the one user's.
pub open spec fn keep_other(u: u64) -> spec_fn(u64) -> bool {
    |x: u64| x != u
}

/// How casting a ballot rewrites a status: the user leaves both lists, joins
/// the chosen one at the end, and every other field stays.
pub open spec fn cast_applied(pre: VoteStatus, post: VoteStatus, u: u64, vote_yes: bool) -> bool {
    &&& post.yes_votes@ == (if vote_yes {
        pre.yes_votes@.filter(keep_other(u)).push(u)
    } else {
        pre.yes_votes@.filter(keep_other(u))
    })
    &&& post.no_votes@ == (if vote_yes {
        pre.no_votes@.filter(keep_other(u))
    } else {
        pre.no_votes@.filter(keep_other(u)).push(u)
    })
    &&& post.active == pre.active
    &&& post.start_time == pre.start_time
    &&& post.end_time == pre.end_time
    &&& post.initiator_id == pre.initiator_id
    &&& post.last_vote_time == pre.last_vote_time
}

/// Decide a vote from its ballot counts: quorum first, then the majority
/// threshold, with zero ballots counting as zero percent yes.
pub fn evaluate_votes(yes_count: usize, no_count: usize, config: &VoteConfig) -> (r: bool)
    ensures
        r == vote_passes(yes_count as nat, no_count as nat, *config),
{
    let total: u128 = yes_count as u128 + no_count as u128;
    if total < config.min_votes as u128 {
        return false;
    }
    if total == 0 {
        return config.majority_percentage == 0;
    }
    proof {
        assert((config.majority_percentage as u128) * total <= u128::MAX) by (nonlinear_arith)
            requires
                config.majority_percentage <= u32::MAX,
                total <= u64::MAX as u128 + u64::MAX as u128,
        ;
    }
    let lhs: u128 = 100 * (yes_count as u128);
    let rhs: u128 = (config.majority_percentage as u128) * total;
    lhs >= rhs
}

/// Membership in a filtered sequence: exactly the members of the original
/// that satisfy the predicate.
pub proof fn lemma_filter_membership<A>(s: Seq<A>, pred: spec_fn(A) -> bool, x: A)
    ensures
        s.filter(pred).contains(x) <==> s.contains(x) && pred(x),
    decreases s.len(),
{
    reveal(Seq::filter);
    if s.len() > 0 {
        lemma_filter_membership(s.drop_last(), pred, x);
        assert(s.contains(x) <==> s.drop_last().contains(x) || s.last() == x) by {
            if s.contains(x) {
                let i = choose|i: int| 0 <= i < s.len() && s[i] == x;
                if i < s.len() - 1 {
                    assert(s.drop_last()[i] == x);
                }
            }
            if s.drop_last().contains(x) {
                let i = choose|i: int| 0 <= i < s.drop_last().len() && s.drop_last()[i] == x;
                assert(s[i] == x);
            }
        }
        if pred(s.last()) {
            assert(s.filter(pred) == s.drop_last().filter(pred).push(s.last()));
            assert(s.filter(pred).contains(x) <==> s.drop_last().filter(pred).contains(x)
                || s.last() == x) by {
                let t = s.drop_last().filter(pred);
                if s.filter(pred).contains(x) {
                    let i = choose|i: int| 0 <= i < t.push(s.last()).len() && t.push(s.last())[i]
                        == x;
                    if i < t.len() {
                        assert(t[i] == x);
                    }
                }
                if t.contains(x) {
                    let i = choose|i: int| 0 <= i < t.len() && t[i] == x;
                    assert(t.push(s.last())[i] == x);
                }
                assert(t.push(s.last())[t.len() as int] == s.last());
            }
        }
    }
}

/// A filtered sequence repeats nothing the original did not repeat.
pub proof fn lemma_filter_no_duplicates<A>(s: Seq<A>, pred: spec_fn(A) -> bool)
    requires
        s.no_duplicates(),
    ensures
        s.filter(pred).no_duplicates(),
    decreases s.len(),
{
    reveal(Seq::filter);
    if s.len() > 0 {
        assert(s.drop_last().no_duplicates());
        lemma_filter_no_duplicates(s.drop_last(), pred);
        if pred(s.last()) {
            let t = s.drop_last().filter(pred);
            assert(!t.contains(s.last())) by {
                lemma_filter_membership(s.drop_last(), pred, s.last());
                if s.drop_last().contains(s.last()) {
                    let i = choose|i: int|
                        0 <= i < s.drop_last().len() && s.drop_last()[i] == s.last();
                    assert(s[i] == s[s.len() - 1]);
                }
            }
            assert(t.push(s.last()).no_duplicates()) by {
                assert(forall|i: int, j: int|
                    0 <= i < j < t.push(s.last()).len() ==> t.push(s.last())[i] != t.push(
                        s.last(),
                    )[j]) by {
                    assert(forall|i: int|
                        0 <= i < t.len() ==> t.push(s.last())[i] == #[trigger] t[i]);
                    assert(forall|i: int|
                        0 <= i < t.len() ==> #[trigger] t.push(s.last())[i] != s.last()) by {
                        assert(forall|i: int| 0 <= i < t.len() ==> t.contains(#[trigger] t[i]));
                    }
                }
            }
        }
    }
}

/// Filtering a sequence whose members all satisfy the predicate changes
/// nothing.
pub proof fn lemma_filter_all_true<A>(s: Seq<A>, pred: spec_fn(A) -> bool)
    requires
        forall|i: int| 0 <= i < s.len() ==> pred(#[trigger] s[i]),
    ensures
        s.filter(pred) == s,
    decreases s.len(),
{
    reveal(Seq::filter);
    if s.len() == 0 {
        assert(s.filter(pred) =~= s);
    } else {
        assert(forall|i: int|
            0 <= i < s.drop_last().len() ==> pred(#[trigger] s.drop_last()[i]));
        lemma_filter_all_true(s.drop_last(), pred);
        assert(pred(s.last()));
        assert(s.filter(pred) == s.drop_last().push(s.last()));
        assert(s.drop_last().push(s.last()) =~= s);
    }
}

/// Casting a ballot into a well-formed status yields a well-formed status.
pub proof fn lemma_cast_preserves_wf(pre: VoteStatus, post: VoteStatus, u: u64, vote_yes: bool)
    requires
        status_wf(pre),
        cast_applied(pre, post, u, vote_yes),
    ensures
        status_wf(post),
{
    let keep = keep_other(u);
    let ys = pre.yes_votes@.filter(keep);
    let ns = pre.no_votes@.filter(keep);
    lemma_filter_no_duplicates(pre.yes_votes@, keep);
    lemma_filter_no_duplicates(pre.no_votes@, keep);
    assert(!ys.contains(u) && !ns.contains(u)) by {
        lemma_filter_membership(pre.yes_votes@, keep, u);
        lemma_filter_membership(pre.no_votes@, keep, u);
    }
    assert(ys.push(u).no_duplicates()) by {
        lemma_push_no_duplicates(ys, u);
    }
    assert(ns.push(u).no_duplicates()) by {
        lemma_push_no_duplicates(ns, u);
    }
    assert forall|x: u64| !(post.yes_votes@.contains(x) && post.no_votes@.contains(x)) by {
        if post.yes_votes@.contains(x) && post.no_votes@.contains(x) {
            lemma_push_membership(ys, u, x);
            lemma_push_membership(ns, u, x);
            lemma_filter_membership(pre.yes_votes@, keep, x);
            lemma_filter_membership(pre.no_votes@, keep, x);
            assert(!(pre.yes_votes@.contains(x) && pre.no_votes@.contains(x)));
        }
    }
}

/// Pushing a value a sequence lacks keeps it free of duplicates.
pub proof fn lemma_push_no_duplicates<A>(s: Seq<A>, a: A)
    requires
        s.no_duplicates(),
        !s.contains(a),
    ensures
        s.push(a).no_duplicates(),
{
    assert forall|i: int, j: int|
        0 <= i < j < s.push(a).len() implies s.push(a)[i] != s.push(a)[j] by {
        if j < s.len() {
            assert(s.push(a)[i] == s[i] && s.push(a)[j] == s[j]);
        } else {
            assert(s.push(a)[j] == a);
            assert(s.push(a)[i] == s[i]);
            assert(s.contains(s[i]));
        }
    }
}

/// Membership in a pushed sequence: the old members plus the new one.
pub proof fn lemma_push_membership<A>(s: Seq<A>, a: A, x: A)
    ensures
        s.push(a).contains(x) <==> s.contains(x) || x == a,
{
    if s.push(a).contains(x) {
        let i = choose|i: int| 0 <= i < s.push(a).len() && s.push(a)[i] == x;
        if i < s.len() {
            assert(s[i] == x);
        }
    }
    if s.contains(x) {
        let i = choose|i: int| 0 <= i < s.len() && s[i] == x;
        assert(s.push(a)[i] == x);
    }
    assert(s.push(a)[s.len() as int] == a);
}

/// Re-voting moves a ballot instead of adding one: after a user casts yes and
/// then no, the tally holds the user only in the no list, exactly once, and
/// the total ballot count is what it was after the first cast.
pub proof fn lemma_revote(s0: VoteStatus, s1: VoteStatus, s2: VoteStatus, u: u64)
    requires
        status_wf(s0),
        cast_applied(s0, s1, u, true),
        cast_applied(s1, s2, u, false),
    ensures
        !s2.yes_votes@.contains(u),
        s2.no_votes@.contains(u),
        status_wf(s2),
        s2.yes_votes@.len() + s2.no_votes@.len() == s1.yes_votes@.len() + s1.no_votes@.len(),
{
    let keep = keep_other(u);
    lemma_cast_preserves_wf(s0, s1, u, true);
    lemma_cast_preserves_wf(s1, s2, u, false);
    assert(!s2.yes_votes@.contains(u)) by {
        lemma_filter_membership(s1.yes_votes@, keep, u);
    }
    assert(s2.no_votes@.contains(u)) by {
        lemma_push_membership(s1.no_votes@.filter(keep), u, u);
    }
    // The second cast takes the yes list back to what the first cast built it
    // from, and pushes the one moved ballot onto the unchanged no list.
    assert(s2.yes_votes@ == s0.yes_votes@.filter(keep)) by {
        let ys = s0.yes_votes@.filter(keep);
        assert(s1.yes_votes@ == ys.push(u));
        assert(ys.push(u).filter(keep) == ys.filter(keep)) by {
            reveal(Seq::filter);
            assert(ys.push(u).drop_last() =~= ys);
            assert(ys.push(u).last() == u);
        }
        assert(forall|i: int| 0 <= i < ys.len() ==> keep(#[trigger] ys[i])) by {
            pre_filter_satisfies(s0.yes_votes@, keep);
        }
        lemma_filter_all_true(ys, keep);
    }
    assert(s1.no_votes@.filter(keep) == s0.no_votes@.filter(keep)) by {
        let ns = s0.no_votes@.filter(keep);
        assert(s1.no_votes@ == ns);
        assert(forall|i: int| 0 <= i < ns.len() ==> keep(#[trigger] ns[i])) by {
            pre_filter_satisfies(s0.no_votes@, keep);
        }
        lemma_filter_all_true(ns, keep);
    }
    assert(s1.yes_votes@.len() == s2.yes_votes@.len() + 1) by {
        assert(s1.yes_votes@ == s0.yes_votes@.filter(keep).push(u));
    }
    assert(s2.no_votes@.len() == s1.no_votes@.len() + 1) by {
        assert(s2.no_votes@ == s1.no_votes@.filter(keep).push(u));
    }
}

/// Every member of a filtered sequence satisfies the predicate.
proof fn pre_filter_satisfies<A>(s: Seq<A>, pred: spec_fn(A) -> bool)
    ensures
        forall|i: int| 0 <= i < s.filter(pred).len() ==> pred(#[trigger] s.filter(pred)[i]),
    decreases s.len(),
{
    reveal(Seq::filter);
    if s.len() > 0 {
        pre_filter_satisfies(s.drop_last(), pred);
        if pred(s.last()) {
            let t = s.drop_last().filter(pred);
            assert forall|i: int|
                0 <= i < s.filter(pred).len() implies pred(#[trigger] s.filter(pred)[i]) by {
                assert(s.filter(pred) == t.push(s.last()));
                if i < t.len() {
                    assert(s.filter(pred)[i] == t[i]);
                } else {
                    assert(s.filter(pred)[i] == s.last());
                }
            }
        }
    }
}

/// Filtering after a push: the pushed element stays exactly when it
/// satisfies the predicate.
pub proof fn lemma_filter_push<A>(s: Seq<A>, pred: spec_fn(A) -> bool, a: A)
    ensures
        s.push(a).filter(pred) == (if pred(a) {
            s.filter(pred).push(a)
        } else {
            s.filter(pred)
        }),
{
    reveal(Seq::filter);
    assert(s.push(a).drop_last() =~= s);
    assert(s.push(a).last() == a);
}

/// Whether `v` holds `x`.
pub(crate) fn contains_u64(v: &Vec<u64>, x: u64) -> (r: bool)
    ensures
        r == v@.contains(x),
{
    let mut i: usize = 0;
    while i < v.len()
        invariant
            0 <= i <= v@.len(),
            forall|j: int| 0 <= j < i ==> v@[j] != x,
        decreases v@.len() - i,
    {
        if v[i] == x {
            return true;
        }
        i = i + 1;
    }
    false
}

/// Rebuild a vote status from untrusted parts — a hand-edited snapshot,
/// say — so that it satisfies the vote invariant: each user keeps one
/// ballot (a yes wins over a no), and a vote without a usable time span is
/// deactivated. Everything else passes through unchanged.
pub fn sanitized_status(
    active: bool,
    start_time: Option<u64>,
    end_time: Option<u64>,
    initiator_id: Option<u64>,
    yes_votes: Vec<u64>,
    no_votes: Vec<u64>,
    last_vote_time: Option<u64>,
) -> (r: VoteStatus)
    ensures
        status_wf(r),
        r.initiator_id == initiator_id,
        r.last_vote_time == last_vote_time,
        r.start_time == start_time,
        r.end_time == end_time,
        forall|u: u64| #[trigger] r.yes_votes@.contains(u) <==> yes_votes@.contains(u),
        forall|u: u64|
            #[trigger] r.no_votes@.contains(u) <==> (no_votes@.contains(u)
                && !yes_votes@.contains(u)),
        (start_time.is_some() && end_time.is_some() && start_time.unwrap() <= end_time.unwrap())
            ==> r.active == active,
        !(start_time.is_some() && end_time.is_some() && start_time.unwrap()
            <= end_time.unwrap()) ==> !r.active,
{
    let mut yes: Vec<u64> = Vec::new();
    let mut i: usize = 0;
    while i < yes_votes.len()
        invariant
            0 <= i <= yes_votes@.len(),
            yes@.no_duplicates(),
            forall|u: u64|
                #[trigger] yes@.contains(u) <==> yes_votes@.take(i as int).contains(u),
        decreases yes_votes@.len() - i,
    {
        let ghost yes0 = yes@;
        let u = yes_votes[i];
        if !contains_u64(&yes, u) {
            proof {
                lemma_push_no_duplicates(yes@, u);
            }
            yes.push(u);
        }
        i = i + 1;
        proof {
            assert(yes_votes@.take(i as int) =~= yes_votes@.take(i - 1).push(u));
            assert forall|w: u64| #[trigger] yes@.contains(w) <==> yes_votes@.take(
                i as int,
            ).contains(w) by {
                lemma_push_membership(yes_votes@.take(i - 1), u, w);
                lemma_push_membership(yes0, u, w);
                if yes@ == yes0 {
                } else {
                    assert(yes@ == yes0.push(u));
                }
            }
        }
    }
    proof {
        assert(yes_votes@.take(yes_votes@.len() as int) =~= yes_votes@);
    }
    let mut no: Vec<u64> = Vec::new();
    let mut j: usize = 0;
    while j < no_votes.len()
        invariant
            0 <= j <= no_votes@.len(),
            no@.no_duplicates(),
            forall|u: u64| #[trigger] yes@.contains(u) <==> yes_votes@.contains(u),
            forall|u: u64|
                #[trigger] no@.contains(u) <==> (no_votes@.take(j as int).contains(u)
                    && !yes@.contains(u)),
        decreases no_votes@.len() - j,
    {
        let ghost no0 = no@;
        let u = no_votes[j];
        if !contains_u64(&yes, u) && !contains_u64(&no, u) {
            proof {
                lemma_push_no_duplicates(no@, u);
            }
            no.push(u);
        }
        j = j + 1;
        proof {
            assert(no_votes@.take(j as int) =~= no_votes@.take(j - 1).push(u));
            assert forall|w: u64| #[trigger] no@.contains(w) <==> (no_votes@.take(
                j as int,
            ).contains(w) && !yes@.contains(w)) by {
                lemma_push_membership(no_votes@.take(j - 1), u, w);
                lemma_push_membership(no0, u, w);
                if no@ == no0 {
                } else {
                    assert(no@ == no0.push(u));
                }
            }
        }
    }
    proof {
        assert(no_votes@.take(no_votes@.len() as int) =~= no_votes@);
    }
    let usable_span = match (start_time, end_time) {
        (Some(s), Some(e)) => s <= e,
        _ => false,
    };
    VoteStatus {
        active: active && usable_span,
        start_time,
        end_time,
        initiator_id,
        yes_votes: yes,
        no_votes: no,
        last_vote_time,
    }
}

} // verus!
