//! The flat snapshot record model: what a record list says about a store,
//! what importing one does, and the round-trip law — importing an exported
//! list into a fresh store reproduces exactly the exported records.

use vstd::prelude::*;

use crate::tables::{balance_upsert, guild_balance_in};
use crate::types::{GuildConfig, UserBalance};

verus! {

/// The (guild, user) key of each balance record, in order.
pub open spec fn bal_keys(recs: Seq<UserBalance>) -> Seq<(u64, u64)> {
    recs.map_values(|r: UserBalance| (r.guild_id, r.user_id))
}

/// The guild key of each configuration record, in order.
pub open spec fn config_keys(recs: Seq<GuildConfig>) -> Seq<u64> {
    recs.map_values(|r: GuildConfig| r.guild_id)
}

/// The user `u` holds an entry in guild `g` (possibly of balance zero).
pub open spec fn pair_in(b: Map<u64, Map<u64, u32>>, g: u64, u: u64) -> bool {
    b.contains_key(g) && b[g].contains_key(u)
}

/// The balance map after upserting each record in order.
pub open spec fn import_balances(
    b: Map<u64, Map<u64, u32>>,
    recs: Seq<UserBalance>,
) -> Map<u64, Map<u64, u32>>
    decreases recs.len(),
{
    if recs.len() == 0 {
        b
    } else {
        import_balances(
            balance_upsert(b, recs[0].guild_id, recs[0].user_id, recs[0].balance),
            recs.drop_first(),
        )
    }
}

/// The configuration map after upserting each record in order, keyed by the
/// guild id the record carries.
pub open spec fn import_configs(
    c: Map<u64, GuildConfig>,
    recs: Seq<GuildConfig>,
) -> Map<u64, GuildConfig>
    decreases recs.len(),
{
    if recs.len() == 0 {
        c
    } else {
        import_configs(c.insert(recs[0].guild_id, recs[0]), recs.drop_first())
    }
}

/// The record list is a faithful flat copy of the balance map: no key twice,
/// every record a real entry, every entry recorded.
pub open spec fn describes_balances(recs: Seq<UserBalance>, b: Map<u64, Map<u64, u32>>) -> bool {
    &&& bal_keys(recs).no_duplicates()
    &&& forall|i: int|
        0 <= i < recs.len() ==> pair_in(b, (#[trigger] recs[i]).guild_id, recs[i].user_id)
            && recs[i].balance == b[recs[i].guild_id][recs[i].user_id]
    &&& forall|g: u64, u: u64|
        #[trigger] pair_in(b, g, u) ==> exists|i: int|
            0 <= i < recs.len() && (#[trigger] recs[i]).guild_id == g && recs[i].user_id == u
}

/// The record list is a faithful flat copy of the configuration map.
pub open spec fn describes_configs(recs: Seq<GuildConfig>, c: Map<u64, GuildConfig>) -> bool {
    &&& config_keys(recs).no_duplicates()
    &&& forall|i: int|
        0 <= i < recs.len() ==> c.contains_key((#[trigger] recs[i]).guild_id) && recs[i]
            == c[recs[i].guild_id]
    &&& forall|g: u64|
        #[trigger] c.contains_key(g) ==> exists|i: int|
            0 <= i < recs.len() && (#[trigger] recs[i]).guild_id == g
}

/// What importing a duplicate-free balance list leaves at one point of the
/// map: a recorded pair holds its record's balance; any other pair is what
/// the starting map had.
pub proof fn lemma_import_balances_point(
    b: Map<u64, Map<u64, u32>>,
    recs: Seq<UserBalance>,
    g: u64,
    u: u64,
)
    requires
        bal_keys(recs).no_duplicates(),
    ensures
        pair_in(import_balances(b, recs), g, u) <==> (pair_in(b, g, u) || exists|i: int|
            0 <= i < recs.len() && (#[trigger] recs[i]).guild_id == g && recs[i].user_id == u),
        forall|i: int|
            0 <= i < recs.len() && (#[trigger] recs[i]).guild_id == g && recs[i].user_id == u
                ==> guild_balance_in(import_balances(b, recs), g, u) == recs[i].balance,
        !(exists|i: int|
            0 <= i < recs.len() && (#[trigger] recs[i]).guild_id == g && recs[i].user_id == u)
            ==> (pair_in(b, g, u) ==> guild_balance_in(import_balances(b, recs), g, u)
            == guild_balance_in(b, g, u)),
    decreases recs.len(),
{
    if recs.len() > 0 {
        let r0 = recs[0];
        let b1 = balance_upsert(b, r0.guild_id, r0.user_id, r0.balance);
        let rest = recs.drop_first();
        assert(bal_keys(rest) =~= bal_keys(recs).drop_first());
        assert(bal_keys(rest).no_duplicates()) by {
            assert forall|a: int, c2: int|
                0 <= a < c2 < bal_keys(rest).len() implies bal_keys(rest)[a] != bal_keys(
                rest,
            )[c2] by {
                assert(bal_keys(recs)[a + 1] == bal_keys(rest)[a]);
                assert(bal_keys(recs)[c2 + 1] == bal_keys(rest)[c2]);
            }
        }
        lemma_import_balances_point(b1, rest, g, u);
        assert(forall|i: int|
            1 <= i < recs.len() ==> rest[i - 1] == #[trigger] recs[i]);
        if r0.guild_id == g && r0.user_id == u {
            // No later record shares this key, so the upsert's value survives.
            assert(!(exists|i: int|
                0 <= i < rest.len() && (#[trigger] rest[i]).guild_id == g && rest[i].user_id
                    == u)) by {
                if exists|i: int|
                    0 <= i < rest.len() && (#[trigger] rest[i]).guild_id == g && rest[i].user_id
                        == u {
                    let i = choose|i: int|
                        0 <= i < rest.len() && (#[trigger] rest[i]).guild_id == g
                            && rest[i].user_id == u;
                    assert(bal_keys(recs)[0] == (g, u));
                    assert(bal_keys(recs)[i + 1] == (g, u));
                }
            }
            assert(pair_in(b1, g, u));
            assert(guild_balance_in(b1, g, u) == r0.balance);
        } else {
            assert(pair_in(b1, g, u) == pair_in(b, g, u));
            assert(pair_in(b, g, u) ==> guild_balance_in(b1, g, u) == guild_balance_in(b, g, u));
            assert forall|i: int|
                0 <= i < recs.len() && (#[trigger] recs[i]).guild_id == g && recs[i].user_id == u
                    implies guild_balance_in(import_balances(b, recs), g, u)
                == recs[i].balance by {
                assert(i >= 1);
                assert(rest[i - 1] == recs[i]);
            }
        }
    }
}

/// What importing a duplicate-free configuration list leaves at one key.
pub proof fn lemma_import_configs_point(c: Map<u64, GuildConfig>, recs: Seq<GuildConfig>, g: u64)
    requires
        config_keys(recs).no_duplicates(),
    ensures
        import_configs(c, recs).contains_key(g) <==> (c.contains_key(g) || exists|i: int|
            0 <= i < recs.len() && (#[trigger] recs[i]).guild_id == g),
        forall|i: int|
            0 <= i < recs.len() && (#[trigger] recs[i]).guild_id == g ==> import_configs(
                c,
                recs,
            )[g] == recs[i],
        !(exists|i: int| 0 <= i < recs.len() && (#[trigger] recs[i]).guild_id == g) ==> (
        c.contains_key(g) ==> import_configs(c, recs)[g] == c[g]),
    decreases recs.len(),
{
    if recs.len() > 0 {
        let r0 = recs[0];
        let c1 = c.insert(r0.guild_id, r0);
        let rest = recs.drop_first();
        assert(config_keys(rest) =~= config_keys(recs).drop_first());
        assert(config_keys(rest).no_duplicates()) by {
            assert forall|a: int, b2: int|
                0 <= a < b2 < config_keys(rest).len() implies config_keys(rest)[a]
                != config_keys(rest)[b2] by {
                assert(config_keys(recs)[a + 1] == config_keys(rest)[a]);
                assert(config_keys(recs)[b2 + 1] == config_keys(rest)[b2]);
            }
        }
        lemma_import_configs_point(c1, rest, g);
        assert(forall|i: int| 1 <= i < recs.len() ==> rest[i - 1] == #[trigger] recs[i]);
        if r0.guild_id == g {
            assert(!(exists|i: int|
                0 <= i < rest.len() && (#[trigger] rest[i]).guild_id == g)) by {
                if exists|i: int| 0 <= i < rest.len() && (#[trigger] rest[i]).guild_id == g {
                    let i = choose|i: int|
                        0 <= i < rest.len() && (#[trigger] rest[i]).guild_id == g;
                    assert(config_keys(recs)[0] == g);
                    assert(config_keys(recs)[i + 1] == g);
                }
            }
        } else {
            assert forall|i: int|
                0 <= i < recs.len() && (#[trigger] recs[i]).guild_id == g implies import_configs(
                c,
                recs,
            )[g] == recs[i] by {
                assert(i >= 1);
                assert(rest[i - 1] == recs[i]);
            }
        }
    }
}

/// The round trip on balances: export a duplicate-free record list, import
/// it into an empty ledger, export again — the same multiset of records
/// comes back.
pub proof fn lemma_balance_round_trip(recs: Seq<UserBalance>, recs2: Seq<UserBalance>)
    requires
        bal_keys(recs).no_duplicates(),
        describes_balances(recs2, import_balances(Map::<u64, Map<u64, u32>>::empty(), recs)),
    ensures
        recs2.to_multiset() == recs.to_multiset(),
{
    broadcast use vstd::seq_lib::group_to_multiset_ensures;

    let b = import_balances(Map::<u64, Map<u64, u32>>::empty(), recs);
    assert(recs.no_duplicates()) by {
        assert forall|a: int, c2: int| 0 <= a < c2 < recs.len() implies recs[a] != recs[c2] by {
            assert(bal_keys(recs)[a] == (recs[a].guild_id, recs[a].user_id));
            assert(bal_keys(recs)[c2] == (recs[c2].guild_id, recs[c2].user_id));
        }
    }
    assert(recs2.no_duplicates()) by {
        assert forall|a: int, c2: int|
            0 <= a < c2 < recs2.len() implies recs2[a] != recs2[c2] by {
            assert(bal_keys(recs2)[a] == (recs2[a].guild_id, recs2[a].user_id));
            assert(bal_keys(recs2)[c2] == (recs2[c2].guild_id, recs2[c2].user_id));
        }
    }
    recs.lemma_multiset_has_no_duplicates();
    recs2.lemma_multiset_has_no_duplicates();
    assert forall|x: UserBalance| recs.contains(x) implies recs2.contains(x) by {
        let i = choose|i: int| 0 <= i < recs.len() && recs[i] == x;
        lemma_import_balances_point(
            Map::<u64, Map<u64, u32>>::empty(),
            recs,
            x.guild_id,
            x.user_id,
        );
        assert(pair_in(b, x.guild_id, x.user_id));
        let j = choose|j: int|
            0 <= j < recs2.len() && (#[trigger] recs2[j]).guild_id == x.guild_id
                && recs2[j].user_id == x.user_id;
        assert(recs2[j].balance == b[x.guild_id][x.user_id]);
        assert(guild_balance_in(b, x.guild_id, x.user_id) == x.balance);
        assert(recs2[j] == x);
    }
    assert forall|x: UserBalance| recs2.contains(x) implies recs.contains(x) by {
        let j = choose|j: int| 0 <= j < recs2.len() && recs2[j] == x;
        assert(pair_in(b, x.guild_id, x.user_id));
        lemma_import_balances_point(
            Map::<u64, Map<u64, u32>>::empty(),
            recs,
            x.guild_id,
            x.user_id,
        );
        let i = choose|i: int|
            0 <= i < recs.len() && (#[trigger] recs[i]).guild_id == x.guild_id && recs[i].user_id
                == x.user_id;
        assert(guild_balance_in(b, x.guild_id, x.user_id) == recs[i].balance);
        assert(x.balance == b[x.guild_id][x.user_id]);
        assert(recs[i] == x);
    }
    assert forall|x: UserBalance| recs2.to_multiset().count(x) == recs.to_multiset().count(
        x,
    ) by {
        if recs.contains(x) {
        } else {
            assert(recs.to_multiset().count(x) == 0);
            assert(recs2.to_multiset().count(x) == 0);
        }
    }
    assert(recs2.to_multiset() =~= recs.to_multiset());
}

/// The round trip on configurations, stated like the balance one.
pub proof fn lemma_config_round_trip(recs: Seq<GuildConfig>, recs2: Seq<GuildConfig>)
    requires
        config_keys(recs).no_duplicates(),
        describes_configs(recs2, import_configs(Map::<u64, GuildConfig>::empty(), recs)),
    ensures
        recs2.to_multiset() == recs.to_multiset(),
{
    broadcast use vstd::seq_lib::group_to_multiset_ensures;

    let c = import_configs(Map::<u64, GuildConfig>::empty(), recs);
    assert(recs.no_duplicates()) by {
        assert forall|a: int, b2: int| 0 <= a < b2 < recs.len() implies recs[a] != recs[b2] by {
            assert(config_keys(recs)[a] == recs[a].guild_id);
            assert(config_keys(recs)[b2] == recs[b2].guild_id);
        }
    }
    assert(recs2.no_duplicates()) by {
        assert forall|a: int, b2: int|
            0 <= a < b2 < recs2.len() implies recs2[a] != recs2[b2] by {
            assert(config_keys(recs2)[a] == recs2[a].guild_id);
            assert(config_keys(recs2)[b2] == recs2[b2].guild_id);
        }
    }
    recs.lemma_multiset_has_no_duplicates();
    recs2.lemma_multiset_has_no_duplicates();
    assert forall|x: GuildConfig| recs.contains(x) implies recs2.contains(x) by {
        let i = choose|i: int| 0 <= i < recs.len() && recs[i] == x;
        lemma_import_configs_point(Map::<u64, GuildConfig>::empty(), recs, x.guild_id);
        assert(c.contains_key(x.guild_id));
        assert(c[x.guild_id] == x);
        let j = choose|j: int|
            0 <= j < recs2.len() && (#[trigger] recs2[j]).guild_id == x.guild_id;
        assert(recs2[j] == c[x.guild_id]);
    }
    assert forall|x: GuildConfig| recs2.contains(x) implies recs.contains(x) by {
        let j = choose|j: int| 0 <= j < recs2.len() && recs2[j] == x;
        assert(c.contains_key(x.guild_id));
        assert(recs2[j] == c[x.guild_id]);
        lemma_import_configs_point(Map::<u64, GuildConfig>::empty(), recs, x.guild_id);
        let i = choose|i: int|
            0 <= i < recs.len() && (#[trigger] recs[i]).guild_id == x.guild_id;
        assert(c[x.guild_id] == recs[i]);
    }
    assert forall|x: GuildConfig| recs2.to_multiset().count(x) == recs.to_multiset().count(
        x,
    ) by {
        if recs.contains(x) {
        } else {
            assert(recs.to_multiset().count(x) == 0);
            assert(recs2.to_multiset().count(x) == 0);
        }
    }
    assert(recs2.to_multiset() =~= recs.to_multiset());
}

} // verus!
