use vstd::prelude::*;

use crate::budget::{field_sum, Budget};
use crate::ledger::{fair_share, reported_by, EvenSplitLedgerLobe};
use crate::lobe::LobeBudget;

verus! {

/// Where each consumer's field `k`, together with its spend, comes to `split`,
/// and one consumer (`lucky`, if in range) has `rem` more, the two sums come to
/// `split` per consumer plus `rem`.
proof fn lemma_sum_even_split(a: Seq<Budget>, s: Seq<Budget>, k: int, split: int, rem: int, lucky: int)
    requires
        a.len() == s.len(),
        0 <= lucky,
        forall|c: int|
            0 <= c < a.len() ==> (#[trigger] a[c]).amount(k) + s[c].amount(k) == split + if c == lucky {
                rem
            } else {
                0
            },
    ensures
        field_sum(a, k) + field_sum(s, k) == a.len() * split + if lucky < a.len() {
            rem
        } else {
            0
        },
    decreases a.len(),
{
    if a.len() > 0 {
        let n = a.len() as int;
        lemma_sum_even_split(a.drop_last(), s.drop_last(), k, split, rem, lucky);
        assert(a[n - 1] == a.last());
        assert((n - 1) * split + split == n * split) by (nonlinear_arith);
    }
}

/// A sequence whose field `k` is `v` throughout sums to `v` per element.
proof fn lemma_sum_constant(s: Seq<Budget>, k: int, v: int)
    requires
        forall|c: int| 0 <= c < s.len() ==> (#[trigger] s[c]).amount(k) == v,
    ensures
        field_sum(s, k) == s.len() * v,
    decreases s.len(),
{
    if s.len() > 0 {
        let n = s.len() as int;
        lemma_sum_constant(s.drop_last(), k, v);
        assert((n - 1) * v + v == n * v) by (nonlinear_arith);
    }
}

/// Conservation: allotments and cumulative spend together make up the grand
/// total. In every field where no consumer has spent past the fair split,
/// the allotments of a cycle plus the running total spent equal the running
/// total plus the pool.
pub proof fn law_conservation_of_spend(
    before: EvenSplitLedgerLobe,
    after: EvenSplitLedgerLobe,
    pool: Budget,
    lucky: int,
)
    requires
        before.wf(),
        0 <= lucky < before.n(),
        after.allotted_from(before, pool, lucky),
    ensures
        forall|k: int|
            0 <= k < 4 && (forall|c: int|
                0 <= c < before.n() ==> (#[trigger] before.spenders()[c]).amount(k) <= before.grand(pool, k)
                    / before.n()) ==> field_sum(after.allotments(), k) + before.total_spent().amount(k)
                == before.grand(pool, k),
{
    let n = before.n();
    assert forall|k: int|
        0 <= k < 4 && (forall|c: int|
            0 <= c < n ==> (#[trigger] before.spenders()[c]).amount(k) <= before.grand(pool, k) / n) implies field_sum(
        after.allotments(),
        k,
    ) + before.total_spent().amount(k) == before.grand(pool, k) by {
        let g = before.grand(pool, k);
        pool.lemma_fields();
        before.total_spent().lemma_fields();
        if pool.spec_is_zero() {
            crate::budget::lemma_field_sum_zero_of(after.allotments(), k);
        } else {
            vstd::arithmetic::div_mod::lemma_fundamental_div_mod(g, n);
            lemma_sum_even_split(after.allotments(), before.spenders(), k, g / n, g % n, lucky);
            assert(n * (g / n) == (g / n) * n) by (nonlinear_arith);
        }
    }
}

/// Conservation: on a ledger that has spent nothing yet, the allotments of a
/// cycle sum exactly to the cycle's grand total, in every field.
pub proof fn law_conservation(before: EvenSplitLedgerLobe, after: EvenSplitLedgerLobe, pool: Budget, lucky: int)
    requires
        before.wf(),
        0 <= lucky < before.n(),
        before.total_spent().spec_is_zero(),
        after.allotted_from(before, pool, lucky),
    ensures
        forall|k: int| 0 <= k < 4 ==> field_sum(after.allotments(), k) == before.grand(pool, k),
{
    law_conservation_of_spend(before, after, pool, lucky);
    assert forall|k: int| 0 <= k < 4 implies field_sum(after.allotments(), k) == before.grand(pool, k) by {
        assert forall|c: int| 0 <= c < before.n() implies (#[trigger] before.spenders()[c]).amount(k)
            <= before.grand(pool, k) / before.n() by {
            crate::budget::lemma_field_sum_elem(before.spenders(), c, k);
            vstd::arithmetic::div_mod::lemma_div_pos_is_pos(before.grand(pool, k), before.n());
            pool.lemma_fields();
        }
    }
}

/// Non-negativity: in every state of a ledger, every field of every
/// allotment is at least zero.
pub proof fn law_non_negative(ledger: EvenSplitLedgerLobe)
    requires
        ledger.wf(),
    ensures
        forall|c: int, k: int|
            0 <= c < ledger.n() && 0 <= k < 4 ==> 0 <= #[trigger] ledger.allotments()[c].amount(k),
{
    assert forall|c: int, k: int| 0 <= c < ledger.n() && 0 <= k < 4 implies 0
        <= #[trigger] ledger.allotments()[c].amount(k) by {
        ledger.allotments()[c].lemma_fields();
    }
}

/// Zero input: a cycle whose pool is zero leaves every allotment exactly
/// zero, whatever has been spent before.
pub proof fn law_zero_pool(before: EvenSplitLedgerLobe, after: EvenSplitLedgerLobe, pool: Budget, lucky: int)
    requires
        before.wf(),
        pool.spec_is_zero(),
        after.allotted_from(before, pool, lucky),
    ensures
        forall|c: int| 0 <= c < before.n() ==> (#[trigger] after.allotments()[c]).spec_is_zero(),
{
}

/// Steady state: start from a ledger whose consumers have all spent the same
/// (as a fresh ledger has), feed it a pool that divides evenly among them, and
/// let every consumer spend exactly its allotment. Then each consumer is
/// allotted the same even share of the pool, and the consumers have all spent
/// the same again, so the next cycle with the same pool repeats this one.
pub proof fn law_steady_state(
    before: EvenSplitLedgerLobe,
    pool: Budget,
    lucky: int,
    allotted: EvenSplitLedgerLobe,
    batch: Seq<LobeBudget>,
    after: EvenSplitLedgerLobe,
)
    requires
        before.wf(),
        0 <= lucky < before.n(),
        forall|c: int, k: int|
            0 <= c < before.n() && 0 <= k < 4 ==> #[trigger] before.spenders()[c].amount(k)
                == before.spenders()[0].amount(k),
        forall|k: int| 0 <= k < 4 ==> pool.amount(k) % before.n() == 0,
        allotted.allotted_from(before, pool, lucky),
        batch.len() == before.n(),
        forall|c: int|
            0 <= c < before.n() ==> #[trigger] batch[c] == (LobeBudget {
                lobe: before.consumers()[c],
                budget: allotted.allotments()[c],
            }),
        after.reconciled_from(allotted, batch),
    ensures
        forall|c: int, k: int|
            0 <= c < before.n() && 0 <= k < 4 ==> #[trigger] allotted.allotments()[c].amount(k)
                == pool.amount(k) / before.n(),
        forall|c: int, k: int|
            0 <= c < before.n() && 0 <= k < 4 ==> #[trigger] after.spenders()[c].amount(k)
                == after.spenders()[0].amount(k),
{
    let n = before.n();
    assert forall|c: int, k: int| 0 <= c < n && 0 <= k < 4 implies #[trigger] allotted.allotments()[c].amount(k)
        == pool.amount(k) / n by {
        let s0 = before.spenders()[0].amount(k);
        let p = pool.amount(k);
        pool.lemma_fields();
        lemma_sum_constant(before.spenders(), k, s0);
        vstd::arithmetic::div_mod::lemma_fundamental_div_mod(p, n);
        let q = p / n;
        let g = before.grand(pool, k);
        assert(g == (s0 + q) * n + 0) by (nonlinear_arith)
            requires
                g == n * s0 + p,
                p == n * q + 0,
        ;
        vstd::arithmetic::div_mod::lemma_fundamental_div_mod_converse_div(g, n, s0 + q, 0);
        vstd::arithmetic::div_mod::lemma_fundamental_div_mod_converse_mod(g, n, s0 + q, 0);
        if pool.spec_is_zero() {
            assert(p == 0);
            vstd::arithmetic::div_mod::lemma_div_basics(n);
        } else {
            assert(before.spenders()[c].amount(k) == s0);
            assert(fair_share(g, n, s0, c == lucky) == q);
        }
    }
    assert forall|c: int| 0 <= c < n implies #[trigger] reported_by(batch, before.consumers()[c])
        == batch[c].budget by {
        let id = before.consumers()[c];
        assert(batch[c].lobe == id);
        let j = choose|j: int| 0 <= j < batch.len() && batch[j].lobe == id;
        assert(batch[j].lobe == before.consumers()[j]);
        assert(j == c);
    }
    assert forall|c: int, k: int| 0 <= c < n && 0 <= k < 4 implies #[trigger] after.spenders()[c].amount(k)
        == after.spenders()[0].amount(k) by {
        assert(after.spenders()[c].amount(k) == allotted.spenders()[c].amount(k) + reported_by(
            batch,
            before.consumers()[c],
        ).amount(k));
        assert(after.spenders()[0].amount(k) == allotted.spenders()[0].amount(k) + reported_by(
            batch,
            before.consumers()[0],
        ).amount(k));
        assert(allotted.allotments()[c].amount(k) == allotted.allotments()[0].amount(k));
    }
}

} // verus!
