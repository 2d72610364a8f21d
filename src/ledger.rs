use vstd::prelude::*;

use crate::budget::{
    clamp_sub, field_sum, lemma_field_sum_add, lemma_field_sum_elem, lemma_field_sum_le,
    lemma_field_sum_prefix, lemma_field_sum_take, lemma_field_sum_zero_of, Budget,
};
use crate::lobe::{BudgetError, LobeBudget, NodeHdl};

verus! {

/// The share of one field that a consumer is allotted: the fair split of the
/// grand total (rounded down), less what the consumer has already spent,
/// clamped at zero, plus the remainder of the split for the one consumer that
/// receives it.
pub open spec fn fair_share(grand: int, n: int, spent: int, lucky: bool) -> int {
    clamp_sub(grand / n, spent) + if lucky {
        grand % n
    } else {
        0
    }
}

/// A feedback batch that holds exactly one entry for each consumer and no
/// other entry.
pub open spec fn covers(batch: Seq<LobeBudget>, consumers: Seq<NodeHdl>) -> bool {
    &&& batch.len() == consumers.len()
    &&& forall|i: int, j: int|
        0 <= i < batch.len() && 0 <= j < batch.len() && i != j ==> batch[i].lobe != batch[j].lobe
    &&& forall|c: int| 0 <= c < consumers.len() ==> has_entry(batch, #[trigger] consumers[c])
}

/// Some entry of the batch is reported by `id`.
pub open spec fn has_entry(batch: Seq<LobeBudget>, id: NodeHdl) -> bool {
    exists|j: int| 0 <= j < batch.len() && batch[j].lobe == id
}

/// The spend that a batch reports for consumer `id`.
pub open spec fn reported_by(batch: Seq<LobeBudget>, id: NodeHdl) -> Budget {
    batch[choose|j: int| 0 <= j < batch.len() && batch[j].lobe == id].budget
}

/// The spend that a batch reports for each consumer, in the consumers' order.
pub open spec fn per_consumer(batch: Seq<LobeBudget>, consumers: Seq<NodeHdl>) -> Seq<Budget> {
    Seq::new(consumers.len(), |c: int| reported_by(batch, consumers[c]))
}

/// Splits a pool among a fixed set of consumers so that, over time, each gets
/// an even share of everything that has passed through: what a consumer has
/// already spent counts against its share, and the remainder of each split goes
/// whole to one consumer chosen at random.
pub struct EvenSplitLedgerLobe {
    hdl: Option<NodeHdl>,
    total_spent: Budget,
    consumers: Vec<NodeHdl>,
    allotted: Vec<Budget>,
    spenders: Vec<Budget>,
    spent: Vec<Budget>,
}

impl EvenSplitLedgerLobe {
    /// The ledger's own handle, set at start.
    pub closed spec fn handle(self) -> Option<NodeHdl> {
        self.hdl
    }

    /// The registered consumers; allotments and spends are kept in this order.
    pub closed spec fn consumers(self) -> Seq<NodeHdl> {
        self.consumers@
    }

    /// This cycle's allotment of each consumer.
    pub closed spec fn allotments(self) -> Seq<Budget> {
        self.allotted@
    }

    /// What each consumer has spent since start, in total.
    pub closed spec fn spenders(self) -> Seq<Budget> {
        self.spenders@
    }

    /// What each consumer reported on the last feedback.
    pub closed spec fn last_spent(self) -> Seq<Budget> {
        self.spent@
    }

    /// All spend reconciled since start.
    pub closed spec fn total_spent(self) -> Budget {
        self.total_spent
    }

    /// The number of consumers.
    pub open spec fn n(self) -> int {
        self.consumers().len() as int
    }

    /// The running total plus the pool, in field `k`.
    pub open spec fn grand(self, pool: Budget, k: int) -> int {
        self.total_spent().amount(k) + pool.amount(k)
    }

    /// The ledger's invariant: one allotment, one cumulative spend and one last
    /// spend per distinct consumer; a handle exactly when there are consumers;
    /// the cumulative spends summing to the running total; and each last spend
    /// within the consumer's cumulative spend.
    pub open spec fn wf(self) -> bool {
        &&& self.n() <= u32::MAX
        &&& (self.handle() is Some <==> self.n() > 0)
        &&& self.consumers().no_duplicates()
        &&& self.allotments().len() == self.n()
        &&& self.spenders().len() == self.n()
        &&& self.last_spent().len() == self.n()
        &&& forall|k: int| 0 <= k < 4 ==> field_sum(self.spenders(), k) == self.total_spent().amount(k)
        &&& forall|c: int| 0 <= c < self.n() ==> self.last_spent()[c].within(self.spenders()[c])
    }

    /// No field of the grand total for `pool` passes `u32::MAX`.
    pub open spec fn grand_fits(self, pool: Budget) -> bool {
        forall|k: int| 0 <= k < 4 ==> self.grand(pool, k) <= u32::MAX
    }

    /// `self` holds the allotments that `before` computes for `pool`, with the
    /// remainder going to consumer `lucky`, and is otherwise as `before` was.
    /// A zero pool allots nothing to anyone.
    pub open spec fn allotted_from(self, before: Self, pool: Budget, lucky: int) -> bool {
        &&& self.handle() == before.handle()
        &&& self.consumers() == before.consumers()
        &&& self.spenders() == before.spenders()
        &&& self.last_spent() == before.last_spent()
        &&& self.total_spent() == before.total_spent()
        &&& self.allotments().len() == before.n()
        &&& forall|c: int, k: int|
            0 <= c < before.n() && 0 <= k < 4 ==> #[trigger] self.allotments()[c].amount(k) == if pool.spec_is_zero() {
                0
            } else {
                fair_share(before.grand(pool, k), before.n(), before.spenders()[c].amount(k), c == lucky)
            }
    }

    /// Every consumer's reported spend is within its allotment.
    pub open spec fn within_allotments(self, batch: Seq<LobeBudget>) -> bool {
        forall|c: int|
            0 <= c < self.n() ==> (#[trigger] reported_by(batch, self.consumers()[c])).within(
                self.allotments()[c],
            )
    }

    /// The running total, with the batch's spend added, fits in a `u32`.
    pub open spec fn spend_fits(self, batch: Seq<LobeBudget>) -> bool {
        forall|k: int|
            0 <= k < 4 ==> self.total_spent().amount(k) + field_sum(
                per_consumer(batch, self.consumers()),
                k,
            ) <= u32::MAX
    }

    /// `self` is `before` with the spend of `batch` reconciled: added to each
    /// consumer's cumulative spend and to the running total, and kept as each
    /// consumer's last spend.
    pub open spec fn reconciled_from(self, before: Self, batch: Seq<LobeBudget>) -> bool {
        &&& self.handle() == before.handle()
        &&& self.consumers() == before.consumers()
        &&& self.allotments() == before.allotments()
        &&& self.spenders().len() == before.n()
        &&& self.last_spent() == per_consumer(batch, before.consumers())
        &&& forall|c: int, k: int|
            0 <= c < before.n() && 0 <= k < 4 ==> #[trigger] self.spenders()[c].amount(k)
                == before.spenders()[c].amount(k) + reported_by(batch, before.consumers()[c]).amount(k)
        &&& forall|k: int|
            0 <= k < 4 ==> #[trigger] self.total_spent().amount(k) == before.total_spent().amount(k)
                + field_sum(per_consumer(batch, before.consumers()), k)
    }

    pub fn new() -> (r: Self)
        ensures
            r.wf(),
            r.n() == 0,
            r.handle() is None,
            r.total_spent().spec_is_zero(),
    {
        EvenSplitLedgerLobe {
            hdl: None,
            total_spent: Budget::zero(),
            consumers: Vec::new(),
            allotted: Vec::new(),
            spenders: Vec::new(),
            spent: Vec::new(),
        }
    }

    /// Fixes the consumers and starts a fresh ledger: nothing allotted, nothing
    /// spent. The consumers must be at least one, distinct, and no more than
    /// fit in a `u32`; otherwise the ledger is left as it was.
    pub fn start(&mut self, hdl: NodeHdl, outputs: Vec<NodeHdl>) -> (r: Result<(), BudgetError>)
        requires
            old(self).wf(),
        ensures
            final(self).wf(),
            r is Ok <==> 0 < outputs@.len() <= u32::MAX && outputs@.no_duplicates(),
            r is Ok ==> {
                &&& final(self).handle() == Some(hdl)
                &&& final(self).consumers() == outputs@
                &&& final(self).total_spent().spec_is_zero()
                &&& forall|c: int|
                    0 <= c < outputs@.len() ==> (#[trigger] final(self).allotments()[c]).spec_is_zero()
                &&& forall|c: int|
                    0 <= c < outputs@.len() ==> (#[trigger] final(self).spenders()[c]).spec_is_zero()
                &&& forall|c: int|
                    0 <= c < outputs@.len() ==> (#[trigger] final(self).last_spent()[c]).spec_is_zero()
            },
            r is Err ==> r == Err::<(), BudgetError>(BudgetError::Configuration) && *final(self)
                == *old(self),
    {
        if outputs.len() == 0 || outputs.len() > u32::MAX as usize || !all_distinct(&outputs) {
            return Err(BudgetError::Configuration);
        }
        let n = outputs.len();
        let mut zeros: Vec<Budget> = Vec::new();
        let mut i: usize = 0;
        while i < n
            invariant
                i <= n,
                zeros@.len() == i,
                forall|c: int| 0 <= c < i ==> (#[trigger] zeros@[c]).spec_is_zero(),
            decreases n - i,
        {
            zeros.push(Budget::zero());
            i += 1;
        }
        proof {
            assert forall|k: int| 0 <= k < 4 implies field_sum(zeros@, k) == 0 by {
                lemma_field_sum_zero_of(zeros@, k);
            }
            assert forall|c: int| 0 <= c < n implies zeros@[c].within(zeros@[c]) by {
                assert forall|k: int| 0 <= k < 4 implies zeros@[c].amount(k) <= zeros@[c].amount(k) by {}
            }
        }
        self.hdl = Some(hdl);
        self.total_spent = Budget::zero();
        self.consumers = outputs;
        self.allotted = zeros.clone();
        self.spenders = zeros.clone();
        self.spent = zeros;
        Ok(())
    }

    /// The forward step with the remainder going to consumer `pick % n`.
    /// Before a successful start there is nothing to allot to; a grand total
    /// that does not fit in a `u32` is refused. Either way nothing changes.
    pub fn update_with_pick(&mut self, input: LobeBudget, pick: usize) -> (r: Result<
        (),
        BudgetError,
    >)
        requires
            old(self).wf(),
        ensures
            final(self).wf(),
            old(self).n() == 0 ==> r == Err::<(), BudgetError>(BudgetError::Configuration),
            old(self).n() > 0 && !input.budget.spec_is_zero() && !old(self).grand_fits(input.budget)
                ==> r == Err::<(), BudgetError>(BudgetError::Arithmetic),
            r is Err ==> *final(self) == *old(self),
            old(self).n() > 0 && (input.budget.spec_is_zero() || old(self).grand_fits(input.budget))
                ==> r is Ok && final(self).allotted_from(*old(self), input.budget, pick as int % old(self).n()),
    {
        let n = self.consumers.len();
        if n == 0 {
            return Err(BudgetError::Configuration);
        }
        let pool = input.budget;
        let lucky = pick % n;
        let mut allotted: Vec<Budget> = Vec::new();
        if pool.is_zero() {
            let mut i: usize = 0;
            while i < n
                invariant
                    i <= n,
                    allotted@.len() == i,
                    forall|c: int| 0 <= c < i ==> (#[trigger] allotted@[c]).spec_is_zero(),
                decreases n - i,
            {
                allotted.push(Budget::zero());
                i += 1;
            }
            self.allotted = allotted;
            return Ok(());
        }
        let grand = match self.total_spent.checked_add(pool) {
            Some(g) => g,
            None => {
                proof {
                    let k = choose|k: int|
                        0 <= k < 4 && !(self.total_spent.amount(k) + pool.amount(k) <= u32::MAX);
                    assert(self.grand(pool, k) > u32::MAX);
                }
                return Err(BudgetError::Arithmetic);
            },
        };
        let nn = n as u32;
        proof {
            grand.lemma_fields();
            assert forall|k: int| 0 <= k < 4 implies self.grand(pool, k) == grand.amount(k) by {}
            assert forall|k: int| 0 <= k < 4 implies ({
                &&& 0 <= grand.amount(k) / (nn as int)
                &&& (grand.amount(k) / (nn as int)) * nn <= grand.amount(k)
                &&& grand.amount(k) - (grand.amount(k) / (nn as int)) * nn == grand.amount(k) % (nn as int)
                &&& grand.amount(k) / (nn as int) + grand.amount(k) % (nn as int) <= grand.amount(k)
            }) by {
                lemma_split(grand.amount(k), nn as int);
            }
        }
        let split = grand / nn;
        proof {
            split.lemma_fields();
            assert forall|k: int| 0 <= k < 4 implies split.amount(k) == grand.amount(k) / (nn as int) by {}
        }
        let scaled = split * nn;
        proof {
            scaled.lemma_fields();
            assert forall|k: int| 0 <= k < 4 implies scaled.amount(k) == split.amount(k) * nn by {}
        }
        let remainder = grand - scaled;
        proof {
            remainder.lemma_fields();
            assert forall|k: int| 0 <= k < 4 implies remainder.amount(k) == grand.amount(k) % (nn as int) by {}
        }
        let mut i: usize = 0;
        while i < n
            invariant
                i <= n,
                n == self.consumers@.len(),
                nn == n,
                0 <= lucky < n,
                lucky == pick as int % n as int,
                self.wf(),
                allotted@.len() == i,
                forall|k: int| 0 <= k < 4 ==> self.grand(pool, k) == grand.amount(k),
                forall|k: int| 0 <= k < 4 ==> split.amount(k) == grand.amount(k) / (n as int),
                forall|k: int| 0 <= k < 4 ==> remainder.amount(k) == grand.amount(k) % (n as int),
                forall|k: int| 0 <= k < 4 ==> split.amount(k) + remainder.amount(k) <= grand.amount(k),
                forall|c: int, k: int|
                    0 <= c < i && 0 <= k < 4 ==> #[trigger] allotted@[c].amount(k) == fair_share(
                        self.grand(pool, k),
                        n as int,
                        self.spenders@[c].amount(k),
                        c == lucky,
                    ),
            decreases n - i,
        {
            let mut share = split.saturating_sub(self.spenders[i]);
            if i == lucky {
                proof {
                    assert forall|k: int| 0 <= k < 4 implies share.amount(k) + remainder.amount(k) <= u32::MAX by {
                        grand.lemma_fields();
                    }
                }
                let base = share;
                share = base + remainder;
                proof {
                    base.lemma_fields();
                    share.lemma_fields();
                    remainder.lemma_fields();
                }
            }
            allotted.push(share);
            i += 1;
        }
        self.allotted = allotted;
        Ok(())
    }

    /// The forward step: allots `input`'s budget among the consumers, with the
    /// remainder of the split going to one consumer drawn at random.
    pub fn update(&mut self, input: LobeBudget) -> (r: Result<(), BudgetError>)
        requires
            old(self).wf(),
        ensures
            final(self).wf(),
            old(self).n() == 0 ==> r == Err::<(), BudgetError>(BudgetError::Configuration),
            old(self).n() > 0 && !input.budget.spec_is_zero() && !old(self).grand_fits(input.budget)
                ==> r == Err::<(), BudgetError>(BudgetError::Arithmetic),
            r is Err ==> *final(self) == *old(self),
            old(self).n() > 0 && (input.budget.spec_is_zero() || old(self).grand_fits(input.budget))
                ==> r is Ok && exists|lucky: int|
                0 <= lucky < old(self).n() && final(self).allotted_from(*old(self), input.budget, lucky),
    {
        let pick = random_pick();
        let r = self.update_with_pick(input, pick);
        proof {
            if r is Ok {
                assert(final(self).allotted_from(*old(self), input.budget, pick as int % old(self).n()));
            }
        }
        r
    }

    /// This cycle's allotment of consumer `output`, tagged with the ledger's
    /// own handle.
    pub fn tailor_output(&self, output: NodeHdl) -> (r: Result<LobeBudget, BudgetError>)
        requires
            self.wf(),
        ensures
            self.n() == 0 ==> r == Err::<LobeBudget, BudgetError>(BudgetError::Configuration),
            self.n() > 0 && !self.consumers().contains(output) ==> r == Err::<
                LobeBudget,
                BudgetError,
            >(BudgetError::Protocol),
            self.consumers().contains(output) ==> r is Ok && r->Ok_0.lobe == self.handle()->0
                && exists|c: int|
                0 <= c < self.n() && self.consumers()[c] == output && r->Ok_0.budget
                    == self.allotments()[c],
    {
        if self.consumers.len() == 0 {
            return Err(BudgetError::Configuration);
        }
        match index_of(&self.consumers, output) {
            Some(c) => {
                let lobe = match self.hdl {
                    Some(h) => h,
                    None => {
                        return Err(BudgetError::Configuration);
                    },
                };
                Ok(LobeBudget { lobe, budget: self.allotted[c] })
            },
            None => Err(BudgetError::Protocol),
        }
    }

    /// The feedback step: reconciles one report of spend from each consumer.
    /// A batch that misses a consumer, repeats one, names another lobe, or
    /// reports more than a consumer was allotted is refused as a protocol
    /// error; one whose spend would carry the running total past `u32::MAX`
    /// as an arithmetic error. A refused batch changes nothing.
    pub fn feedback(&mut self, batch: Vec<LobeBudget>) -> (r: Result<(), BudgetError>)
        requires
            old(self).wf(),
        ensures
            final(self).wf(),
            r is Ok <==> covers(batch@, old(self).consumers()) && old(self).within_allotments(batch@)
                && old(self).spend_fits(batch@),
            batch@.len() != old(self).n() ==> r == Err::<(), BudgetError>(BudgetError::Protocol),
            !(covers(batch@, old(self).consumers()) && old(self).within_allotments(batch@)) ==> r
                == Err::<(), BudgetError>(BudgetError::Protocol),
            covers(batch@, old(self).consumers()) && old(self).within_allotments(batch@)
                && !old(self).spend_fits(batch@) ==> r == Err::<(), BudgetError>(
                BudgetError::Arithmetic,
            ),
            r is Err ==> *final(self) == *old(self),
            r is Ok ==> final(self).reconciled_from(*old(self), batch@),
    {
        let n = self.consumers.len();
        if batch.len() != n || !lobes_distinct(&batch) {
            return Err(BudgetError::Protocol);
        }
        let ghost cons = self.consumers@;
        let mut per: Vec<Budget> = Vec::new();
        let mut c: usize = 0;
        while c < n
            invariant
                c <= n,
                n == cons.len(),
                cons == self.consumers@,
                self.wf(),
                batch@.len() == n,
                forall|i: int, j: int|
                    0 <= i < batch@.len() && 0 <= j < batch@.len() && i != j ==> batch@[i].lobe
                        != batch@[j].lobe,
                per@.len() == c,
                forall|d: int| 0 <= d < c ==> has_entry(batch@, #[trigger] cons[d]),
                forall|d: int| 0 <= d < c ==> #[trigger] per@[d] == reported_by(batch@, cons[d]),
                forall|d: int| 0 <= d < c ==> (#[trigger] per@[d]).within(self.allotted@[d]),
            decreases n - c,
        {
            match entry_index(&batch, self.consumers[c]) {
                None => {
                    proof {
                        assert(!has_entry(batch@, cons[c as int]));
                    }
                    return Err(BudgetError::Protocol);
                },
                Some(j) => {
                    proof {
                        assert(has_entry(batch@, cons[c as int]));
                        let w = choose|w: int| 0 <= w < batch@.len() && batch@[w].lobe == cons[c as int];
                        assert(w == j);
                    }
                    if !batch[j].budget.is_within(&self.allotted[c]) {
                        proof {
                            assert(!old(self).within_allotments(batch@)) by {
                                assert(!reported_by(batch@, old(self).consumers()[c as int]).within(
                                    old(self).allotments()[c as int],
                                ));
                            }
                        }
                        return Err(BudgetError::Protocol);
                    }
                    per.push(batch[j].budget);
                },
            }
            c += 1;
        }
        proof {
            assert(per@ =~= per_consumer(batch@, cons));
            assert(covers(batch@, cons));
            assert forall|d: int| 0 <= d < n implies (#[trigger] reported_by(batch@, cons[d])).within(
                self.allotted@[d],
            ) by {
                assert(per@[d] == reported_by(batch@, cons[d]));
            }
            assert(old(self).within_allotments(batch@));
        }
        let mut total = self.total_spent;
        c = 0;
        while c < n
            invariant
                c <= n,
                n == per@.len(),
                *self == *old(self),
                self.wf(),
                per@ == per_consumer(batch@, self.consumers@),
                covers(batch@, old(self).consumers()),
                old(self).within_allotments(batch@),
                forall|k: int|
                    0 <= k < 4 ==> #[trigger] total.amount(k) == self.total_spent.amount(k) + field_sum(
                        per@.take(c as int),
                        k,
                    ),
            decreases n - c,
        {
            match total.checked_add(per[c]) {
                Some(t) => {
                    proof {
                        assert forall|k: int| 0 <= k < 4 implies #[trigger] t.amount(k)
                            == self.total_spent.amount(k) + field_sum(per@.take(c + 1), k) by {
                            lemma_field_sum_take(per@, c as int, k);
                        }
                    }
                    total = t;
                },
                None => {
                    proof {
                        let k = choose|k: int|
                            0 <= k < 4 && !(total.amount(k) + per@[c as int].amount(k) <= u32::MAX);
                        lemma_field_sum_take(per@, c as int, k);
                        lemma_field_sum_prefix(per@, c + 1, k);
                        assert(total.amount(k) == self.total_spent.amount(k) + field_sum(
                            per@.take(c as int),
                            k,
                        ));
                        assert(old(self).total_spent().amount(k) + field_sum(per@, k) > u32::MAX);
                        assert(!old(self).spend_fits(batch@));
                    }
                    return Err(BudgetError::Arithmetic);
                },
            }
            c += 1;
        }
        proof {
            assert(per@.take(n as int) =~= per@);
            assert forall|k: int| 0 <= k < 4 implies old(self).total_spent().amount(k) + field_sum(
                per_consumer(batch@, old(self).consumers()),
                k,
            ) <= u32::MAX by {
                total.lemma_fields();
            }
        }
        let mut spenders: Vec<Budget> = Vec::new();
        c = 0;
        while c < n
            invariant
                c <= n,
                n == per@.len(),
                *self == *old(self),
                self.wf(),
                n == self.spenders@.len(),
                forall|k: int|
                    0 <= k < 4 ==> total.amount(k) == self.total_spent.amount(k) + field_sum(per@, k),
                spenders@.len() == c,
                forall|d: int, k: int|
                    0 <= d < c && 0 <= k < 4 ==> #[trigger] spenders@[d].amount(k)
                        == self.spenders@[d].amount(k) + per@[d].amount(k),
            decreases n - c,
        {
            proof {
                assert forall|k: int| 0 <= k < 4 implies self.spenders@[c as int].amount(k)
                    + per@[c as int].amount(k) <= u32::MAX by {
                    lemma_field_sum_elem(self.spenders@, c as int, k);
                    lemma_field_sum_elem(per@, c as int, k);
                    total.lemma_fields();
                }
            }
            let sum = self.spenders[c] + per[c];
            proof {
                sum.lemma_fields();
                self.spenders@[c as int].lemma_fields();
                per@[c as int].lemma_fields();
            }
            spenders.push(sum);
            c += 1;
        }
        proof {
            assert forall|k: int| 0 <= k < 4 implies field_sum(spenders@, k) == total.amount(k) by {
                lemma_field_sum_add(self.spenders@, per@, spenders@, k);
            }
            assert forall|d: int| 0 <= d < n implies per@[d].within(spenders@[d]) by {
                assert forall|k: int| 0 <= k < 4 implies per@[d].amount(k) <= spenders@[d].amount(k) by {
                    assert(spenders@[d].amount(k) == self.spenders@[d].amount(k) + per@[d].amount(k));
                }
            }
        }
        self.spenders = spenders;
        self.spent = per;
        self.total_spent = total;
        Ok(())
    }

    /// The ledger's own spend for its upstream: the sum of every consumer's
    /// last reported spend, tagged with the ledger's handle.
    pub fn tailor_feedback(&self) -> (r: Result<LobeBudget, BudgetError>)
        requires
            self.wf(),
        ensures
            self.n() == 0 ==> r == Err::<LobeBudget, BudgetError>(BudgetError::Configuration),
            self.n() > 0 ==> r is Ok && r->Ok_0.lobe == self.handle()->0 && forall|k: int|
                0 <= k < 4 ==> #[trigger] r->Ok_0.budget.amount(k) == field_sum(self.last_spent(), k),
    {
        let lobe = match self.hdl {
            Some(h) => h,
            None => {
                return Err(BudgetError::Configuration);
            },
        };
        let n = self.spent.len();
        proof {
            assert forall|k: int| 0 <= k < 4 implies field_sum(self.spent@, k) <= u32::MAX by {
                lemma_field_sum_le(self.spent@, self.spenders@, k);
            }
        }
        let mut sum = Budget::zero();
        let mut i: usize = 0;
        while i < n
            invariant
                i <= n,
                n == self.spent@.len(),
                forall|k: int| 0 <= k < 4 ==> field_sum(self.spent@, k) <= u32::MAX,
                forall|k: int|
                    0 <= k < 4 ==> #[trigger] sum.amount(k) == field_sum(self.spent@.take(i as int), k),
            decreases n - i,
        {
            proof {
                assert forall|k: int| 0 <= k < 4 implies sum.amount(k) + self.spent@[i as int].amount(k)
                    <= u32::MAX by {
                    lemma_field_sum_take(self.spent@, i as int, k);
                    lemma_field_sum_prefix(self.spent@, i + 1, k);
                }
            }
            let next = sum + self.spent[i];
            proof {
                next.lemma_fields();
                sum.lemma_fields();
                self.spent@[i as int].lemma_fields();
                assert forall|k: int| 0 <= k < 4 implies #[trigger] next.amount(k) == field_sum(
                    self.spent@.take(i + 1),
                    k,
                ) by {
                    lemma_field_sum_take(self.spent@, i as int, k);
                }
            }
            sum = next;
            i += 1;
        }
        proof {
            assert(self.spent@.take(n as int) =~= self.spent@);
        }
        Ok(LobeBudget { lobe, budget: sum })
    }
}

/// The position of `id` among the handles, if it is there.
fn index_of(v: &Vec<NodeHdl>, id: NodeHdl) -> (r: Option<usize>)
    ensures
        r is Some ==> r->0 < v@.len() && v@[r->0 as int] == id,
        r is None ==> !v@.contains(id),
{
    let mut i: usize = 0;
    while i < v.len()
        invariant
            i <= v@.len(),
            forall|j: int| 0 <= j < i ==> v@[j] != id,
        decreases v.len() - i,
    {
        if v[i] == id {
            return Some(i);
        }
        i += 1;
    }
    None
}

/// The position of the entry that `id` reported, if there is one.
fn entry_index(batch: &Vec<LobeBudget>, id: NodeHdl) -> (r: Option<usize>)
    ensures
        r is Some ==> r->0 < batch@.len() && batch@[r->0 as int].lobe == id,
        r is None ==> forall|j: int| 0 <= j < batch@.len() ==> batch@[j].lobe != id,
{
    let mut i: usize = 0;
    while i < batch.len()
        invariant
            i <= batch@.len(),
            forall|j: int| 0 <= j < i ==> batch@[j].lobe != id,
        decreases batch.len() - i,
    {
        if batch[i].lobe == id {
            return Some(i);
        }
        i += 1;
    }
    None
}

/// Whether no lobe reports twice in the batch.
fn lobes_distinct(batch: &Vec<LobeBudget>) -> (r: bool)
    ensures
        r == forall|i: int, j: int|
            0 <= i < batch@.len() && 0 <= j < batch@.len() && i != j ==> batch@[i].lobe != batch@[j].lobe,
{
    let mut i: usize = 0;
    while i < batch.len()
        invariant
            i <= batch@.len(),
            forall|a: int, b: int|
                0 <= a < i && 0 <= b < batch@.len() && a != b ==> batch@[a].lobe != batch@[b].lobe,
        decreases batch.len() - i,
    {
        let mut j: usize = 0;
        while j < batch.len()
            invariant
                i < batch@.len(),
                j <= batch@.len(),
                forall|a: int, b: int|
                    0 <= a < i && 0 <= b < batch@.len() && a != b ==> batch@[a].lobe != batch@[b].lobe,
                forall|b: int| 0 <= b < j && b != i ==> batch@[i as int].lobe != batch@[b].lobe,
            decreases batch.len() - j,
        {
            if j != i && batch[i].lobe == batch[j].lobe {
                return false;
            }
            j += 1;
        }
        i += 1;
    }
    true
}

/// Relies on `rand::random`: draws a `usize` from the thread-local generator.
/// Nothing is assumed of the value drawn.
#[verifier::external_body]
fn random_pick() -> usize {
    rand::random::<usize>()
}

/// Facts of floor division that the split of a grand total rests on.
proof fn lemma_split(g: int, n: int)
    requires
        0 <= g,
        0 < n,
    ensures
        0 <= g / n,
        (g / n) * n <= g,
        g - (g / n) * n == g % n,
        0 <= g % n < n,
        g / n + g % n <= g,
{
    vstd::arithmetic::div_mod::lemma_fundamental_div_mod(g, n);
    vstd::arithmetic::div_mod::lemma_div_pos_is_pos(g, n);
    vstd::arithmetic::div_mod::lemma_mod_pos_bound(g, n);
    let q = g / n;
    assert(n * q == q * n) by (nonlinear_arith);
    assert(q <= q * n) by (nonlinear_arith)
        requires
            0 <= q,
            1 <= n,
    ;
}

/// Whether no handle occurs twice.
fn all_distinct(v: &Vec<NodeHdl>) -> (r: bool)
    ensures
        r == v@.no_duplicates(),
{
    let mut i: usize = 0;
    while i < v.len()
        invariant
            i <= v@.len(),
            forall|a: int, b: int| 0 <= a < i && 0 <= b < v@.len() && a != b ==> v@[a] != v@[b],
        decreases v.len() - i,
    {
        let mut j: usize = 0;
        while j < v.len()
            invariant
                i < v@.len(),
                j <= v@.len(),
                forall|a: int, b: int| 0 <= a < i && 0 <= b < v@.len() && a != b ==> v@[a] != v@[b],
                forall|b: int| 0 <= b < j && b != i ==> v@[i as int] != v@[b],
            decreases v.len() - j,
        {
            if j != i && v[i] == v[j] {
                return false;
            }
            j += 1;
        }
        i += 1;
    }
    true
}

} // verus!
