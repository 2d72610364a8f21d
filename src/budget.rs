use vstd::prelude::*;

verus! {

/// A resource budget: four independent non-negative quantities.
#[derive(Debug, Copy, Clone, PartialEq, Eq, Structural)]
pub struct Budget {
    /// the minerals a lobe is allowed to use
    pub minerals: u32,
    /// the vespene a lobe is allowed to use
    pub vespene: u32,
    /// the supply slots a lobe is allowed to use
    pub food: u32,
    /// the larva a lobe is allowed to use
    pub larva: u32,
}

/// `a - b`, or zero where `b` is at least `a`.
pub open spec fn clamp_sub(a: int, b: int) -> int {
    if a > b {
        a - b
    } else {
        0
    }
}

/// The sum of the `k`-th field over a sequence of budgets.
pub open spec fn field_sum(s: Seq<Budget>, k: int) -> int
    decreases s.len(),
{
    if s.len() == 0 {
        0
    } else {
        field_sum(s.drop_last(), k) + s.last().amount(k)
    }
}

/// A sequence of budgets that are all zero sums to zero in every field.
pub proof fn lemma_field_sum_zero_of(s: Seq<Budget>, k: int)
    requires
        forall|c: int| 0 <= c < s.len() ==> (#[trigger] s[c]).spec_is_zero(),
    ensures
        field_sum(s, k) == 0,
    decreases s.len(),
{
    if s.len() > 0 {
        lemma_field_sum_zero_of(s.drop_last(), k);
        assert(s.last().spec_is_zero());
        s.last().lemma_fields();
    }
}

/// Extending a prefix by one element adds that element's field.
pub proof fn lemma_field_sum_take(s: Seq<Budget>, i: int, k: int)
    requires
        0 <= i < s.len(),
    ensures
        field_sum(s.take(i + 1), k) == field_sum(s.take(i), k) + s[i].amount(k),
{
    assert(s.take(i + 1).drop_last() =~= s.take(i));
}

/// A prefix sums to no more than the whole sequence.
pub proof fn lemma_field_sum_prefix(s: Seq<Budget>, i: int, k: int)
    requires
        0 <= i <= s.len(),
    ensures
        field_sum(s.take(i), k) <= field_sum(s, k),
    decreases s.len(),
{
    if i == s.len() {
        assert(s.take(i) =~= s);
    } else {
        lemma_field_sum_prefix(s.drop_last(), i, k);
        assert(s.drop_last().take(i) =~= s.take(i));
        s.last().lemma_fields();
    }
}

/// No element exceeds the sum in any field.
pub proof fn lemma_field_sum_elem(s: Seq<Budget>, c: int, k: int)
    requires
        0 <= c < s.len(),
    ensures
        s[c].amount(k) <= field_sum(s, k),
{
    lemma_field_sum_take(s, c, k);
    lemma_field_sum_prefix(s, c + 1, k);
    lemma_field_sum_nonneg(s.take(c), k);
}

/// Sums of budgets are never negative.
pub proof fn lemma_field_sum_nonneg(s: Seq<Budget>, k: int)
    ensures
        0 <= field_sum(s, k),
    decreases s.len(),
{
    if s.len() > 0 {
        lemma_field_sum_nonneg(s.drop_last(), k);
        s.last().lemma_fields();
    }
}

/// A sequence that is pointwise no larger sums to no more.
pub proof fn lemma_field_sum_le(a: Seq<Budget>, b: Seq<Budget>, k: int)
    requires
        a.len() == b.len(),
        forall|c: int| 0 <= c < a.len() ==> (#[trigger] a[c]).amount(k) <= b[c].amount(k),
    ensures
        field_sum(a, k) <= field_sum(b, k),
    decreases a.len(),
{
    if a.len() > 0 {
        lemma_field_sum_le(a.drop_last(), b.drop_last(), k);
    }
}

/// The sum of a pointwise sum is the sum of the sums.
pub proof fn lemma_field_sum_add(a: Seq<Budget>, b: Seq<Budget>, r: Seq<Budget>, k: int)
    requires
        a.len() == b.len(),
        r.len() == a.len(),
        forall|c: int| 0 <= c < a.len() ==> (#[trigger] r[c]).amount(k) == a[c].amount(k) + b[c].amount(k),
    ensures
        field_sum(r, k) == field_sum(a, k) + field_sum(b, k),
    decreases a.len(),
{
    if a.len() > 0 {
        lemma_field_sum_add(a.drop_last(), b.drop_last(), r.drop_last(), k);
    }
}

impl Budget {
    /// The `k`-th resource field, for `k` in `0..4`: minerals, vespene, food, larva.
    pub open spec fn amount(self, k: int) -> int {
        if k == 0 {
            self.minerals as int
        } else if k == 1 {
            self.vespene as int
        } else if k == 2 {
            self.food as int
        } else {
            self.larva as int
        }
    }

    pub open spec fn spec_is_zero(self) -> bool {
        forall|k: int| 0 <= k < 4 ==> self.amount(k) == 0
    }

    /// Every field of `self` is at most the same field of `other`.
    pub open spec fn within(self, other: Budget) -> bool {
        forall|k: int| 0 <= k < 4 ==> self.amount(k) <= other.amount(k)
    }

    /// Names each field by its index.
    pub proof fn lemma_fields(self)
        ensures
            self.amount(0) == self.minerals,
            self.amount(1) == self.vespene,
            self.amount(2) == self.food,
            self.amount(3) == self.larva,
    {
    }

    /// Whether every field of `self` is at most the same field of `other`.
    pub fn is_within(&self, other: &Budget) -> (r: bool)
        ensures
            r == self.within(*other),
    {
        proof {
            self.lemma_fields();
            other.lemma_fields();
        }
        self.minerals <= other.minerals && self.vespene <= other.vespene && self.food <= other.food
            && self.larva <= other.larva
    }

    /// The zero budget.
    pub fn zero() -> (r: Budget)
        ensures
            r.spec_is_zero(),
    {
        Budget { minerals: 0, vespene: 0, food: 0, larva: 0 }
    }

    /// Whether every field is zero.
    pub fn is_zero(&self) -> (r: bool)
        ensures
            r == self.spec_is_zero(),
    {
        proof {
            self.lemma_fields();
        }
        self.minerals == 0 && self.vespene == 0 && self.food == 0 && self.larva == 0
    }

    /// Componentwise subtraction that stops at zero in each field.
    pub fn saturating_sub(self, rhs: Budget) -> (r: Budget)
        ensures
            forall|k: int| 0 <= k < 4 ==> r.amount(k) == clamp_sub(self.amount(k), rhs.amount(k)),
    {
        Budget {
            minerals: if self.minerals > rhs.minerals { self.minerals - rhs.minerals } else { 0 },
            vespene: if self.vespene > rhs.vespene { self.vespene - rhs.vespene } else { 0 },
            food: if self.food > rhs.food { self.food - rhs.food } else { 0 },
            larva: if self.larva > rhs.larva { self.larva - rhs.larva } else { 0 },
        }
    }

    /// Componentwise addition, or `None` where some field would pass `u32::MAX`.
    pub fn checked_add(self, rhs: Budget) -> (r: Option<Budget>)
        ensures
            r is Some <==> forall|k: int| 0 <= k < 4 ==> self.amount(k) + rhs.amount(k) <= u32::MAX,
            r is Some ==> forall|k: int|
                0 <= k < 4 ==> r->0.amount(k) == self.amount(k) + rhs.amount(k),
    {
        proof {
            self.lemma_fields();
            rhs.lemma_fields();
        }
        if self.minerals <= u32::MAX - rhs.minerals && self.vespene <= u32::MAX - rhs.vespene
            && self.food <= u32::MAX - rhs.food && self.larva <= u32::MAX - rhs.larva {
            Some(self + rhs)
        } else {
            None
        }
    }

    /// `*self = *self + rhs`.
    pub fn add_assign(&mut self, rhs: Budget)
        requires
            forall|k: int| 0 <= k < 4 ==> old(self).amount(k) + rhs.amount(k) <= u32::MAX,
        ensures
            forall|k: int| 0 <= k < 4 ==> final(self).amount(k) == old(self).amount(k) + rhs.amount(k),
    {
        *self = *self + rhs;
    }

    /// `*self = *self - rhs`.
    pub fn sub_assign(&mut self, rhs: Budget)
        requires
            rhs.within(*old(self)),
        ensures
            forall|k: int| 0 <= k < 4 ==> final(self).amount(k) == old(self).amount(k) - rhs.amount(k),
    {
        *self = *self - rhs;
    }

    /// `*self = *self * rhs`.
    pub fn mul_assign(&mut self, rhs: u32)
        requires
            forall|k: int| 0 <= k < 4 ==> old(self).amount(k) * rhs <= u32::MAX,
        ensures
            forall|k: int| 0 <= k < 4 ==> final(self).amount(k) == old(self).amount(k) * rhs,
    {
        *self = *self * rhs;
    }

    /// `*self = *self / rhs`.
    pub fn div_assign(&mut self, rhs: u32)
        requires
            rhs != 0,
        ensures
            forall|k: int| 0 <= k < 4 ==> final(self).amount(k) == old(self).amount(k) / rhs as int,
    {
        *self = *self / rhs;
    }
}

impl Default for Budget {
    fn default() -> (r: Budget)
        ensures
            r.spec_is_zero(),
    {
        Budget::zero()
    }
}

impl core::ops::Add for Budget {
    type Output = Budget;

    fn add(self, rhs: Budget) -> Budget {
        assert(self.amount(0) + rhs.amount(0) <= u32::MAX);
        assert(self.amount(1) + rhs.amount(1) <= u32::MAX);
        assert(self.amount(2) + rhs.amount(2) <= u32::MAX);
        assert(self.amount(3) + rhs.amount(3) <= u32::MAX);
        Budget {
            minerals: self.minerals + rhs.minerals,
            vespene: self.vespene + rhs.vespene,
            food: self.food + rhs.food,
            larva: self.larva + rhs.larva,
        }
    }
}

impl vstd::std_specs::ops::AddSpecImpl for Budget {
    open spec fn obeys_add_spec() -> bool {
        true
    }

    /// No field of the sum passes `u32::MAX`.
    open spec fn add_req(self, rhs: Budget) -> bool {
        forall|k: int| 0 <= k < 4 ==> self.amount(k) + rhs.amount(k) <= u32::MAX
    }

    open spec fn add_spec(self, rhs: Budget) -> Budget {
        Budget {
            minerals: (self.minerals + rhs.minerals) as u32,
            vespene: (self.vespene + rhs.vespene) as u32,
            food: (self.food + rhs.food) as u32,
            larva: (self.larva + rhs.larva) as u32,
        }
    }
}

impl core::ops::Sub for Budget {
    type Output = Budget;

    fn sub(self, rhs: Budget) -> Budget {
        assert(rhs.amount(0) <= self.amount(0));
        assert(rhs.amount(1) <= self.amount(1));
        assert(rhs.amount(2) <= self.amount(2));
        assert(rhs.amount(3) <= self.amount(3));
        Budget {
            minerals: self.minerals - rhs.minerals,
            vespene: self.vespene - rhs.vespene,
            food: self.food - rhs.food,
            larva: self.larva - rhs.larva,
        }
    }
}

impl vstd::std_specs::ops::SubSpecImpl for Budget {
    open spec fn obeys_sub_spec() -> bool {
        true
    }

    /// No field underflows: `rhs` is within `self`.
    open spec fn sub_req(self, rhs: Budget) -> bool {
        rhs.within(self)
    }

    open spec fn sub_spec(self, rhs: Budget) -> Budget {
        Budget {
            minerals: (self.minerals - rhs.minerals) as u32,
            vespene: (self.vespene - rhs.vespene) as u32,
            food: (self.food - rhs.food) as u32,
            larva: (self.larva - rhs.larva) as u32,
        }
    }
}

impl core::ops::Mul<u32> for Budget {
    type Output = Budget;

    fn mul(self, rhs: u32) -> Budget {
        assert(self.amount(0) * rhs <= u32::MAX);
        assert(self.amount(1) * rhs <= u32::MAX);
        assert(self.amount(2) * rhs <= u32::MAX);
        assert(self.amount(3) * rhs <= u32::MAX);
        Budget {
            minerals: self.minerals * rhs,
            vespene: self.vespene * rhs,
            food: self.food * rhs,
            larva: self.larva * rhs,
        }
    }
}

impl vstd::std_specs::ops::MulSpecImpl<u32> for Budget {
    open spec fn obeys_mul_spec() -> bool {
        true
    }

    /// No field of the product passes `u32::MAX`.
    open spec fn mul_req(self, rhs: u32) -> bool {
        forall|k: int| 0 <= k < 4 ==> self.amount(k) * rhs <= u32::MAX
    }

    open spec fn mul_spec(self, rhs: u32) -> Budget {
        Budget {
            minerals: (self.minerals * rhs) as u32,
            vespene: (self.vespene * rhs) as u32,
            food: (self.food * rhs) as u32,
            larva: (self.larva * rhs) as u32,
        }
    }
}

impl core::ops::Div<u32> for Budget {
    type Output = Budget;

    fn div(self, rhs: u32) -> Budget {
        Budget {
            minerals: self.minerals / rhs,
            vespene: self.vespene / rhs,
            food: self.food / rhs,
            larva: self.larva / rhs,
        }
    }
}

impl vstd::std_specs::ops::DivSpecImpl<u32> for Budget {
    open spec fn obeys_div_spec() -> bool {
        true
    }

    open spec fn div_req(self, rhs: u32) -> bool {
        rhs != 0
    }

    /// Componentwise floor division.
    open spec fn div_spec(self, rhs: u32) -> Budget {
        Budget {
            minerals: self.minerals / rhs,
            vespene: self.vespene / rhs,
            food: self.food / rhs,
            larva: self.larva / rhs,
        }
    }
}

} // verus!
