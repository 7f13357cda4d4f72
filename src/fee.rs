use vstd::prelude::*;
use crate::resource::ONE;

verus! {

/// The largest price of one cost unit: one whole unit of the fee resource.
pub const MAX_COST_UNIT_PRICE: i128 = ONE;

/// The largest tip, in percent of the fee.
pub const MAX_TIP_PERCENTAGE: u32 = 1000;

/// The largest amount that can be locked to pay fees.
pub const MAX_LOCKED: i128 = 1_000_000_000_000_000_000 * ONE;

/// Represents an error when consuming cost units.
#[derive(Debug, Clone, Copy, PartialEq, Eq, Structural)]
pub enum FeeReserveError {
    /// More units than the transaction's limit.
    LimitExceeded,
    /// The locked fee does not cover the units consumed.
    CostUnitExhausted,
}

/// What a transaction pays: the fee for the units consumed, the tip on it, and what goes
/// back to the payer.
#[derive(Debug, Clone, Copy, PartialEq, Eq, Structural)]
pub struct FeeSummary {
    pub cost_unit_price: i128,
    pub cost_units_consumed: u32,
    pub fee: i128,
    pub tip: i128,
    pub locked: i128,
    pub refund: i128,
}

/// A prepaid reserve of cost units, funded by locking an amount of the fee resource.
#[derive(Debug, Clone, Copy)]
pub struct FeeReserve {
    pub cost_unit_price: i128,
    pub tip_percentage: u32,
    pub limit: u32,
    pub consumed: u32,
    pub locked: i128,
}

/// The fee and tip for `units` cost units.
pub open spec fn cost_of(price: int, tip_percentage: int, units: int) -> (int, int) {
    (price * units, price * units * tip_percentage / 100)
}

impl FeeReserve {
    /// Price and tip are in range, the consumed units within the limit and paid for.
    pub open spec fn wf(&self) -> bool {
        &&& 0 <= self.cost_unit_price <= MAX_COST_UNIT_PRICE
        &&& self.tip_percentage <= MAX_TIP_PERCENTAGE
        &&& self.consumed <= self.limit
        &&& 0 <= self.locked <= MAX_LOCKED
        &&& cost_of(self.cost_unit_price as int, self.tip_percentage as int, self.consumed as int).0
            + cost_of(self.cost_unit_price as int, self.tip_percentage as int, self.consumed as int).1
            <= self.locked
    }

    pub fn new(cost_unit_price: i128, tip_percentage: u32, limit: u32) -> (r: Self)
        requires
            0 <= cost_unit_price <= MAX_COST_UNIT_PRICE,
            tip_percentage <= MAX_TIP_PERCENTAGE,
        ensures
            r.wf(),
            r.cost_unit_price == cost_unit_price,
            r.tip_percentage == tip_percentage,
            r.limit == limit,
            r.consumed == 0,
            r.locked == 0,
    {
        proof {
            assert(cost_unit_price as int * 0 == 0);
            assert(0 * (tip_percentage as int) == 0);
        }
        FeeReserve { cost_unit_price, tip_percentage, limit, consumed: 0, locked: 0 }
    }

    /// Adds `amount`, taken from the payer's vault, to what pays for the transaction.
    pub fn lock_fee(&mut self, amount: i128)
        requires
            old(self).wf(),
            0 <= amount,
            old(self).locked + amount <= MAX_LOCKED,
        ensures
            final(self).wf(),
            final(self).locked == old(self).locked + amount,
            final(self).consumed == old(self).consumed,
            final(self).cost_unit_price == old(self).cost_unit_price,
            final(self).tip_percentage == old(self).tip_percentage,
            final(self).limit == old(self).limit,
    {
        proof {
            lemma_cost_bounds(self.cost_unit_price as int, self.tip_percentage as int, self.consumed as int);
        }
        self.locked = self.locked + amount;
    }

    /// Charges `units` cost units: refused past the limit, and when the locked fee would
    /// not cover them with their tip.
    pub fn consume(&mut self, units: u32) -> (r: Result<(), FeeReserveError>)
        requires
            old(self).wf(),
        ensures
            final(self).wf(),
            old(self).consumed + units > old(self).limit ==> r == Err::<(), FeeReserveError>(
                FeeReserveError::LimitExceeded,
            ),
            old(self).consumed + units <= old(self).limit ==> {
                let c = cost_of(
                    old(self).cost_unit_price as int,
                    old(self).tip_percentage as int,
                    old(self).consumed + units,
                );
                if c.0 + c.1 > old(self).locked {
                    r == Err::<(), FeeReserveError>(FeeReserveError::CostUnitExhausted)
                } else {
                    r is Ok
                }
            },
            r is Ok ==> final(self).consumed == old(self).consumed + units,
            r is Err ==> *final(self) == *old(self),
            final(self).locked == old(self).locked,
            final(self).cost_unit_price == old(self).cost_unit_price,
            final(self).tip_percentage == old(self).tip_percentage,
    {
        if units > self.limit - self.consumed {
            return Err(FeeReserveError::LimitExceeded);
        }
        let total = self.consumed + units;
        proof {
            lemma_cost_bounds(self.cost_unit_price as int, self.tip_percentage as int, total as int);
        }
        let fee = self.cost_unit_price * (total as i128);
        let tip = fee * (self.tip_percentage as i128) / 100;
        if fee + tip > self.locked {
            return Err(FeeReserveError::CostUnitExhausted);
        }
        self.consumed = total;
        Ok(())
    }

    /// What the transaction pays for the units consumed, and what is refunded.
    pub fn settle(&self) -> (r: FeeSummary)
        requires
            self.wf(),
        ensures
            r.cost_unit_price == self.cost_unit_price,
            r.cost_units_consumed == self.consumed,
            r.locked == self.locked,
            (r.fee as int, r.tip as int) == cost_of(
                self.cost_unit_price as int,
                self.tip_percentage as int,
                self.consumed as int,
            ),
            r.refund == r.locked - r.fee - r.tip,
            r.refund >= 0,
    {
        proof {
            lemma_cost_bounds(self.cost_unit_price as int, self.tip_percentage as int, self.consumed as int);
        }
        let fee = self.cost_unit_price * (self.consumed as i128);
        let tip = fee * (self.tip_percentage as i128) / 100;
        FeeSummary {
            cost_unit_price: self.cost_unit_price,
            cost_units_consumed: self.consumed,
            fee,
            tip,
            locked: self.locked,
            refund: self.locked - fee - tip,
        }
    }
}

proof fn lemma_cost_bounds(price: int, tip: int, units: int)
    requires
        0 <= price <= MAX_COST_UNIT_PRICE,
        0 <= tip <= MAX_TIP_PERCENTAGE,
        0 <= units <= u32::MAX,
    ensures
        0 <= price * units <= MAX_COST_UNIT_PRICE * u32::MAX,
        0 <= price * units * tip <= MAX_COST_UNIT_PRICE * u32::MAX * MAX_TIP_PERCENTAGE,
        0 <= price * units * tip / 100 <= price * units * tip,
{
    assert(0 <= price * units <= MAX_COST_UNIT_PRICE * u32::MAX) by (nonlinear_arith)
        requires
            0 <= price <= MAX_COST_UNIT_PRICE,
            0 <= units <= u32::MAX,
    ;
    assert(0 <= price * units * tip <= MAX_COST_UNIT_PRICE * u32::MAX * MAX_TIP_PERCENTAGE)
        by (nonlinear_arith)
        requires
            0 <= price * units <= MAX_COST_UNIT_PRICE * u32::MAX,
            0 <= tip <= MAX_TIP_PERCENTAGE,
    ;
}

/// The payer's balance after a transaction: what was locked leaves the vault, the refund
/// comes back, so the balance falls by exactly the fee for the units consumed plus the tip.
pub proof fn lemma_payer_pays_fee_and_tip(balance_before: int, s: FeeSummary)
    requires
        s.refund == s.locked - s.fee - s.tip,
    ensures
        balance_before - s.locked + s.refund == balance_before - (s.fee + s.tip),
        s.fee + s.tip == s.locked - s.refund,
{
}

/// After a transaction settles, the payer's balance has fallen by exactly the price of a cost
/// unit times the units consumed, plus the tip: what was locked left the vault and the
/// refund came back.
pub proof fn lemma_fee_charged(balance_before: int, reserve: FeeReserve, s: FeeSummary)
    requires
        reserve.wf(),
        s.cost_unit_price == reserve.cost_unit_price,
        s.cost_units_consumed == reserve.consumed,
        s.locked == reserve.locked,
        (s.fee as int, s.tip as int) == cost_of(
            reserve.cost_unit_price as int,
            reserve.tip_percentage as int,
            reserve.consumed as int,
        ),
        s.refund == s.locked - s.fee - s.tip,
    ensures
        balance_before - (balance_before - s.locked + s.refund) == s.cost_unit_price
            * s.cost_units_consumed + s.tip,
{
}

} // verus!
