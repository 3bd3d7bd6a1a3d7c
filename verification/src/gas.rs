//! The gas quantity type, gas charges, and the accounting ledger.
//!
//! A [`Gas`] value counts milligas in an unsigned 64-bit integer. All
//! arithmetic saturates (at zero for subtraction, at the maximum for
//! addition and multiplication) so that cost calculations are total and
//! adversarial inputs can never provoke a panic in a cost path.

use vstd::prelude::*;

verus! {

/// Milligas units per unit of whole gas.
pub const MILLIGAS_PRECISION: u64 = 1000;

/// `a + b` capped at `u64::MAX`.
pub open spec fn sat_add(a: u64, b: u64) -> u64 {
    if a + b > u64::MAX {
        u64::MAX
    } else {
        (a + b) as u64
    }
}

/// `a - b` floored at zero.
pub open spec fn sat_sub(a: u64, b: u64) -> u64 {
    if a >= b {
        (a - b) as u64
    } else {
        0
    }
}

/// `a * b` capped at `u64::MAX`.
pub open spec fn sat_mul(a: u64, b: u64) -> u64 {
    if a * b > u64::MAX {
        u64::MAX
    } else {
        (a * b) as u64
    }
}

/// Saturating addition on `u64`.
pub fn sat_add_u64(a: u64, b: u64) -> (r: u64)
    ensures
        r == sat_add(a, b),
{
    if a <= u64::MAX - b {
        a + b
    } else {
        u64::MAX
    }
}

/// Saturating subtraction on `u64`.
pub fn sat_sub_u64(a: u64, b: u64) -> (r: u64)
    ensures
        r == sat_sub(a, b),
{
    if a >= b {
        a - b
    } else {
        0
    }
}

/// Saturating multiplication on `u64`.
pub fn sat_mul_u64(a: u64, b: u64) -> (r: u64)
    ensures
        r == sat_mul(a, b),
{
    if b == 0 {
        0
    } else if a <= u64::MAX / b {
        proof {
            assert(a * b <= (u64::MAX / b) * b <= u64::MAX) by (nonlinear_arith)
                requires
                    a <= u64::MAX / b,
                    b > 0,
            ;
        }
        a * b
    } else {
        proof {
            assert(a * b > u64::MAX) by (nonlinear_arith)
                requires
                    a > u64::MAX / b,
                    b > 0,
            ;
        }
        u64::MAX
    }
}

/// A quantity of gas, counted in milligas.
#[derive(Clone, Copy, Debug, PartialEq, Eq, Structural, Hash)]
pub struct Gas {
    pub milligas: u64,
}

impl Gas {
    /// The amount in milligas.
    pub open spec fn mg(self) -> u64 {
        self.milligas
    }

    /// The gas value holding exactly `mg` milligas.
    pub open spec fn from_mg_spec(mg: u64) -> Gas {
        Gas { milligas: mg }
    }

    /// Zero gas.
    pub fn zero() -> (r: Gas)
        ensures
            r.mg() == 0,
    {
        Gas { milligas: 0 }
    }

    /// A quantity of `g` whole gas units, saturating at the maximum.
    pub fn new(g: u64) -> (r: Gas)
        ensures
            r.mg() == sat_mul(g, MILLIGAS_PRECISION as u64),
    {
        Gas { milligas: sat_mul_u64(g, MILLIGAS_PRECISION) }
    }

    /// A quantity of `mg` milligas.
    pub fn from_milligas(mg: u64) -> (r: Gas)
        ensures
            r.mg() == mg,
    {
        Gas { milligas: mg }
    }

    /// The amount in milligas.
    pub fn as_milligas(self) -> (r: u64)
        ensures
            r == self.mg(),
    {
        self.milligas
    }

    /// The amount in whole gas units, rounded down.
    pub fn round_down(self) -> (r: u64)
        ensures
            r == self.mg() / (MILLIGAS_PRECISION as u64),
    {
        self.milligas / MILLIGAS_PRECISION
    }

    /// Whether this is exactly zero.
    pub fn is_zero(self) -> (r: bool)
        ensures
            r == (self.mg() == 0),
    {
        self.milligas == 0
    }

    /// Saturating addition.
    pub fn saturating_add(self, other: Gas) -> (r: Gas)
        ensures
            r.mg() == sat_add(self.mg(), other.mg()),
    {
        Gas { milligas: sat_add_u64(self.milligas, other.milligas) }
    }

    /// Saturating subtraction, floored at zero.
    pub fn saturating_sub(self, other: Gas) -> (r: Gas)
        ensures
            r.mg() == sat_sub(self.mg(), other.mg()),
    {
        Gas { milligas: sat_sub_u64(self.milligas, other.milligas) }
    }

    /// Saturating multiplication by a non-negative integer.
    pub fn saturating_mul(self, n: u64) -> (r: Gas)
        ensures
            r.mg() == sat_mul(self.mg(), n),
    {
        Gas { milligas: sat_mul_u64(self.milligas, n) }
    }

    /// The larger of the two quantities.
    pub fn max(self, other: Gas) -> (r: Gas)
        ensures
            r.mg() == if self.mg() >= other.mg() {
                self.mg()
            } else {
                other.mg()
            },
    {
        if self.milligas >= other.milligas {
            self
        } else {
            other
        }
    }
}

/// A single priced event: a diagnostic name plus a compute and an "other"
/// (typically storage or deferred) gas amount. Only the totals are
/// consensus-relevant; the name is diagnostic.
#[derive(Clone, Copy, Debug)]
pub struct GasCharge {
    pub name: &'static str,
    pub compute_gas: Gas,
    pub other_gas: Gas,
}

impl GasCharge {
    /// The total milligas this charge debits.
    pub open spec fn total_mg(self) -> u64 {
        sat_add(self.compute_gas.mg(), self.other_gas.mg())
    }

    pub fn new(name: &'static str, compute_gas: Gas, other_gas: Gas) -> (r: GasCharge)
        ensures
            r.name == name,
            r.compute_gas == compute_gas,
            r.other_gas == other_gas,
    {
        GasCharge { name, compute_gas, other_gas }
    }

    /// The total gas to debit: compute plus other, saturating.
    pub fn total(self) -> (r: Gas)
        ensures
            r.mg() == self.total_mg(),
    {
        self.compute_gas.saturating_add(self.other_gas)
    }
}

/// Raised by the ledger when a charge does not fit in the remaining gas.
#[derive(Clone, Copy, Debug, PartialEq, Eq, Structural)]
pub struct OutOfGas;

/// The per-message gas accounting ledger: a fixed limit, a monotonically
/// growing used amount, and the remainder. Charges are all-or-nothing: a
/// charge that exceeds the remainder debits everything that is left and
/// fails with [`OutOfGas`].
#[derive(Clone, Copy, Debug)]
pub struct GasTracker {
    pub gas_limit: Gas,
    pub gas_used: Gas,
}

impl GasTracker {
    /// The ledger never records more use than its limit, so the remainder
    /// `limit - used` never wraps.
    pub open spec fn wf(self) -> bool {
        self.gas_used.mg() <= self.gas_limit.mg()
    }

    pub open spec fn spec_limit(self) -> u64 {
        self.gas_limit.mg()
    }

    pub open spec fn spec_used(self) -> u64 {
        self.gas_used.mg()
    }

    pub open spec fn spec_remaining(self) -> u64 {
        (self.gas_limit.mg() - self.gas_used.mg()) as u64
    }

    /// A fresh ledger with the message's gas limit and nothing used.
    pub fn new(gas_limit: Gas) -> (r: GasTracker)
        ensures
            r.wf(),
            r.spec_limit() == gas_limit.mg(),
            r.spec_used() == 0,
    {
        GasTracker { gas_limit, gas_used: Gas::zero() }
    }

    /// Gas left before the ledger is exhausted.
    pub fn remaining_gas(&self) -> (r: Gas)
        requires
            self.wf(),
        ensures
            r.mg() == self.spec_remaining(),
    {
        Gas { milligas: self.gas_limit.milligas - self.gas_used.milligas }
    }

    /// Gas debited so far.
    pub fn gas_used(&self) -> (r: Gas)
        ensures
            r.mg() == self.spec_used(),
    {
        self.gas_used
    }

    /// The ledger's fixed limit.
    pub fn gas_limit(&self) -> (r: Gas)
        ensures
            r.mg() == self.spec_limit(),
    {
        self.gas_limit
    }

    /// Debit a charge. Either the full total fits in the remainder and is
    /// debited, or the ledger is exhausted: the remainder drops to zero and
    /// the call fails with [`OutOfGas`]. Nothing ever wraps.
    pub fn charge(&mut self, charge: GasCharge) -> (r: Result<(), OutOfGas>)
        requires
            old(self).wf(),
        ensures
            final(self).wf(),
            final(self).spec_limit() == old(self).spec_limit(),
            r is Ok <==> charge.total_mg() <= old(self).spec_remaining(),
            r is Ok ==> final(self).spec_used() == old(self).spec_used() + charge.total_mg(),
            r is Err ==> final(self).spec_used() == final(self).spec_limit(),
    {
        let total = charge.total();
        let remaining = self.gas_limit.milligas - self.gas_used.milligas;
        if total.milligas <= remaining {
            self.gas_used = Gas { milligas: self.gas_used.milligas + total.milligas };
            Ok(())
        } else {
            self.gas_used = self.gas_limit;
            Err(OutOfGas)
        }
    }
}

/// Gas arithmetic never wraps: an addition is exact whenever the
/// mathematical sum fits, and visibly pinned at the maximum otherwise;
/// it never comes out below either operand.
pub proof fn lemma_gas_saturation_observable(a: Gas, b: Gas)
    ensures
        a.mg() + b.mg() <= u64::MAX ==> sat_add(a.mg(), b.mg()) == a.mg() + b.mg(),
        a.mg() + b.mg() > u64::MAX ==> sat_add(a.mg(), b.mg()) == u64::MAX,
        sat_add(a.mg(), b.mg()) >= a.mg(),
        sat_add(a.mg(), b.mg()) >= b.mg(),
{
}

/// No sequence of charges can make the ledger wrap: used gas stays within
/// the limit, grows by exactly the charge's total while gas lasts, and the
/// remainder reaches zero exactly when a charge fails.
pub proof fn lemma_ledger_never_wraps(t: GasTracker, charge: GasCharge)
    requires
        t.wf(),
    ensures
        t.spec_used() + t.spec_remaining() == t.spec_limit(),
        charge.total_mg() <= t.spec_remaining() ==> t.spec_used() + charge.total_mg()
            <= t.spec_limit(),
{
}

} // verus!
