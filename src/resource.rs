use vstd::prelude::*;
use crate::types::{NonFungibleId, ResourceAddress};

verus! {

/// One whole unit in the fixed-point representation: a `Decimal` carries 18 fractional digits.
pub const ONE: i128 = 1_000_000_000_000_000_000;

/// The largest total supply of a resource, in whole units.
pub const MAX_SUPPLY_UNITS: i128 = 1_000_000_000_000_000_000;

/// The largest divisibility: amounts can be split down to 10^-18.
pub const MAX_DIVISIBILITY: u8 = 18;

/// A signed fixed-point number with 18 fractional digits; `Decimal(ONE)` is one unit.
#[derive(Debug, Clone, Copy, PartialEq, Eq, Structural)]
pub struct Decimal(pub i128);

/// The largest total supply in the fixed-point representation.
pub open spec fn max_supply() -> int {
    MAX_SUPPLY_UNITS * ONE
}

/// The smallest amount that a resource of divisibility `d` can be split into, in the
/// fixed-point representation: 10^(18 - d).
pub open spec fn granule(d: u8) -> int
    recommends
        d <= MAX_DIVISIBILITY,
{
    if d == 0 {
        1000000000000000000
    } else if d == 1 {
        100000000000000000
    } else if d == 2 {
        10000000000000000
    } else if d == 3 {
        1000000000000000
    } else if d == 4 {
        100000000000000
    } else if d == 5 {
        10000000000000
    } else if d == 6 {
        1000000000000
    } else if d == 7 {
        100000000000
    } else if d == 8 {
        10000000000
    } else if d == 9 {
        1000000000
    } else if d == 10 {
        100000000
    } else if d == 11 {
        10000000
    } else if d == 12 {
        1000000
    } else if d == 13 {
        100000
    } else if d == 14 {
        10000
    } else if d == 15 {
        1000
    } else if d == 16 {
        100
    } else if d == 17 {
        10
    } else {
        1
    }
}

/// A valid amount of a resource of divisibility `d`: not negative and a multiple of its granule.
pub open spec fn valid_amount(amount: i128, d: u8) -> bool {
    amount >= 0 && (amount as int) % granule(d) == 0
}

proof fn lemma_granule_bounds(d: u8)
    requires
        d <= MAX_DIVISIBILITY,
    ensures
        1 <= granule(d) <= ONE,
{
}

/// Computes the granule of divisibility `d`.
fn granule_of(d: u8) -> (r: i128)
    requires
        d <= MAX_DIVISIBILITY,
    ensures
        r == granule(d),
        1 <= r <= ONE,
{
    if d == 0 {
        1000000000000000000
    } else if d == 1 {
        100000000000000000
    } else if d == 2 {
        10000000000000000
    } else if d == 3 {
        1000000000000000
    } else if d == 4 {
        100000000000000
    } else if d == 5 {
        10000000000000
    } else if d == 6 {
        1000000000000
    } else if d == 7 {
        100000000000
    } else if d == 8 {
        10000000000
    } else if d == 9 {
        1000000000
    } else if d == 10 {
        100000000
    } else if d == 11 {
        10000000
    } else if d == 12 {
        1000000
    } else if d == 13 {
        100000
    } else if d == 14 {
        10000
    } else if d == 15 {
        1000
    } else if d == 16 {
        100
    } else if d == 17 {
        10
    } else {
        1
    }
}

/// Whether `amount` is a valid amount for a resource of divisibility `d`.
pub fn check_amount(amount: Decimal, d: u8) -> (r: bool)
    requires
        d <= MAX_DIVISIBILITY,
    ensures
        r == valid_amount(amount.0, d),
{
    let g = granule_of(d);
    amount.0 >= 0 && amount.0 % g == 0
}

/// The kind of a resource.
#[derive(Debug, Clone, Copy, PartialEq, Eq, Structural)]
pub enum ResourceType {
    Fungible { divisibility: u8 },
    NonFungible,
}

/// Represents an error raised by a resource manager.
#[derive(Debug, Clone, Copy, PartialEq, Eq, Structural)]
pub enum ResourceManagerError {
    InvalidDivisibility(u8),
    InvalidAmount(Decimal, u8),
    MaxMintAmountExceeded,
    ResourceTypeMismatch,
}

/// The authority over one resource: its kind and how much of it exists.
#[derive(Debug, Clone, Copy, PartialEq, Eq, Structural)]
pub struct ResourceManager {
    pub resource_type: ResourceType,
    pub total_supply: Decimal,
}

/// What minting `amount` does to a manager: the new total supply, or the error.
pub open spec fn mint_outcome(m: ResourceManager, amount: i128) -> Result<i128, ResourceManagerError> {
    match m.resource_type {
        ResourceType::NonFungible => Err(ResourceManagerError::ResourceTypeMismatch),
        ResourceType::Fungible { divisibility } => if !valid_amount(amount, divisibility) {
            Err(ResourceManagerError::InvalidAmount(Decimal(amount), divisibility))
        } else if m.total_supply.0 + amount > max_supply() {
            Err(ResourceManagerError::MaxMintAmountExceeded)
        } else {
            Ok((m.total_supply.0 + amount) as i128)
        },
    }
}

/// The divisibility of a kind of resource; non-fungibles count whole units.
pub open spec fn divisibility_of(t: ResourceType) -> u8 {
    match t {
        ResourceType::Fungible { divisibility } => divisibility,
        ResourceType::NonFungible => 0,
    }
}

impl ResourceManager {
    /// A manager whose divisibility is in range and whose supply is within bounds.
    pub open spec fn wf(&self) -> bool {
        &&& (self.resource_type matches ResourceType::Fungible { divisibility } ==> divisibility
            <= MAX_DIVISIBILITY)
        &&& 0 <= self.total_supply.0 <= max_supply()
    }

    /// Creates a manager with no supply; the divisibility of a fungible must not exceed 18.
    pub fn new(resource_type: ResourceType) -> (r: Result<Self, ResourceManagerError>)
        ensures
            match resource_type {
                ResourceType::Fungible { divisibility } => if divisibility > MAX_DIVISIBILITY {
                    r == Err::<Self, ResourceManagerError>(
                        ResourceManagerError::InvalidDivisibility(divisibility),
                    )
                } else {
                    r == Ok::<Self, ResourceManagerError>(
                        ResourceManager { resource_type, total_supply: Decimal(0) },
                    )
                },
                ResourceType::NonFungible => r == Ok::<Self, ResourceManagerError>(
                    ResourceManager { resource_type, total_supply: Decimal(0) },
                ),
            },
            r is Ok ==> r->Ok_0.wf(),
    {
        if let ResourceType::Fungible { divisibility } = resource_type {
            if divisibility > MAX_DIVISIBILITY {
                return Err(ResourceManagerError::InvalidDivisibility(divisibility));
            }
        }
        Ok(ResourceManager { resource_type, total_supply: Decimal(0) })
    }

    /// Mints `amount` of a fungible resource: the amount must be a multiple of the granule
    /// of its divisibility and the supply must stay within 10^18 units.
    pub fn mint_fungible(&mut self, amount: Decimal) -> (r: Result<(), ResourceManagerError>)
        requires
            old(self).wf(),
        ensures
            final(self).wf(),
            final(self).resource_type == old(self).resource_type,
            match mint_outcome(*old(self), amount.0) {
                Ok(s) => r is Ok && final(self).total_supply.0 == s,
                Err(e) => r == Err::<(), ResourceManagerError>(e) && *final(self) == *old(self),
            },
    {
        match self.resource_type {
            ResourceType::NonFungible => Err(ResourceManagerError::ResourceTypeMismatch),
            ResourceType::Fungible { divisibility } => {
                if !check_amount(amount, divisibility) {
                    return Err(ResourceManagerError::InvalidAmount(amount, divisibility));
                }
                if amount.0 > MAX_SUPPLY_UNITS * ONE - self.total_supply.0 {
                    return Err(ResourceManagerError::MaxMintAmountExceeded);
                }
                self.total_supply = Decimal(self.total_supply.0 + amount.0);
                Ok(())
            },
        }
    }

    /// Burns `amount` of the resource, taking it out of the supply. A negative amount, or
    /// more than the supply, is refused as an invalid amount.
    pub fn burn(&mut self, amount: Decimal) -> (r: Result<(), ResourceManagerError>)
        requires
            old(self).wf(),
        ensures
            final(self).wf(),
            final(self).resource_type == old(self).resource_type,
            r is Ok <==> 0 <= amount.0 <= old(self).total_supply.0,
            r is Ok ==> final(self).total_supply.0 == old(self).total_supply.0 - amount.0,
            r is Err ==> *final(self) == *old(self) && r == Err::<(), ResourceManagerError>(
                ResourceManagerError::InvalidAmount(amount, divisibility_of(old(self).resource_type)),
            ),
    {
        if amount.0 < 0 || amount.0 > self.total_supply.0 {
            let d = match self.resource_type {
                ResourceType::Fungible { divisibility } => divisibility,
                ResourceType::NonFungible => 0,
            };
            return Err(ResourceManagerError::InvalidAmount(amount, d));
        }
        self.total_supply = Decimal(self.total_supply.0 - amount.0);
        Ok(())
    }
}

/// Represents an error raised by a resource container.
#[derive(Debug, Clone, PartialEq, Eq)]
pub enum ResourceContainerError {
    ResourceAddressNotMatching,
    InsufficientBalance,
    InvalidAmount(Decimal, u8),
    NonFungibleOperationNotAllowed,
}

/// The liquid contents of a bucket or a vault: an amount of one resource.
#[derive(Debug, Clone)]
pub struct ResourceContainer {
    pub resource_address: ResourceAddress,
    pub divisibility: u8,
    pub amount: Decimal,
    pub ids: Option<Vec<NonFungibleId>>,
}

impl ResourceContainer {
    /// The amount is valid for the divisibility.
    pub open spec fn wf(&self) -> bool {
        &&& self.divisibility <= MAX_DIVISIBILITY
        &&& valid_amount(self.amount.0, self.divisibility)
        &&& self.amount.0 <= max_supply()
    }

    /// An empty container of a fungible resource.
    pub fn new_empty(resource_address: ResourceAddress, divisibility: u8) -> (r: Self)
        requires
            divisibility <= MAX_DIVISIBILITY,
        ensures
            r.wf(),
            r.resource_address == resource_address,
            r.divisibility == divisibility,
            r.amount.0 == 0,
            r.ids is None,
    {
        proof {
            lemma_granule_bounds(divisibility);
            vstd::arithmetic::div_mod::lemma_small_mod(0, granule(divisibility) as nat);
        }
        ResourceContainer { resource_address, divisibility, amount: Decimal(0), ids: None }
    }

    pub fn amount(&self) -> (r: Decimal)
        ensures
            r == self.amount,
    {
        self.amount
    }

    pub fn is_empty(&self) -> (r: bool)
        ensures
            r == (self.amount.0 == 0),
    {
        self.amount.0 == 0
    }

    /// Takes `amount` out of this container into a new one.
    pub fn take_by_amount(&mut self, amount: Decimal) -> (r: Result<Self, ResourceContainerError>)
        requires
            old(self).wf(),
        ensures
            final(self).wf(),
            final(self).resource_address == old(self).resource_address,
            final(self).divisibility == old(self).divisibility,
            !valid_amount(amount.0, old(self).divisibility) ==> r == Err::<
                Self,
                ResourceContainerError,
            >(ResourceContainerError::InvalidAmount(amount, old(self).divisibility)),
            valid_amount(amount.0, old(self).divisibility) && amount.0 > old(self).amount.0 ==> r
                == Err::<Self, ResourceContainerError>(
                ResourceContainerError::InsufficientBalance,
            ),
            r is Err ==> final(self).amount == old(self).amount,
            r is Ok <==> valid_amount(amount.0, old(self).divisibility) && amount.0 <= old(
                self,
            ).amount.0,
            r is Ok ==> {
                &&& r->Ok_0.wf()
                &&& r->Ok_0.amount == amount
                &&& r->Ok_0.resource_address == old(self).resource_address
                &&& r->Ok_0.divisibility == old(self).divisibility
                &&& final(self).amount.0 == old(self).amount.0 - amount.0
            },
    {
        if !check_amount(amount, self.divisibility) {
            return Err(ResourceContainerError::InvalidAmount(amount, self.divisibility));
        }
        if amount.0 > self.amount.0 {
            return Err(ResourceContainerError::InsufficientBalance);
        }
        proof {
            let g = granule(self.divisibility);
            lemma_granule_bounds(self.divisibility);
            vstd::arithmetic::div_mod::lemma_sub_mod_noop(
                self.amount.0 as int,
                amount.0 as int,
                g,
            );
            vstd::arithmetic::div_mod::lemma_small_mod(0, g as nat);
        }
        self.amount = Decimal(self.amount.0 - amount.0);
        Ok(ResourceContainer {
            resource_address: self.resource_address,
            divisibility: self.divisibility,
            amount,
            ids: None,
        })
    }

    /// Moves everything in `other` into this container; both must hold the same resource.
    pub fn put(&mut self, other: Self) -> (r: Result<(), ResourceContainerError>)
        requires
            old(self).wf(),
            other.wf(),
            old(self).amount.0 + other.amount.0 <= max_supply(),
        ensures
            final(self).wf(),
            final(self).resource_address == old(self).resource_address,
            final(self).divisibility == old(self).divisibility,
            r is Ok <==> other.resource_address.0@ == old(self).resource_address.0@
                && other.divisibility == old(self).divisibility,
            r is Ok ==> final(self).amount.0 == old(self).amount.0 + other.amount.0,
            r is Err ==> r == Err::<(), ResourceContainerError>(
                ResourceContainerError::ResourceAddressNotMatching,
            ) && final(self).amount == old(self).amount,
    {
        if !(other.resource_address == self.resource_address) || other.divisibility
            != self.divisibility {
            return Err(ResourceContainerError::ResourceAddressNotMatching);
        }
        proof {
            let g = granule(self.divisibility);
            lemma_granule_bounds(self.divisibility);
            vstd::arithmetic::div_mod::lemma_add_mod_noop(
                self.amount.0 as int,
                other.amount.0 as int,
                g,
            );
            vstd::arithmetic::div_mod::lemma_small_mod(0, g as nat);
        }
        self.amount = Decimal(self.amount.0 + other.amount.0);
        Ok(())
    }
}

/// Moving resources between two containers conserves their sum: a `take_by_amount` from
/// the source followed by a `put` of what was taken into the destination leaves the total
/// of the two as it was.
pub proof fn lemma_move_conserves(
    src_before: ResourceContainer,
    src_after: ResourceContainer,
    moved: ResourceContainer,
    dst_before: ResourceContainer,
    dst_after: ResourceContainer,
)
    requires
        src_after.amount.0 == src_before.amount.0 - moved.amount.0,
        dst_after.amount.0 == dst_before.amount.0 + moved.amount.0,
    ensures
        src_after.amount.0 + dst_after.amount.0 == src_before.amount.0 + dst_before.amount.0,
{
}

/// The total amount held by some containers.
pub open spec fn total(amounts: Seq<int>) -> int
    decreases amounts.len(),
{
    if amounts.len() == 0 {
        0
    } else {
        total(amounts.drop_last()) + amounts.last()
    }
}

proof fn lemma_total_update(amounts: Seq<int>, i: int, d: int)
    requires
        0 <= i < amounts.len(),
    ensures
        total(amounts.update(i, amounts[i] + d)) == total(amounts) + d,
    decreases amounts.len(),
{
    let u = amounts.update(i, amounts[i] + d);
    if i == amounts.len() - 1 {
        assert(u.drop_last() =~= amounts.drop_last());
    } else {
        lemma_total_update(amounts.drop_last(), i, d);
        assert(u.drop_last() =~= amounts.drop_last().update(i, amounts[i] + d));
    }
}

/// Moving an amount from one container to another, among any number of containers of a
/// resource, leaves the total they hold unchanged: resources are neither made nor lost by
/// moving them.
pub proof fn lemma_moves_conserve_total(amounts: Seq<int>, from: int, to: int, x: int)
    requires
        0 <= from < amounts.len(),
        0 <= to < amounts.len(),
        from != to,
    ensures
        total(amounts.update(from, amounts[from] - x).update(to, amounts[to] + x)) == total(amounts),
{
    let a1 = amounts.update(from, amounts[from] - x);
    lemma_total_update(amounts, from, -x);
    assert(a1[to] == amounts[to]);
    lemma_total_update(a1, to, x);
}

} // verus!
