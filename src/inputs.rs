use vstd::prelude::*;
use std::collections::BTreeSet;
use crate::handles::Bucket;
use crate::resource::Decimal;
use crate::types::NonFungibleId;

verus! {

/// Arguments of burning a whole bucket.
#[derive(Debug)]
pub struct ConsumingBucketBurnInput {}

/// Arguments of taking an amount out of a bucket.
#[derive(Debug)]
pub struct BucketTakeInput {
    pub amount: Decimal,
}

/// Arguments of putting a bucket into another.
#[derive(Debug)]
pub struct BucketPutInput {
    pub bucket: Bucket,
}

/// Arguments of taking given non-fungibles out of a bucket.
#[derive(Debug)]
pub struct BucketTakeNonFungiblesInput {
    pub ids: BTreeSet<NonFungibleId>,
}

/// Arguments of reading the non-fungible ids of a bucket.
#[derive(Debug)]
pub struct BucketGetNonFungibleIdsInput {}

/// Arguments of reading the amount in a bucket.
#[derive(Debug)]
pub struct BucketGetAmountInput {}

/// Arguments of reading the resource of a bucket.
#[derive(Debug)]
pub struct BucketGetResourceAddressInput {}

/// Arguments of creating a proof of a bucket.
#[derive(Debug)]
pub struct BucketCreateProofInput {}

/// Arguments of reading the current epoch.
#[derive(Debug)]
pub struct SystemGetCurrentEpochInput {}

/// Arguments of setting the current epoch.
#[derive(Debug)]
pub struct SystemSetEpochInput {
    pub epoch: u64,
}

/// Arguments of reading the hash of the running transaction.
#[derive(Debug)]
pub struct SystemGetTransactionHashInput {}

/// The transaction runtime, as a guest sees it through its host calls.
#[derive(Debug)]
pub struct Runtime {}

} // verus!
