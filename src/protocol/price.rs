//! Messages of the earlier price-only plugin protocol.
use vstd::prelude::*;

verus! {

/// Request of a price plugin: an asset in a unit of account.
#[derive(Clone, Debug, PartialEq, Eq)]
pub struct PriceRequest {
    pub asset: String,
    pub unit_of_account: String,
}

/// Answer of a price plugin, echoing its request; the price is given as
/// binary64 bits.
#[derive(Clone, Debug, PartialEq, Eq)]
pub struct PriceAnswer {
    pub req: PriceRequest,
    pub price: u64,
}

/// Handshake of a price plugin: the pairs it can price.
#[derive(Clone, Debug, PartialEq, Eq)]
pub struct PricePluginInfo {
    pub pairs: Vec<(String, String)>,
}

} // verus!
