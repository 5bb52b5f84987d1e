//! Messages of the earlier holdings-only plugin protocol.
use vstd::prelude::*;

verus! {

/// Request of a holdings plugin.
#[derive(Clone, Debug, PartialEq, Eq)]
pub struct HoldingsRequest {
    pub arguments: String,
}

/// Answer of a holdings plugin, echoing its request; the amount is given as
/// binary64 bits.
#[derive(Clone, Debug, PartialEq, Eq)]
pub struct HoldingsAnswer {
    pub req: HoldingsRequest,
    pub holdings: u64,
}

/// Handshake of a holdings plugin.
#[derive(Clone, Debug, PartialEq, Eq)]
pub struct PluginInfo {
    pub name: String,
    pub description: String,
}

} // verus!
