//! Messages exchanged with a plugin process.
//!
//! A plugin first sends one [`PluginInfo`]; after that every [`Request`] is
//! answered by exactly one response, `Ok(Answer)` or `Err(Error)`. Numeric
//! values travel as the bit pattern of an IEEE-754 binary64 number, so a
//! value is carried through the library without any change.
use vstd::prelude::*;

pub mod holdings;
pub mod price;

verus! {

/// A plugin's declared capability.
#[derive(PartialEq, Eq, Structural, Clone, Copy, Debug)]
pub enum PluginType {
    Holdings,
    Price,
    Any,
}

/// Whether a plugin that declared `declared` may answer a query that
/// expects `expected`.
pub open spec fn serves(declared: PluginType, expected: PluginType) -> bool {
    declared == expected || declared == PluginType::Any
}

/// Request message: the argument payload of a formula.
#[derive(Clone, Debug, PartialEq, Eq)]
pub struct Request {
    pub arguments: String,
}

/// Successful response: the computed value, as binary64 bits.
#[derive(Clone, Copy, Debug, PartialEq, Eq)]
pub struct Answer {
    pub answer: u64,
}

/// Error response: the plugin's own code and description.
#[derive(Clone, Debug, PartialEq, Eq)]
pub struct Error {
    pub code: u64,
    pub description: String,
}

/// Handshake message, sent once by a plugin right after it starts.
#[derive(Clone, Debug, PartialEq, Eq)]
pub struct PluginInfo {
    pub name: String,
    pub plugin_type: PluginType,
    pub description: String,
}

} // verus!
