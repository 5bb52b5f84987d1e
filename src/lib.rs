//! Asset tracking around external valuation plugins: the message types of the
//! plugin protocol, the formula grammar, the plugin registry and the snapshot
//! ledger.
pub mod formula;
pub mod ledger;
pub mod names;
pub mod protocol;
pub mod quandl;
pub mod registry;
