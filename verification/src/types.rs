//! The tool-facing types: call arguments, the flattened overview
//! record, and the error wrapper handed back to the conversational
//! layer.

use vstd::prelude::*;
use crate::zapper::types::{Holding, NetworkTotal};

verus! {

/// The error handed to the conversational layer; the wrapped text is
/// preserved as is.
#[derive(Debug)]
pub struct PortfolioError(pub String);

impl PortfolioError {
    /// The displayed wording of the error.
    pub fn message(&self) -> (r: String)
        ensures
            r@ == "Portfolio error: "@ + self.0@,
    {
        let mut s = String::new();
        s.append("Portfolio error: ");
        s.append(self.0.as_str());
        proof {
            assert(s@ =~= "Portfolio error: "@ + self.0@);
        }
        s
    }
}

/// Arguments of the one callable capability: a wallet address, and
/// optionally the networks to restrict the lookup to.
pub struct PortfolioArgs {
    pub address: String,
    pub networks: Option<Vec<String>>,
}

/// The flattened projection of a portfolio's totals.
pub struct PortfolioOverview {
    pub total_value: i64,
    pub total_with_nft: i64,
    pub apps_total: i64,
    pub holdings: Vec<Holding>,
    pub network_breakdown: Vec<NetworkTotal>,
}

} // verus!
