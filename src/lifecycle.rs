use crate::state::Mode;
use candid::Principal;
use vstd::prelude::*;

verus! {

pub enum CoreArgs {
    Init(InitArgs),
    Upgrade(Option<UpgradeArgs>),
}

/// Deployment settings; each `None` keeps the protocol's default.
#[derive(Clone, Debug)]
pub struct InitArgs {
    pub mode: Mode,
    pub eusd_ledger_principal: Option<Principal>,
    pub xrc_principal: Option<Principal>,
    pub icp_ledger_principal: Option<Principal>,
    pub min_amount_to_stable: Option<u64>,
    pub min_amount_from_stable: Option<u64>,
    pub min_amount_leverage: Option<u64>,
    pub min_amount_liquidity: Option<u64>,
}

#[derive(Clone, Copy, Debug, PartialEq, Eq, Structural)]
pub struct UpgradeArgs {}

} // verus!
