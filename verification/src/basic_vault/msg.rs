use vstd::prelude::*;

verus! {

/// A debug string of the vault, with the addresses it concerns.
#[derive(Debug, Clone, PartialEq, Eq)]
pub struct GetDebugResponse {
    /// the debug string
    pub debug: String,
    /// user address
    pub user: String,
    /// vault address
    pub vault: String,
    /// primitive address
    pub primitive: String,
}

/// The settings of a liquidity-pool primitive: what it is instantiated with,
/// and what it reports as its configuration.
#[derive(Debug, Clone, PartialEq, Eq)]
pub struct LpStrategySettings {
    pub lock_period: u64,
    pub pool_id: u64,
    pub pool_denom: String,
    pub local_denom: String,
    pub base_denom: String,
    pub quote_denom: String,
    pub transfer_channel: String,
    pub return_source_channel: String,
    pub expected_connection: String,
}

/// How a primitive was instantiated.
#[derive(Debug, Clone, PartialEq, Eq)]
pub enum PrimitiveInitMsg {
    LP(LpStrategySettings),
}

/// The two settings agree in every field.
pub open spec fn same_settings(a: LpStrategySettings, b: LpStrategySettings) -> bool {
    &&& a.lock_period == b.lock_period
    &&& a.pool_id == b.pool_id
    &&& a.pool_denom@ == b.pool_denom@
    &&& a.local_denom@ == b.local_denom@
    &&& a.base_denom@ == b.base_denom@
    &&& a.quote_denom@ == b.quote_denom@
    &&& a.transfer_channel@ == b.transfer_channel@
    &&& a.return_source_channel@ == b.return_source_channel@
    &&& a.expected_connection@ == b.expected_connection@
}

/// Settings that match agree in every field, and settings match themselves.
pub proof fn law_matching_settings_agree(a: LpStrategySettings, b: LpStrategySettings)
    ensures
        same_settings(a, b) ==> {
            &&& a.lock_period == b.lock_period
            &&& a.pool_id == b.pool_id
            &&& a.pool_denom@ == b.pool_denom@
            &&& a.local_denom@ == b.local_denom@
            &&& a.base_denom@ == b.base_denom@
            &&& a.quote_denom@ == b.quote_denom@
            &&& a.transfer_channel@ == b.transfer_channel@
            &&& a.return_source_channel@ == b.return_source_channel@
            &&& a.expected_connection@ == b.expected_connection@
        },
        same_settings(a, a),
        a.pool_id != b.pool_id || a.lock_period != b.lock_period ==> !same_settings(a, b),
{
}

/// Whether the configuration a primitive reports is the one it was
/// instantiated with; the vault is only instantiated over primitives for
/// which it is.
pub fn primitive_config_matches(config: &LpStrategySettings, init: &PrimitiveInitMsg) -> (r: bool)
    ensures
        r == match init {
            PrimitiveInitMsg::LP(i) => same_settings(*config, *i),
        },
        r ==> match init {
            PrimitiveInitMsg::LP(i) => {
                &&& config.lock_period == i.lock_period
                &&& config.pool_id == i.pool_id
                &&& config.pool_denom@ == i.pool_denom@
                &&& config.local_denom@ == i.local_denom@
                &&& config.base_denom@ == i.base_denom@
                &&& config.quote_denom@ == i.quote_denom@
                &&& config.transfer_channel@ == i.transfer_channel@
                &&& config.return_source_channel@ == i.return_source_channel@
                &&& config.expected_connection@ == i.expected_connection@
            },
        },
{
    proof {
        let PrimitiveInitMsg::LP(i) = *init;
        law_matching_settings_agree(*config, i);
    }
    match init {
        PrimitiveInitMsg::LP(i) => {
            config.base_denom == i.base_denom
                && config.expected_connection == i.expected_connection
                && config.local_denom == i.local_denom
                && config.lock_period == i.lock_period
                && config.pool_denom == i.pool_denom
                && config.pool_id == i.pool_id
                && config.quote_denom == i.quote_denom
                && config.return_source_channel == i.return_source_channel
                && config.transfer_channel == i.transfer_channel
        },
    }
}

} // verus!
