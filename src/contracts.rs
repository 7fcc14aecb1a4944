//! The per-chain registry of contract addresses: the restaking strategies
//! accepted as collateral and the protocol's own contracts.
use vstd::prelude::*;
use crate::signing::Address;

verus! {

/// A supported EigenLayer restaking strategy.
#[derive(Clone, Copy, Debug, PartialEq, Eq, Structural)]
pub enum EigenLayerStrategy {
    StEth,
    REth,
    WEth,
    CbEth,
    MEth,
}

/// The display name of each strategy.
pub open spec fn strategy_label(s: EigenLayerStrategy) -> Seq<char> {
    match s {
        EigenLayerStrategy::StEth => "stETH"@,
        EigenLayerStrategy::REth => "rETH"@,
        EigenLayerStrategy::WEth => "wETH"@,
        EigenLayerStrategy::CbEth => "cbETH"@,
        EigenLayerStrategy::MEth => "mETH"@,
    }
}

impl EigenLayerStrategy {
    /// The strategy's display name, such as `stETH`.
    pub fn as_str(&self) -> (r: &'static str)
        ensures
            r@ == strategy_label(*self),
    {
        match self {
            EigenLayerStrategy::StEth => "stETH",
            EigenLayerStrategy::REth => "rETH",
            EigenLayerStrategy::WEth => "wETH",
            EigenLayerStrategy::CbEth => "cbETH",
            EigenLayerStrategy::MEth => "mETH",
        }
    }
}

/// The strategy contract addresses of one chain.
#[derive(Clone, Copy, Debug)]
pub struct EigenLayerStrategies {
    pub st_eth: Address,
    pub r_eth: Address,
    pub w_eth: Address,
    pub cb_eth: Address,
    pub m_eth: Address,
}

/// The address of a strategy among a chain's strategy addresses.
pub open spec fn strategy_address(strategy: EigenLayerStrategy, addresses: EigenLayerStrategies) -> Address {
    match strategy {
        EigenLayerStrategy::StEth => addresses.st_eth,
        EigenLayerStrategy::REth => addresses.r_eth,
        EigenLayerStrategy::WEth => addresses.w_eth,
        EigenLayerStrategy::CbEth => addresses.cb_eth,
        EigenLayerStrategy::MEth => addresses.m_eth,
    }
}

/// Looks up the address of `strategy`.
pub fn strategy_to_address(strategy: EigenLayerStrategy, addresses: EigenLayerStrategies) -> (r: Address)
    ensures
        r == strategy_address(strategy, addresses),
{
    match strategy {
        EigenLayerStrategy::StEth => addresses.st_eth,
        EigenLayerStrategy::REth => addresses.r_eth,
        EigenLayerStrategy::WEth => addresses.w_eth,
        EigenLayerStrategy::CbEth => addresses.cb_eth,
        EigenLayerStrategy::MEth => addresses.m_eth,
    }
}

/// A network the protocol is deployed on, or may be.
#[derive(Clone, Copy, Debug, PartialEq, Eq, Structural)]
pub enum Chain {
    Mainnet,
    Holesky,
    Helder,
    Kurtosis,
}

/// The protocol's own contracts.
#[derive(Clone, Copy, Debug)]
pub struct Bolt {
    pub validators: Address,
    pub parameters: Address,
    pub manager: Address,
    pub eigenlayer_middleware: Address,
    pub symbiotic_middleware: Address,
    pub operators_registry: Address,
}

/// The Symbiotic restaking contracts.
#[derive(Clone, Copy, Debug)]
pub struct Symbiotic {
    pub network: Address,
    pub operator_registry: Address,
    pub network_opt_in_service: Address,
    pub vault_factory: Address,
    pub vault_configurator: Address,
    pub network_registry: Address,
    pub network_middleware_service: Address,
    pub supported_vaults: [Address; 6],
}

/// The EigenLayer restaking contracts.
#[derive(Clone, Copy, Debug)]
pub struct EigenLayer {
    pub avs_directory: Address,
    pub delegation_manager: Address,
    pub strategy_manager: Address,
    pub supported_strategies: EigenLayerStrategies,
}

/// Every contract address of one chain.
#[derive(Clone, Debug)]
pub struct Contracts {
    pub bolt: Bolt,
    pub symbiotic: Symbiotic,
    pub eigen_layer: EigenLayer,
    /// Collateral tokens by name.
    pub collateral: Vec<(String, Address)>,
}

/// The contract addresses of each chain the protocol is deployed on; built
/// once at startup and handed to whatever needs chain-specific addresses.
pub struct Deployments {
    pub entries: Vec<(Chain, Contracts)>,
}

/// A registry holds at most one entry per chain.
pub open spec fn chains_distinct(entries: Seq<(Chain, Contracts)>) -> bool {
    forall|i: int, j: int| 0 <= i < j < entries.len() ==> entries[i].0 != entries[j].0
}

/// The registry of the two deployed chains, Holesky and Mainnet.
pub fn deployments(holesky: Contracts, mainnet: Contracts) -> (r: Deployments)
    ensures
        r.entries@ == seq![(Chain::Holesky, holesky), (Chain::Mainnet, mainnet)],
        chains_distinct(r.entries@),
{
    let mut entries: Vec<(Chain, Contracts)> = Vec::new();
    entries.push((Chain::Holesky, holesky));
    entries.push((Chain::Mainnet, mainnet));
    proof {
        assert(entries@ =~= seq![(Chain::Holesky, holesky), (Chain::Mainnet, mainnet)]);
    }
    Deployments { entries }
}

impl Deployments {
    /// The contracts deployed on `chain`, or `None` where it has no deployment.
    pub fn deployments_for_chain(&self, chain: Chain) -> (r: Option<&Contracts>)
        ensures
            match r {
                Some(c) => exists|i: int| 0 <= i < self.entries@.len() && self.entries@[i] == (chain, *c),
                None => forall|i: int| 0 <= i < self.entries@.len() ==> self.entries@[i].0 != chain,
            },
    {
        let mut i: usize = 0;
        while i < self.entries.len()
            invariant
                i <= self.entries@.len(),
                forall|j: int| 0 <= j < i ==> self.entries@[j].0 != chain,
            decreases self.entries@.len() - i,
        {
            if self.entries[i].0 == chain {
                return Some(&self.entries[i].1);
            }
            i = i + 1;
        }
        None
    }
}

} // verus!
