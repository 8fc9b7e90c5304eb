//! Networks a benchmark can target, and the chain-state snapshot each one
//! needs before a run.

use vstd::prelude::*;

verus! {

/// The deployment profile the built binary is benchmarked against.
#[derive(Debug, Clone, Copy, PartialEq, Eq, Structural)]
pub enum Network {
    Mainnet,
    Signet,
}

/// Description of the snapshot file a network requires: its file name and
/// the chain height it was taken at.
#[derive(Debug)]
pub struct SnapshotInfo {
    pub network: Network,
    pub filename: String,
    pub height: u32,
}

impl SnapshotInfo {
    /// The snapshot required for `network`, if one is published for it.
    pub fn for_network(network: &Network) -> (r: Option<SnapshotInfo>)
        ensures
            r is Some,
            r->Some_0.network == network,
            network is Mainnet ==> r->Some_0.filename@ == "mainnet-840000.dat"@
                && r->Some_0.height == 840000u32,
            network is Signet ==> r->Some_0.filename@ == "signet-160000.dat"@
                && r->Some_0.height == 160000u32,
    {
        match network {
            Network::Mainnet => Some(SnapshotInfo {
                network: Network::Mainnet,
                filename: "mainnet-840000.dat".to_owned(),
                height: 840000,
            }),
            Network::Signet => Some(SnapshotInfo {
                network: Network::Signet,
                filename: "signet-160000.dat".to_owned(),
                height: 160000,
            }),
        }
    }
}

} // verus!
