//! Client-wide values: the cluster a client talks to, the RPC endpoint of
//! each cluster, and the shared health status that every pipeline stage
//! reads and writes.

use vstd::prelude::*;

verus! {

/// The ledger cluster a client is pointed at.
#[derive(Clone, Debug)]
pub enum Cluster {
    Mainnet,
    Devnet,
    Localnet,
    Custom(String),
}

/// The RPC endpoint of a cluster.
pub fn endpoint(cluster: Cluster) -> (r: String)
    ensures
        match cluster {
            Cluster::Mainnet => r@ == "https://api.mainnet-beta.solana.com"@,
            Cluster::Devnet => r@ == "https://api.devnet.solana.com"@,
            Cluster::Localnet => r@ == "http://0.0.0.0:8899"@,
            Cluster::Custom(url) => r@ == url@,
        },
{
    match cluster {
        Cluster::Mainnet => String::from_str("https://api.mainnet-beta.solana.com"),
        Cluster::Devnet => String::from_str("https://api.devnet.solana.com"),
        Cluster::Localnet => String::from_str("http://0.0.0.0:8899"),
        Cluster::Custom(url) => url,
    }
}

/// The health of the pipeline, as reported to an outside observer.  Each
/// variant carries a human-readable detail string.
#[derive(Clone, Debug)]
pub enum ClientStatus {
    Initializing(String),
    SearchingForRPCService(String),
    Active(String),
    Crashed(String),
    ShuttingDown(String),
}

/// Holds exactly when two status values are the same variant with the same
/// detail string.
pub open spec fn status_eq(a: ClientStatus, b: ClientStatus) -> bool {
    match (a, b) {
        (ClientStatus::Initializing(x), ClientStatus::Initializing(y)) => x@ == y@,
        (ClientStatus::SearchingForRPCService(x), ClientStatus::SearchingForRPCService(y)) => x@
            == y@,
        (ClientStatus::Active(x), ClientStatus::Active(y)) => x@ == y@,
        (ClientStatus::Crashed(x), ClientStatus::Crashed(y)) => x@ == y@,
        (ClientStatus::ShuttingDown(x), ClientStatus::ShuttingDown(y)) => x@ == y@,
        _ => false,
    }
}

/// The status a sampling cycle asserts when it starts: a crash that an
/// earlier stage reported stays visible, any other state is replaced by an
/// `Active` report.  A later cycle that runs after the crash is cleared may
/// assert `Active` again through the same rule.
pub fn advance_for_sampling(status: &mut ClientStatus)
    ensures
        match *old(status) {
            ClientStatus::Crashed(_) => status_eq(*final(status), *old(status)),
            _ => (*final(status)) matches ClientStatus::Active(m) && m@
                == "Monitoring Tinydancer: Actively Sampling Shreds"@,
        },
{
    let crashed = match status {
        ClientStatus::Crashed(_) => true,
        _ => false,
    };
    if !crashed {
        *status = ClientStatus::Active(
            String::from_str("Monitoring Tinydancer: Actively Sampling Shreds"),
        );
    }
}

/// The status the slot monitor records when its subscription cannot be
/// established; the failure is terminal for the monitor.
pub fn crashed_on_connect() -> (r: ClientStatus)
    ensures
        r matches ClientStatus::Crashed(m) && m@ == "Client can't connect to socket"@,
{
    ClientStatus::Crashed(String::from_str("Client can't connect to socket"))
}

} // verus!
