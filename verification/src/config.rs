//! Settings that follow from the chain and network the index runs on.
use vstd::prelude::*;

use crate::token_tick::{lowercase, to_lowercase};

verus! {

/// The networks of the chain.
#[derive(Clone, Copy, Debug, PartialEq, Eq)]
pub enum Network {
    Bellscoin,
    Testnet,
    Signet,
    Regtest,
}

/// Why the settings are refused.
#[derive(Clone, Copy, Debug, PartialEq, Eq)]
pub enum ConfigError {
    /// The network's name is none that the chain knows.
    UnknownNetwork,
}

/// The network a name stands for: "mainnet", "testnet", "signet" or "regtest".
pub open spec fn network_named(name: Seq<char>) -> Option<Network> {
    if name == "mainnet"@ {
        Some(Network::Bellscoin)
    } else if name == "testnet"@ {
        Some(Network::Testnet)
    } else if name == "signet"@ {
        Some(Network::Signet)
    } else if name == "regtest"@ {
        Some(Network::Regtest)
    } else {
        None
    }
}

/// Calls `<bellscoin::Network as FromStr>::from_str`. Claimed (its source matches on the four
/// names): "mainnet" gives the main network, "testnet", "signet" and "regtest" theirs, and
/// every other text an error.
#[verifier::external_body]
fn network_from_str(s: &str) -> (r: Option<Network>)
    ensures
        r == network_named(s@),
{
    match <bellscoin::Network as core::str::FromStr>::from_str(s) {
        Ok(bellscoin::Network::Bellscoin) => Some(Network::Bellscoin),
        Ok(bellscoin::Network::Testnet) => Some(Network::Testnet),
        Ok(bellscoin::Network::Signet) => Some(Network::Signet),
        Ok(bellscoin::Network::Regtest) => Some(Network::Regtest),
        _ => None,
    }
}

/// Whether two strings have the same characters.
pub fn str_eq(a: &str, b: &str) -> (r: bool)
    ensures
        r == (a@ == b@),
{
    let x = a.as_bytes();
    let y = b.as_bytes();
    proof {
        vstd::utf8::encode_utf8_decode_utf8(a@);
        vstd::utf8::encode_utf8_decode_utf8(b@);
    }
    if x.len() != y.len() {
        return false;
    }
    let mut i: usize = 0;
    while i < x.len()
        invariant
            i <= x@.len(),
            x@.len() == y@.len(),
            x@ == vstd::utf8::encode_utf8(a@),
            y@ == vstd::utf8::encode_utf8(b@),
            forall|j: int| 0 <= j < i ==> x@[j] == y@[j],
        decreases x@.len() - i,
    {
        if x[i] != y[i] {
            return false;
        }
        i = i + 1;
    }
    assert(x@ =~= y@);
    true
}

/// The network set by the optional setting `value`: the main network when unset, else the
/// network of that name; a name of no network is refused.
pub fn parse_network(value: Option<&str>) -> (r: Result<Network, ConfigError>)
    ensures
        r == (match value {
            None => Ok(Network::Bellscoin),
            Some(s) => match network_named(s@) {
                Some(n) => Ok(n),
                None => Err(ConfigError::UnknownNetwork),
            },
        }),
{
    match value {
        None => Ok(Network::Bellscoin),
        Some(s) => match network_from_str(s) {
            Some(n) => Ok(n),
            None => Err(ConfigError::UnknownNetwork),
        },
    }
}

/// The chain's name as the settings compare it: in lower case.
pub fn normalize_blockchain(raw: &str) -> (r: String)
    ensures
        r@ == lowercase(raw@),
{
    to_lowercase(raw)
}

/// Height from which inscriptions spread over several inputs are scanned: 133000 on the
/// Bellscoin main network, never on "doge", from the start elsewhere.
pub fn jubilee_height(network: Network, blockchain: &str) -> (r: usize)
    ensures
        r == (if network == Network::Bellscoin && blockchain@ == "bells"@ {
            133_000usize
        } else if blockchain@ == "doge"@ {
            usize::MAX
        } else {
            0usize
        }),
{
    let is_bells = str_eq(blockchain, "bells");
    let is_doge = str_eq(blockchain, "doge");
    match network {
        Network::Bellscoin if is_bells => 133_000,
        _ if is_doge => usize::MAX,
        _ => 0,
    }
}

/// Height of the first block that holds tokens.
pub fn start_height(network: Network, blockchain: &str) -> (r: u32)
    ensures
        r == (if network == Network::Bellscoin && blockchain@ == "bells"@ {
            26_371u32
        } else if network == Network::Bellscoin && blockchain@ == "doge"@ {
            4_609_001u32
        } else if network == Network::Testnet && blockchain@ == "doge"@ {
            4_260_001u32
        } else {
            0u32
        }),
{
    let is_bells = str_eq(blockchain, "bells");
    let is_doge = str_eq(blockchain, "doge");
    match network {
        Network::Bellscoin if is_bells => 26_371,
        Network::Bellscoin if is_doge => 4_609_001,
        Network::Testnet if is_doge => 4_260_001,
        _ => 0,
    }
}

/// The coin whose block files and node the indexer reads.
pub fn coin_name(blockchain: &str, network: Network) -> (r: String)
    ensures
        r@ == (if blockchain@ == "bells"@ && network == Network::Bellscoin {
            "bellscoin"@
        } else if blockchain@ == "bells"@ && network == Network::Testnet {
            "bellscoin-testnet"@
        } else if blockchain@ == "doge"@ && network == Network::Bellscoin {
            "dogecoin"@
        } else if blockchain@ == "doge"@ && network == Network::Testnet {
            "dogecoin-testnet"@
        } else {
            "bellscoin"@
        }),
{
    let is_bells = str_eq(blockchain, "bells");
    let is_doge = str_eq(blockchain, "doge");
    let name = match network {
        Network::Bellscoin if is_bells => "bellscoin",
        Network::Testnet if is_bells => "bellscoin-testnet",
        Network::Bellscoin if is_doge => "dogecoin",
        Network::Testnet if is_doge => "dogecoin-testnet",
        _ => "bellscoin",
    };
    name.to_owned()
}

} // verus!
