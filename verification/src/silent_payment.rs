//! Silent-payment (BIP-352) addresses.
use vstd::prelude::*;
use bech32::primitives::decode::CheckedHrpstring;
use bech32::Bech32m;
use crate::error::{ErrorModel, URIError};
use crate::text::str_eq;

verus! {

/// The network a silent-payment address was read as.
#[derive(Debug, Clone, Copy, PartialEq, Eq, Structural)]
pub enum Network {
    Empty,
    Mainnet,
    Testnet,
}

/// The human-readable part that `CheckedHrpstring::new::<Bech32m>` finds in a
/// text, as its `Display` writes it; `None` where the text is not a valid
/// bech32m string.
pub uninterp spec fn bech32m_hrp(s: Seq<char>) -> Option<Seq<char>>;

/// `bech32::primitives::decode::CheckedHrpstring::new::<Bech32m>` followed by
/// `hrp().to_string()`. The bech32m checksum and character rules are left to
/// the name above.
#[verifier::external_body]
fn checked_bech32m_hrp(s: &str) -> (r: Option<String>)
    ensures
        match bech32m_hrp(s@) {
            Some(h) => r matches Some(x) && x@ == h,
            None => r is None,
        },
{
    match CheckedHrpstring::new::<Bech32m>(s) {
        Ok(checked) => Some(checked.hrp().to_string()),
        Err(_) => None,
    }
}

/// The network named by a human-readable part, as BIP-352 assigns them:
/// `sp` is mainnet and `tsp` testnet; any other part names no network.
pub open spec fn hrp_network(hrp: Seq<char>) -> Network {
    if hrp == "sp"@ {
        Network::Mainnet
    } else if hrp == "tsp"@ {
        Network::Testnet
    } else {
        Network::Empty
    }
}

/// Checks that `addr` is a bech32m string and gives the network its
/// human-readable part names, with the address; refuses it otherwise.
pub fn validate_address(addr: String) -> (r: Result<(Network, String), URIError>)
    ensures
        match bech32m_hrp(addr@) {
            Some(h) => r matches Ok(p) && p.0 == hrp_network(h) && p.1@ == addr@,
            None => r matches Err(e) && e@ == ErrorModel::SilentPaymentError(addr@),
        },
{
    let hrp = match checked_bech32m_hrp(addr.as_str()) {
        Some(h) => h,
        None => return Err(URIError::SilentPaymentError(addr.clone())),
    };
    let network = if str_eq(hrp.as_str(), "sp") {
        Network::Mainnet
    } else if str_eq(hrp.as_str(), "tsp") {
        Network::Testnet
    } else {
        Network::Empty
    };
    Ok((network, addr))
}

} // verus!
