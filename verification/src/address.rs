//! Bitcoin addresses, parsed and checked by the `bitcoin` crate.
use vstd::prelude::*;
use bitcoin::address::NetworkUnchecked;
use bitcoin::AddressType as BtcType;

verus! {

/// The network a payment is meant for (`bitcoin::Network`).
#[derive(Debug, Clone, Copy, PartialEq, Eq, Structural)]
pub enum Network {
    Bitcoin,
    Testnet,
    Testnet4,
    Signet,
    Regtest,
}

/// The kind of output script an address pays to (`bitcoin::AddressType`).
#[derive(Debug, Clone, Copy, PartialEq, Eq, Structural)]
pub enum AddressType {
    P2pkh,
    P2sh,
    P2wpkh,
    P2wsh,
    P2tr,
    P2a,
}

/// A parsed address whose network has not been checked, held as the text
/// that the `bitcoin` crate displays for it.
#[derive(Debug, Clone, PartialEq)]
pub struct Address {
    text: String,
}

impl View for Address {
    type V = Seq<char>;

    closed spec fn view(&self) -> Seq<char> {
        self.text@
    }
}

impl Address {
    /// The address as text (its canonical display form).
    pub fn to_string(&self) -> (r: String)
        ensures
            r@ == self@,
    {
        self.text.clone()
    }

    /// A copy of the address.
    pub(crate) fn duplicate(&self) -> (r: Address)
        ensures
            r@ == self@,
    {
        Address { text: self.text.clone() }
    }
}

/// Whether `bitcoin::Address<NetworkUnchecked>::from_str` accepts the text.
pub uninterp spec fn address_parses(text: Seq<char>) -> bool;

/// `address_type()` of the address that `from_str` parses from the text.
pub uninterp spec fn address_type_of(text: Seq<char>) -> Option<AddressType>;

/// The `Display` text of the address that `from_str` parses from the text.
pub uninterp spec fn address_display(text: Seq<char>) -> Seq<char>;

/// `Address::is_valid_for_network` on the address that `from_str` parses from
/// the text.
pub uninterp spec fn address_valid_for(text: Seq<char>, network: Network) -> bool;

/// Parses `text` with `bitcoin::Address<NetworkUnchecked>::from_str`; where
/// it succeeds, gives `address_type()` and the `Display` text of
/// `assume_checked()`. What these are on a given text is left to the names
/// above: the crate's base58check and bech32 decoding is not restated. The
/// `Display` text parses back to the same address (the crate's own
/// `roundtrips` test checks `from_str(&addr.to_string())` for every kind of
/// address), so it has the same type and displays as itself.
#[verifier::external_body]
pub(crate) fn parse_address(text: &str) -> (r: Option<(Option<AddressType>, Address)>)
    ensures
        r is Some <==> address_parses(text@),
        r matches Some(p) ==> p.0 == address_type_of(text@) && p.1@ == address_display(text@),
        r matches Some(p) ==> address_parses(p.1@) && address_type_of(p.1@) == p.0
            && address_display(p.1@) == p.1@,
{
    let parsed = text.parse::<bitcoin::Address<NetworkUnchecked>>();
    let checked = match parsed { Ok(a) => a.assume_checked(), Err(_) => return None };
    let kind = match checked.address_type() {
        Some(BtcType::P2pkh) => Some(AddressType::P2pkh),
        Some(BtcType::P2sh) => Some(AddressType::P2sh),
        Some(BtcType::P2wpkh) => Some(AddressType::P2wpkh),
        Some(BtcType::P2wsh) => Some(AddressType::P2wsh),
        Some(BtcType::P2tr) => Some(AddressType::P2tr),
        Some(BtcType::P2a) => Some(AddressType::P2a),
        _ => None,
    };
    Some((kind, Address { text: checked.to_string() }))
}

/// `Address::is_valid_for_network` (the test behind `require_network`) on the
/// address parsed from `address`'s text; `false` where that text does not
/// parse. Which networks an address belongs to is left to the name above.
#[verifier::external_body]
pub(crate) fn is_valid_for_network(address: &Address, network: Network) -> (r: bool)
    ensures
        r == (address_parses(address@) && address_valid_for(address@, network)),
{
    let net = match network {
        Network::Bitcoin => bitcoin::Network::Bitcoin,
        Network::Testnet => bitcoin::Network::Testnet,
        Network::Testnet4 => bitcoin::Network::Testnet4,
        Network::Signet => bitcoin::Network::Signet,
        Network::Regtest => bitcoin::Network::Regtest,
    };
    match address.text.parse::<bitcoin::Address<NetworkUnchecked>>() {
        Ok(a) => a.is_valid_for_network(net),
        Err(_) => false,
    }
}

} // verus!
