//! The values a payment URI is made of.
use vstd::prelude::*;
use crate::address::{address_parses, address_valid_for, is_valid_for_network, Address, Network};
use crate::error::URIError;
use crate::text::{join_spec, join_with_ampersand, starts_with};

verus! {

/// A payment parameter written back as query text.
pub trait Value {
    spec fn spec_value(&self) -> Seq<char>;

    fn get_value(&self) -> (r: String)
        ensures
            r@ == self.spec_value(),
    ;
}

/// How an on-chain address is encoded.
#[derive(Debug, Clone, Copy, PartialEq, Eq, Structural)]
pub enum AddressEncoding {
    Base58,
    Bech32m,
    Bech32,
}

/// An on-chain address together with its encoding.
#[derive(Debug, Clone, PartialEq)]
pub enum BitcoinAddress {
    Base58(Address),
    Bech32m(Address),
    Bech32(Address),
}

impl View for BitcoinAddress {
    type V = (AddressEncoding, Seq<char>);

    open spec fn view(&self) -> (AddressEncoding, Seq<char>) {
        match self {
            BitcoinAddress::Base58(a) => (AddressEncoding::Base58, a@),
            BitcoinAddress::Bech32m(a) => (AddressEncoding::Bech32m, a@),
            BitcoinAddress::Bech32(a) => (AddressEncoding::Bech32, a@),
        }
    }
}

impl BitcoinAddress {
    /// The address, whatever its encoding.
    pub fn inner(&self) -> (r: &Address)
        ensures
            r@ == self@.1,
    {
        match self {
            BitcoinAddress::Base58(address) => address,
            BitcoinAddress::Bech32(address) => address,
            BitcoinAddress::Bech32m(address) => address,
        }
    }

    /// A copy of the address.
    pub(crate) fn duplicate(&self) -> (r: BitcoinAddress)
        ensures
            r@ == self@,
    {
        match self {
            BitcoinAddress::Base58(a) => BitcoinAddress::Base58(a.duplicate()),
            BitcoinAddress::Bech32m(a) => BitcoinAddress::Bech32m(a.duplicate()),
            BitcoinAddress::Bech32(a) => BitcoinAddress::Bech32(a.duplicate()),
        }
    }
}

/// An amount in satoshis.
#[derive(Debug, Clone, Copy, PartialEq, Eq, Structural)]
pub struct Amount(pub u64);

/// The proof-of-payment callback of a URI.
#[derive(Debug, Clone, PartialEq)]
pub enum PopParam {
    Empty,
    Optional(String),
    Required(String),
}

/// The mathematical value of a [`PopParam`].
pub ghost enum PopModel {
    Empty,
    Optional(Seq<char>),
    Required(Seq<char>),
}

impl View for PopParam {
    type V = PopModel;

    open spec fn view(&self) -> PopModel {
        match self {
            PopParam::Empty => PopModel::Empty,
            PopParam::Optional(s) => PopModel::Optional(s@),
            PopParam::Required(s) => PopModel::Required(s@),
        }
    }
}

/// The callback text of a pop parameter; empty for `Empty`.
pub open spec fn pop_value(p: PopModel) -> Seq<char> {
    match p {
        PopModel::Empty => Seq::empty(),
        PopModel::Optional(s) => s,
        PopModel::Required(s) => s,
    }
}

impl PopParam {
    pub fn is_empty(&self) -> (r: bool)
        ensures
            r == (self@ is Empty),
    {
        match self {
            PopParam::Empty => true,
            _ => false,
        }
    }
}

impl Value for PopParam {
    open spec fn spec_value(&self) -> Seq<char> {
        pop_value(self@)
    }

    fn get_value(&self) -> (r: String) {
        match self {
            PopParam::Required(s) => s.clone(),
            PopParam::Optional(s) => s.clone(),
            PopParam::Empty => String::new(),
        }
    }
}

/// One way to pay that a URI offers.
#[derive(Debug, Clone, PartialEq)]
pub enum PaymentInstruction {
    Empty,
    Onchain(BitcoinAddress),
    Lightning(String),
    Bolt12(String),
    SilentPayment(String),
    Segwit(Vec<BitcoinAddress>),
    Unknown(String, String),
}

/// The mathematical value of a [`PaymentInstruction`].
pub ghost enum InstructionModel {
    Empty,
    Onchain((AddressEncoding, Seq<char>)),
    Lightning(Seq<char>),
    Bolt12(Seq<char>),
    SilentPayment(Seq<char>),
    Segwit(Seq<(AddressEncoding, Seq<char>)>),
    Unknown(Seq<char>, Seq<char>),
}

/// The views of a list of addresses.
pub open spec fn addresses_view(v: Seq<BitcoinAddress>) -> Seq<(AddressEncoding, Seq<char>)> {
    v.map_values(|a: BitcoinAddress| a@)
}

impl View for PaymentInstruction {
    type V = InstructionModel;

    open spec fn view(&self) -> InstructionModel {
        match self {
            PaymentInstruction::Empty => InstructionModel::Empty,
            PaymentInstruction::Onchain(a) => InstructionModel::Onchain(a@),
            PaymentInstruction::Lightning(s) => InstructionModel::Lightning(s@),
            PaymentInstruction::Bolt12(s) => InstructionModel::Bolt12(s@),
            PaymentInstruction::SilentPayment(s) => InstructionModel::SilentPayment(s@),
            PaymentInstruction::Segwit(v) => InstructionModel::Segwit(addresses_view(v@)),
            PaymentInstruction::Unknown(k, v) => InstructionModel::Unknown(k@, v@),
        }
    }
}

/// The key a segwit address is written under: `tb` for a testnet address
/// (one that begins with `tb`), `bc` otherwise.
pub open spec fn segwit_key(a: (AddressEncoding, Seq<char>)) -> Seq<char> {
    if crate::parser::has_prefix(a.1, "tb"@) {
        "tb"@
    } else {
        "bc"@
    }
}

/// The query text of a segwit address: its key, `=` and the address.
pub open spec fn segwit_piece(a: (AddressEncoding, Seq<char>)) -> Seq<char> {
    segwit_key(a) + "="@ + a.1
}

/// The query text of an instruction.
pub open spec fn instruction_value(m: InstructionModel) -> Seq<char> {
    match m {
        InstructionModel::Empty => Seq::empty(),
        InstructionModel::Onchain(a) => a.1,
        InstructionModel::Lightning(s) => "lightning="@ + s,
        InstructionModel::Bolt12(s) => "lno="@ + s,
        InstructionModel::SilentPayment(s) => "sp="@ + s,
        InstructionModel::Segwit(v) => join_spec(v.map_values(|a| segwit_piece(a)), "&"@),
        InstructionModel::Unknown(k, v) => k + "="@ + v,
    }
}

/// `prefix` followed by `s`, as a new string.
fn prefixed(prefix: &str, s: &str) -> (r: String)
    ensures
        r@ == prefix@ + s@,
{
    let mut r = prefix.to_owned();
    r.append(s);
    r
}

impl Value for PaymentInstruction {
    open spec fn spec_value(&self) -> Seq<char> {
        instruction_value(self@)
    }

    fn get_value(&self) -> (r: String) {
        match self {
            PaymentInstruction::Bolt12(s) => {
                proof {
                    reveal_strlit("lno=");
                }
                prefixed("lno=", s.as_str())
            },
            PaymentInstruction::Lightning(s) => {
                proof {
                    reveal_strlit("lightning=");
                }
                prefixed("lightning=", s.as_str())
            },
            PaymentInstruction::Onchain(a) => a.inner().to_string(),
            PaymentInstruction::Segwit(v) => {
                let mut pieces: Vec<String> = Vec::new();
                let mut i: usize = 0;
                while i < v.len()
                    invariant
                        i <= v@.len(),
                        pieces@.len() == i,
                        forall|j: int|
                            0 <= j < i ==> #[trigger] pieces@[j]@ == segwit_piece(v@[j]@),
                    decreases v@.len() - i,
                {
                    proof {
                        reveal_strlit("bc=");
                        reveal_strlit("tb=");
                        reveal_strlit("tb");
                        reveal_strlit("bc");
                        reveal_strlit("=");
                    }
                    let text = v[i].inner().to_string();
                    let key = if starts_with(text.as_str(), "tb") {
                        "tb="
                    } else {
                        "bc="
                    };
                    pieces.push(prefixed(key, text.as_str()));
                    i = i + 1;
                }
                let r = join_with_ampersand(&pieces);
                proof {
                    assert(pieces@.map_values(|p: String| p@) =~= addresses_view(v@).map_values(
                        |a| segwit_piece(a),
                    ));
                }
                r
            },
            PaymentInstruction::SilentPayment(s) => {
                proof {
                    reveal_strlit("sp=");
                }
                prefixed("sp=", s.as_str())
            },
            PaymentInstruction::Unknown(key, value) => {
                proof {
                    reveal_strlit("=");
                }
                let mut r = prefixed(key.as_str(), "=");
                r.append(value.as_str());
                r
            },
            PaymentInstruction::Empty => String::new(),
        }
    }
}

/// Resolves payment instructions for a wallet. Implemented by callers; the
/// library states its results over whatever these functions return.
pub trait PaymentResolver {
    type Output;

    fn supports(instruction: &PaymentInstruction) -> bool;

    fn resolve(instruction: &PaymentInstruction) -> Option<Self::Output>;

    fn network() -> Option<Network>;
}

/// Handles query parameters that the parser does not know. Implemented by
/// callers; the library states its results over whatever these return.
pub trait PaymentInstructionHandler: Default + core::fmt::Debug {
    fn handle(&mut self, key: &str, value: &str) -> Result<(), URIError>;

    fn is_supported(&self, key: &str) -> bool;

    fn is_empty(&self) -> bool;
}

/// A parsed payment URI.
#[derive(Debug, Clone, PartialEq, Default)]
pub struct BitcoinURI<H: PaymentInstructionHandler> {
    pub address: Option<BitcoinAddress>,
    pub amount: Option<Amount>,
    pub label: Option<String>,
    pub message: Option<String>,
    pub pop: Option<PopParam>,
    pub instructions: Vec<PaymentInstruction>,
    pub unknown: Vec<(String, String)>,
    pub extra: Option<H>,
}

/// The views of an optional string.
pub open spec fn opt_string_view(o: Option<String>) -> Option<Seq<char>> {
    match o {
        Some(s) => Some(s@),
        None => None,
    }
}

/// The views of an optional address.
pub open spec fn opt_address_view(o: Option<BitcoinAddress>) -> Option<(AddressEncoding, Seq<char>)> {
    match o {
        Some(a) => Some(a@),
        None => None,
    }
}

/// The views of an optional pop parameter.
pub open spec fn opt_pop_view(o: Option<PopParam>) -> Option<PopModel> {
    match o {
        Some(p) => Some(p@),
        None => None,
    }
}

/// The views of a list of instructions.
pub open spec fn instructions_view(v: Seq<PaymentInstruction>) -> Seq<InstructionModel> {
    v.map_values(|i: PaymentInstruction| i@)
}

/// The views of a list of key/value pairs.
pub open spec fn pairs_view(v: Seq<(String, String)>) -> Seq<(Seq<char>, Seq<char>)> {
    v.map_values(|p: (String, String)| (p.0@, p.1@))
}

/// The mathematical value of a [`BitcoinURI`], without its handler.
pub ghost struct UriModel {
    pub address: Option<(AddressEncoding, Seq<char>)>,
    pub amount: Option<Amount>,
    pub label: Option<Seq<char>>,
    pub message: Option<Seq<char>>,
    pub pop: Option<PopModel>,
    pub instructions: Seq<InstructionModel>,
    pub unknown: Seq<(Seq<char>, Seq<char>)>,
}

impl<H: PaymentInstructionHandler> View for BitcoinURI<H> {
    type V = UriModel;

    open spec fn view(&self) -> UriModel {
        UriModel {
            address: opt_address_view(self.address),
            amount: self.amount,
            label: opt_string_view(self.label),
            message: opt_string_view(self.message),
            pop: opt_pop_view(self.pop),
            instructions: instructions_view(self.instructions@),
            unknown: pairs_view(self.unknown@),
        }
    }
}

/// `address` passes the network check for `network`: there is no network to
/// check, or the address belongs to it.
pub open spec fn on_network_spec(address: (AddressEncoding, Seq<char>), network: Option<Network>) -> bool {
    match network {
        None => true,
        Some(n) => address_parses(address.1) && address_valid_for(address.1, n),
    }
}

/// Whether an on-chain address is kept when resolving for `network`, given
/// what the resolver's `network()` returned.
pub fn on_network(address: &BitcoinAddress, network: Option<Network>) -> (r: bool)
    ensures
        r == on_network_spec(address@, network),
{
    match network {
        None => true,
        Some(n) => is_valid_for_network(address.inner(), n),
    }
}

/// Resolving the first instruction passes `instruction` over: the resolver
/// does not support it, or it is an on-chain address that the network the
/// resolver's `network()` named does not hold.
pub open spec fn passed_over<R: PaymentResolver>(instruction: PaymentInstruction) -> bool {
    ||| call_ensures(R::supports, (&instruction,), false)
    ||| {
        &&& call_ensures(R::supports, (&instruction,), true)
        &&& instruction is Onchain
        &&& exists|n: Network|
            #[trigger] call_ensures(R::network, (), Some(n)) && !on_network_spec(
                instruction->Onchain_0@,
                Some(n),
            )
    }
}

/// `instruction` is one the resolver takes: it supports it, and an on-chain
/// address passes the check against what `network()` returned.
pub open spec fn taken<R: PaymentResolver>(instruction: PaymentInstruction) -> bool {
    &&& call_ensures(R::supports, (&instruction,), true)
    &&& instruction is Onchain ==> exists|net: Option<Network>|
        #[trigger] call_ensures(R::network, (), net) && on_network_spec(instruction->Onchain_0@, net)
}

/// `k` is the first instruction the resolver takes (or the end of the list),
/// every one before it was passed over, and `r` is what resolving gave: the
/// resolver's `resolve` of it, or nothing at the end.
pub open spec fn resolved_first<R: PaymentResolver>(
    instructions: Seq<PaymentInstruction>,
    k: int,
    r: Option<R::Output>,
) -> bool {
    &&& 0 <= k <= instructions.len()
    &&& forall|j: int| 0 <= j < k ==> passed_over::<R>(#[trigger] instructions[j])
    &&& k == instructions.len() ==> r is None
    &&& k < instructions.len() ==> {
        &&& taken::<R>(instructions[k])
        &&& call_ensures(R::resolve, (&instructions[k],), r)
    }
}

/// What resolving did with one instruction.
pub ghost enum ResolveStep<T> {
    /// `supports` returned false.
    Unsupported,
    /// An on-chain address that `network()` put on another network.
    Skipped(Network),
    /// Resolved: with the answer of `network()` where it was asked (for an
    /// on-chain address), and the result of `resolve`.
    Resolved(Option<Option<Network>>, Option<T>),
}

/// `step` is what `resolve_instructions` may do with `instruction`, given the
/// resolver's answers.
pub open spec fn resolve_step_ok<R: PaymentResolver>(
    instruction: PaymentInstruction,
    step: ResolveStep<R::Output>,
) -> bool {
    match step {
        ResolveStep::Unsupported => call_ensures(R::supports, (&instruction,), false),
        ResolveStep::Skipped(n) => {
            &&& call_ensures(R::supports, (&instruction,), true)
            &&& instruction is Onchain
            &&& call_ensures(R::network, (), Some(n))
            &&& !on_network_spec(instruction->Onchain_0@, Some(n))
        },
        ResolveStep::Resolved(asked, out) => {
            &&& call_ensures(R::supports, (&instruction,), true)
            &&& (asked is Some <==> instruction is Onchain)
            &&& asked matches Some(net) ==> {
                &&& call_ensures(R::network, (), net)
                &&& on_network_spec(instruction->Onchain_0@, net)
            }
            &&& call_ensures(R::resolve, (&instruction,), out)
        },
    }
}

/// The results of the resolved instructions, in order.
pub open spec fn resolved_outputs<T>(trace: Seq<ResolveStep<T>>) -> Seq<T>
    decreases trace.len(),
{
    if trace.len() == 0 {
        Seq::empty()
    } else {
        match trace.last() {
            ResolveStep::Resolved(_, Some(x)) => resolved_outputs(trace.drop_last()).push(x),
            _ => resolved_outputs(trace.drop_last()),
        }
    }
}

impl<H: PaymentInstructionHandler> BitcoinURI<H> {
    /// The first instruction that the resolver supports, resolved; `None`
    /// where it supports none. Where the resolver names a network, an
    /// on-chain address that does not belong to it is passed over.
    pub fn resolve_instruction<T, R: PaymentResolver<Output = T>>(&self) -> (r: Option<T>)
        ensures
            exists|k: int| resolved_first::<R>(self.instructions@, k, r),
    {
        let mut i: usize = 0;
        while i < self.instructions.len()
            invariant
                i <= self.instructions@.len(),
                forall|j: int| 0 <= j < i ==> passed_over::<R>(#[trigger] self.instructions@[j]),
            decreases self.instructions@.len() - i,
        {
            let instruction = &self.instructions[i];
            if R::supports(instruction) {
                let mut skip = false;
                if let PaymentInstruction::Onchain(addr) = instruction {
                    let network = R::network();
                    if !on_network(addr, network) {
                        skip = true;
                        proof {
                            let n = network->0;
                            assert(call_ensures(R::network, (), Some(n)));
                            assert(passed_over::<R>(*instruction));
                        }
                    } else {
                        proof {
                            assert(call_ensures(R::network, (), network));
                            assert(taken::<R>(*instruction));
                        }
                    }
                }
                if !skip {
                    let r = R::resolve(instruction);
                    proof {
                        assert(resolved_first::<R>(self.instructions@, i as int, r));
                    }
                    return r;
                }
            }
            i = i + 1;
        }
        proof {
            assert(resolved_first::<R>(self.instructions@, i as int, None));
        }
        None
    }

    /// Resolves every instruction the resolver supports, in order, and keeps
    /// the results it gives. Where the resolver names a network, an on-chain
    /// address that does not belong to it is skipped.
    pub fn resolve_instructions<T, R: PaymentResolver<Output = T>>(&self) -> (r: Vec<T>)
        ensures
            exists|trace: Seq<ResolveStep<T>>|
                {
                    &&& trace.len() == self.instructions@.len()
                    &&& forall|j: int|
                        0 <= j < trace.len() ==> resolve_step_ok::<R>(
                            self.instructions@[j],
                            #[trigger] trace[j],
                        )
                    &&& r@ == resolved_outputs(trace)
                },
    {
        let mut results: Vec<T> = Vec::new();
        let ghost mut trace: Seq<ResolveStep<T>> = Seq::empty();
        let mut i: usize = 0;
        while i < self.instructions.len()
            invariant
                i <= self.instructions@.len(),
                trace.len() == i,
                forall|j: int|
                    0 <= j < i ==> resolve_step_ok::<R>(self.instructions@[j], #[trigger] trace[j]),
                results@ == resolved_outputs(trace),
            decreases self.instructions@.len() - i,
        {
            let instruction = &self.instructions[i];
            let ghost before = trace;
            if R::supports(instruction) {
                let ghost mut asked: Option<Option<Network>> = None;
                let mut skip = false;
                if let PaymentInstruction::Onchain(addr) = instruction {
                    let network = R::network();
                    proof {
                        asked = Some(network);
                    }
                    if !on_network(addr, network) {
                        skip = true;
                        proof {
                            trace = trace.push(ResolveStep::Skipped(network->0));
                        }
                    }
                }
                if !skip {
                    let resolved = R::resolve(instruction);
                    proof {
                        trace = trace.push(ResolveStep::Resolved(asked, resolved));
                    }
                    match resolved {
                        Some(result) => {
                            results.push(result);
                        },
                        None => {},
                    }
                }
            } else {
                proof {
                    trace = trace.push(ResolveStep::Unsupported);
                }
            }
            proof {
                assert(trace.drop_last() =~= before);
                assert forall|j: int| 0 <= j < i + 1 implies resolve_step_ok::<R>(
                    self.instructions@[j],
                    #[trigger] trace[j],
                ) by {
                    if j < i {
                        assert(trace[j] == before[j]);
                    }
                }
            }
            i = i + 1;
        }
        results
    }
}

/// The handler that supports no parameter.
#[derive(Default, Clone, Debug)]
pub struct NoopHandler;

impl PaymentInstructionHandler for NoopHandler {
    fn handle(&mut self, _key: &str, _value: &str) -> (r: Result<(), URIError>)
        ensures
            r is Ok,
    {
        Ok(())
    }

    fn is_empty(&self) -> (r: bool)
        ensures
            r,
    {
        true
    }

    fn is_supported(&self, _key: &str) -> (r: bool)
        ensures
            !r,
    {
        false
    }
}

} // verus!
