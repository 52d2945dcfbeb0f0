//! Parsing of `bitcoin:` payment URIs.
use vstd::prelude::*;
use crate::address::{
    address_display, address_parses, address_type_of, parse_address, AddressType,
};
use crate::error::{ErrorModel, URIError};
use crate::percent::{url_decode, url_decode_spec};
use crate::pop::{check_pop_scheme, is_forbidden_scheme, pop_scheme_check_spec};
use crate::text::{
    after_first, before_first, lowercase_spec, split_on, split_once, split_spec, starts_with,
    str_eq, strings_view, to_lowercase,
};
use crate::types::{
    addresses_view, instructions_view, opt_pop_view, opt_string_view, pairs_view,
    AddressEncoding, Amount, BitcoinAddress, BitcoinURI, InstructionModel, PaymentInstruction,
    PaymentInstructionHandler, PopModel, PopParam, UriModel,
};

verus! {

// ---------------------------------------------------------------------------
// The mathematical model of parsing
// ---------------------------------------------------------------------------

/// The text after `bitcoin:`, where the scheme (the text before the first
/// `:`, or all of the input) is `bitcoin` in lower case.
pub open spec fn scheme_rest_spec(input: Seq<char>) -> Option<Seq<char>> {
    if lowercase_spec(before_first(input, ':')) == "bitcoin"@ {
        Some(after_first(input, ':'))
    } else {
        None
    }
}

/// One `key=value` piece of the query, both sides lower-cased; a piece
/// without `=` is a key with an empty value.
pub open spec fn query_pair_spec(piece: Seq<char>) -> (Seq<char>, Seq<char>) {
    (lowercase_spec(before_first(piece, '=')), lowercase_spec(after_first(piece, '=')))
}

/// The query split at every `&` into lower-cased key/value pairs.
pub open spec fn query_pairs_spec(query: Seq<char>) -> Seq<(Seq<char>, Seq<char>)> {
    split_spec(query, '&').map_values(|p: Seq<char>| query_pair_spec(p))
}

/// The address that `validate_address` gives for a text: the `bitcoin`
/// crate's reading of it, classified by its type.
pub open spec fn validate_address_spec(text: Seq<char>) -> Result<
    (AddressEncoding, Seq<char>),
    ErrorModel,
> {
    if !address_parses(text) {
        Err(ErrorModel::InvalidAddress)
    } else {
        match address_type_of(text) {
            Some(AddressType::P2pkh) | Some(AddressType::P2sh) => Ok(
                (AddressEncoding::Base58, address_display(text)),
            ),
            Some(AddressType::P2wpkh) | Some(AddressType::P2wsh) => Ok(
                (AddressEncoding::Bech32, address_display(text)),
            ),
            Some(AddressType::P2a) | Some(AddressType::P2tr) => Ok(
                (AddressEncoding::Bech32m, address_display(text)),
            ),
            None => Err(ErrorModel::InvalidAddress),
        }
    }
}

/// What the handler answered for one parameter that the parser does not know.
pub ghost enum HandlerAnswer {
    /// `is_supported` returned false.
    Unsupported,
    /// `is_supported` returned true and `handle` returned this error, or `Ok`.
    Handled(Option<ErrorModel>),
}

/// The next answer; where none is left, the parameter is taken as handled.
pub open spec fn first_answer(answers: Seq<HandlerAnswer>) -> HandlerAnswer {
    if answers.len() > 0 {
        answers[0]
    } else {
        HandlerAnswer::Handled(None)
    }
}

/// The answers after the next one.
pub open spec fn rest_answers(answers: Seq<HandlerAnswer>) -> Seq<HandlerAnswer> {
    if answers.len() > 0 {
        answers.drop_first()
    } else {
        answers
    }
}

/// What parsing has gathered from the parameters read so far.
pub ghost struct ParamsModel {
    pub amount: Option<Amount>,
    /// How many `amount` parameters have been read.
    pub amounts_seen: nat,
    pub label: Option<Seq<char>>,
    pub message: Option<Seq<char>>,
    pub pop: Option<PopModel>,
    pub instructions: Seq<InstructionModel>,
    pub segwit: Seq<(AddressEncoding, Seq<char>)>,
    pub unknown: Seq<(Seq<char>, Seq<char>)>,
}

/// Keys that the parser handles itself.
pub open spec fn is_known_key(key: Seq<char>) -> bool {
    ||| key == "amount"@
    ||| key == "label"@
    ||| key == "message"@
    ||| key == "pop"@
    ||| key == "req-pop"@
    ||| key == "lightning"@
    ||| key == "lno"@
    ||| key == "sp"@
    ||| key == "bc"@
    ||| key == "tb"@
}

/// Does `s` begin with `prefix`?
pub open spec fn has_prefix(s: Seq<char>, prefix: Seq<char>) -> bool {
    prefix.len() <= s.len() && s.take(prefix.len() as int) == prefix
}

/// The amount given for the `k`-th `amount` parameter, or none.
pub open spec fn amount_at(amounts: Seq<Option<Amount>>, k: nat) -> Option<Amount> {
    if k < amounts.len() {
        amounts[k as int]
    } else {
        None
    }
}

/// Reading one parameter with a known key: the new state, the error that
/// stops parsing, or `None` where the value does not percent-decode (where
/// the parser cannot go on).
pub open spec fn known_step_spec(
    st: ParamsModel,
    key: Seq<char>,
    value: Seq<char>,
    amounts: Seq<Option<Amount>>,
) -> Option<Result<ParamsModel, ErrorModel>> {
    if key == "amount"@ {
        if st.amount is Some {
            Some(Err(ErrorModel::DuplicateParam("amount"@)))
        } else {
            Some(
                Ok(
                    ParamsModel {
                        amount: amount_at(amounts, st.amounts_seen),
                        amounts_seen: st.amounts_seen + 1,
                        ..st
                    },
                ),
            )
        }
    } else if key == "label"@ {
        if st.label is Some {
            Some(Err(ErrorModel::DuplicateParam("label"@)))
        } else {
            match url_decode_spec(value) {
                None => None,
                Some(d) => Some(Ok(ParamsModel { label: Some(d), ..st })),
            }
        }
    } else if key == "message"@ {
        if st.message is Some {
            Some(Err(ErrorModel::DuplicateParam("message"@)))
        } else {
            match url_decode_spec(value) {
                None => None,
                Some(d) => Some(Ok(ParamsModel { message: Some(d), ..st })),
            }
        }
    } else if key == "pop"@ {
        if st.pop is Some {
            Some(Err(ErrorModel::DuplicateParam("pop"@)))
        } else {
            Some(Ok(ParamsModel { pop: Some(PopModel::Optional(value)), ..st }))
        }
    } else if key == "req-pop"@ {
        if st.pop is Some {
            Some(Err(ErrorModel::BothPopAndReqPop))
        } else {
            match pop_scheme_check_spec(PopModel::Required(value)) {
                None => None,
                Some(Err(_)) => Some(Err(ErrorModel::RequiredPopNotSupported)),
                Some(Ok(_)) => Some(Ok(ParamsModel { pop: Some(PopModel::Required(value)), ..st })),
            }
        }
    } else if key == "lightning"@ {
        Some(
            Ok(
                ParamsModel {
                    instructions: st.instructions.push(InstructionModel::Lightning(value)),
                    ..st
                },
            ),
        )
    } else if key == "lno"@ {
        Some(
            Ok(
                ParamsModel {
                    instructions: st.instructions.push(InstructionModel::Bolt12(value)),
                    ..st
                },
            ),
        )
    } else if key == "sp"@ {
        Some(
            Ok(
                ParamsModel {
                    instructions: st.instructions.push(InstructionModel::SilentPayment(value)),
                    ..st
                },
            ),
        )
    } else if key == "bc"@ || key == "tb"@ {
        if !has_prefix(value, key) {
            Some(Err(ErrorModel::InvalidAddress))
        } else {
            match validate_address_spec(value) {
                Err(e) => Some(Err(e)),
                Ok(a) => Some(Ok(ParamsModel { segwit: st.segwit.push(a), ..st })),
            }
        }
    } else {
        Some(Ok(st))
    }
}

/// Reading one parameter that the parser does not know, given the handler's
/// answer: a handled parameter is the handler's; an unsupported one is kept
/// in `unknown`, unless its key begins with `req-`.
pub open spec fn unknown_step_spec(
    st: ParamsModel,
    key: Seq<char>,
    value: Seq<char>,
    answer: HandlerAnswer,
) -> Result<ParamsModel, ErrorModel> {
    match answer {
        HandlerAnswer::Handled(Some(e)) => Err(e),
        HandlerAnswer::Handled(None) => Ok(st),
        HandlerAnswer::Unsupported => if has_prefix(key, "req-"@) {
            Err(ErrorModel::UnknownRequiredParam(key))
        } else {
            Ok(ParamsModel { unknown: st.unknown.push((key, value)), ..st })
        },
    }
}

/// Reading the parameters in order, from state `st`, with the handler's
/// answers for the unknown ones. `None` where a value does not decode.
pub open spec fn classify_spec(
    st: ParamsModel,
    pairs: Seq<(Seq<char>, Seq<char>)>,
    amounts: Seq<Option<Amount>>,
    answers: Seq<HandlerAnswer>,
) -> Option<Result<ParamsModel, ErrorModel>>
    decreases pairs.len(),
{
    if pairs.len() == 0 {
        Some(Ok(st))
    } else {
        let key = pairs[0].0;
        let value = pairs[0].1;
        if is_known_key(key) {
            match known_step_spec(st, key, value, amounts) {
                None => None,
                Some(Err(e)) => Some(Err(e)),
                Some(Ok(next)) => classify_spec(next, pairs.drop_first(), amounts, answers),
            }
        } else {
            match unknown_step_spec(st, key, value, first_answer(answers)) {
                Err(e) => Some(Err(e)),
                Ok(next) => classify_spec(next, pairs.drop_first(), amounts, rest_answers(answers)),
            }
        }
    }
}

/// The unknown parameters, in order, that reading the parameters consults
/// the handler about: each up to the first that stops parsing.
pub open spec fn asked_spec(
    st: ParamsModel,
    pairs: Seq<(Seq<char>, Seq<char>)>,
    amounts: Seq<Option<Amount>>,
    answers: Seq<HandlerAnswer>,
) -> Seq<(Seq<char>, Seq<char>)>
    decreases pairs.len(),
{
    if pairs.len() == 0 {
        Seq::empty()
    } else {
        let key = pairs[0].0;
        let value = pairs[0].1;
        if is_known_key(key) {
            match known_step_spec(st, key, value, amounts) {
                Some(Ok(next)) => asked_spec(next, pairs.drop_first(), amounts, answers),
                _ => Seq::empty(),
            }
        } else {
            seq![(key, value)] + match unknown_step_spec(st, key, value, first_answer(answers)) {
                Ok(next) => asked_spec(next, pairs.drop_first(), amounts, rest_answers(answers)),
                Err(_) => Seq::empty(),
            }
        }
    }
}

/// The unknown parameters of an input that parsing consults the handler
/// about, given its answers.
pub open spec fn asked_of(
    input: Seq<char>,
    amounts: Seq<Option<Amount>>,
    answers: Seq<HandlerAnswer>,
) -> Seq<(Seq<char>, Seq<char>)> {
    match prepare_spec(input) {
        Err(_) => Seq::empty(),
        Ok((address, pairs)) => asked_spec(initial_params(address), pairs, amounts, answers),
    }
}

/// The error part of what `handle` returned.
pub open spec fn handled_error(res: Result<(), URIError>) -> Option<ErrorModel> {
    match res {
        Ok(_) => None,
        Err(e) => Some(e@),
    }
}

/// Asking a handler in state `before` about `key=value` gave `answer`:
/// `is_supported(key)` returned false, or it returned true and
/// `handle(key, value)`, called through `m` (which starts at `before`),
/// returned what `answer` says.
pub open spec fn handler_answered<H: PaymentInstructionHandler>(
    before: H,
    m: &mut H,
    key: Seq<char>,
    value: Seq<char>,
    answer: HandlerAnswer,
) -> bool {
    match answer {
        HandlerAnswer::Unsupported => exists|k: &str|
            k@ == key && #[trigger] call_ensures(H::is_supported, (&before, k), false),
        HandlerAnswer::Handled(e) => {
            &&& *m == before
            &&& exists|k: &str, v: &str, res: Result<(), URIError>|
                {
                    &&& k@ == key
                    &&& v@ == value
                    &&& handled_error(res) == e
                    &&& call_ensures(H::is_supported, (&before, k), true)
                    &&& #[trigger] call_ensures(H::handle, (m, k, v), res)
                }
        },
    }
}

/// The handler is kept in `extra` exactly when its `is_empty` returned false.
pub open spec fn extra_fits<H: PaymentInstructionHandler>(extra: Option<H>, handler: H) -> bool {
    exists|b: bool|
        #[trigger] call_ensures(H::is_empty, (&handler,), b) && extra == (if b {
            None
        } else {
            Some(handler)
        })
}

/// The state before any parameter: the address, if any, is the first
/// instruction.
pub open spec fn initial_params(address: Option<(AddressEncoding, Seq<char>)>) -> ParamsModel {
    ParamsModel {
        amount: None,
        amounts_seen: 0,
        label: None,
        message: None,
        pop: None,
        instructions: match address {
            Some(a) => seq![InstructionModel::Onchain(a)],
            None => Seq::empty(),
        },
        segwit: Seq::empty(),
        unknown: Seq::empty(),
    }
}

/// The URI made of the address and the parameters read; the segwit
/// addresses, if any, make the last instruction.
pub open spec fn finish_spec(address: Option<(AddressEncoding, Seq<char>)>, st: ParamsModel) -> UriModel {
    UriModel {
        address: address,
        amount: st.amount,
        label: st.label,
        message: st.message,
        pop: st.pop,
        instructions: if st.segwit.len() > 0 {
            st.instructions.push(InstructionModel::Segwit(st.segwit))
        } else {
            st.instructions
        },
        unknown: st.unknown,
    }
}

/// The address (if the URI has a body) and the query pairs of an input, or
/// the error that the scheme or the address gives.
pub open spec fn prepare_spec(input: Seq<char>) -> Result<
    (Option<(AddressEncoding, Seq<char>)>, Seq<(Seq<char>, Seq<char>)>),
    ErrorModel,
> {
    match scheme_rest_spec(input) {
        None => Err(ErrorModel::InvalidAddress),
        Some(rest) => {
            let body = before_first(rest, '?');
            let pairs = query_pairs_spec(after_first(rest, '?'));
            if body.len() == 0 {
                Ok((None, pairs))
            } else {
                match validate_address_spec(body) {
                    Err(e) => Err(e),
                    Ok(a) => Ok((Some(a), pairs)),
                }
            }
        },
    }
}

/// Parsing an input, with the amounts given for its `amount` parameters and
/// the handler's answers: the URI, the error, or `None` where a value that
/// must be percent-decoded does not decode.
pub open spec fn parse_spec(
    input: Seq<char>,
    amounts: Seq<Option<Amount>>,
    answers: Seq<HandlerAnswer>,
) -> Option<Result<UriModel, ErrorModel>> {
    match prepare_spec(input) {
        Err(e) => Some(Err(e)),
        Ok((address, pairs)) => match classify_spec(
            initial_params(address),
            pairs,
            amounts,
            answers,
        ) {
            None => None,
            Some(Err(e)) => Some(Err(e)),
            Some(Ok(st)) => Some(Ok(finish_spec(address, st))),
        },
    }
}

/// The values of the `amount` parameters, in order.
pub open spec fn amount_texts_spec(pairs: Seq<(Seq<char>, Seq<char>)>) -> Seq<Seq<char>>
    decreases pairs.len(),
{
    if pairs.len() == 0 {
        Seq::empty()
    } else if pairs.last().0 == "amount"@ {
        amount_texts_spec(pairs.drop_last()).push(pairs.last().1)
    } else {
        amount_texts_spec(pairs.drop_last())
    }
}

/// The values of the `amount` parameters of an input; none where its scheme
/// is not `bitcoin`.
pub open spec fn amount_values_spec(input: Seq<char>) -> Seq<Seq<char>> {
    match scheme_rest_spec(input) {
        None => Seq::empty(),
        Some(rest) => amount_texts_spec(query_pairs_spec(after_first(rest, '?'))),
    }
}

/// A parse result as a mathematical value.
pub open spec fn result_view<H: PaymentInstructionHandler>(r: Result<BitcoinURI<H>, URIError>) -> Result<
    UriModel,
    ErrorModel,
> {
    match r {
        Ok(u) => Ok(u@),
        Err(e) => Err(e@),
    }
}

// ---------------------------------------------------------------------------
// Executable parsing
// ---------------------------------------------------------------------------

/// The text after the scheme, which must be `bitcoin` in any case.
fn strip_scheme(input: &str) -> (r: Result<String, URIError>)
    ensures
        match scheme_rest_spec(input@) {
            Some(rest) => r matches Ok(s) && s@ == rest,
            None => r matches Err(e) && e@ == ErrorModel::InvalidAddress,
        },
{
    let (before, after) = match split_once(input, ':') {
        Some(p) => p,
        None => (input.to_owned(), String::new()),
    };
    let lower = to_lowercase(before.as_str());
    if !str_eq(lower.as_str(), "bitcoin") {
        return Err(URIError::InvalidAddress);
    }
    Ok(after)
}

/// The body (the address) and the query, split at the first `?`.
fn split_body_and_query(after: &str) -> (r: (String, String))
    ensures
        r.0@ == before_first(after@, '?'),
        r.1@ == after_first(after@, '?'),
{
    match split_once(after, '?') {
        Some(p) => p,
        None => (after.to_owned(), String::new()),
    }
}

/// The lower-cased key/value pairs of the query.
fn parse_query_pairs(query: &str) -> (r: Vec<(String, String)>)
    ensures
        pairs_view(r@) == query_pairs_spec(query@),
{
    let pieces = split_on(query, '&');
    let ghost views = strings_view(pieces@);
    let mut query_pairs: Vec<(String, String)> = Vec::new();
    let mut i: usize = 0;
    while i < pieces.len()
        invariant
            i <= pieces@.len(),
            views == strings_view(pieces@),
            views == split_spec(query@, '&'),
            pairs_view(query_pairs@) =~= views.take(i as int).map_values(
                |p: Seq<char>| query_pair_spec(p),
            ),
        decreases pieces@.len() - i,
    {
        let (key, value) = match split_once(pieces[i].as_str(), '=') {
            Some(p) => p,
            None => (pieces[i].clone(), String::new()),
        };
        let pair = (to_lowercase(key.as_str()), to_lowercase(value.as_str()));
        proof {
            assert(views[i as int] == pieces@[i as int]@);
            assert(key@ == before_first(views[i as int], '='));
            assert(value@ == after_first(views[i as int], '='));
            assert(views.take(i + 1) =~= views.take(i as int).push(views[i as int]));
            assert(pairs_view(query_pairs@.push(pair)) =~= pairs_view(query_pairs@).push(
                (pair.0@, pair.1@),
            ));
        }
        query_pairs.push(pair);
        i = i + 1;
    }
    proof {
        assert(views.take(pieces@.len() as int) =~= views);
    }
    query_pairs
}

/// Reads an on-chain address and classifies it by its type: P2PKH and P2SH
/// as base58, P2WPKH and P2WSH as bech32, P2TR and P2A as bech32m. Any other
/// text is refused. The address's text reads back as the same address.
pub fn validate_address(body: &str) -> (r: Result<Option<BitcoinAddress>, URIError>)
    ensures
        match validate_address_spec(body@) {
            Ok(a) => r matches Ok(Some(x)) && x@ == a,
            Err(e) => r matches Err(x) && x@ == e,
        },
        r matches Ok(Some(x)) ==> validate_address_spec(x@.1) == Ok::<_, ErrorModel>(x@),
{
    let (kind, address) = match parse_address(body) {
        Some(p) => p,
        None => return Err(URIError::InvalidAddress),
    };
    let network = match kind {
        Some(AddressType::P2pkh) | Some(AddressType::P2sh) => BitcoinAddress::Base58(address),
        Some(AddressType::P2wpkh) | Some(AddressType::P2wsh) => BitcoinAddress::Bech32(address),
        Some(AddressType::P2a) | Some(AddressType::P2tr) => BitcoinAddress::Bech32m(address),
        None => return Err(URIError::InvalidAddress),
    };
    Ok(Some(network))
}

/// What the parser has gathered from the parameters read so far.
struct ParamState {
    amount: Option<Amount>,
    amounts_seen: usize,
    label: Option<String>,
    message: Option<String>,
    pop: Option<PopParam>,
    instructions: Vec<PaymentInstruction>,
    segwit: Vec<BitcoinAddress>,
    unknown: Vec<(String, String)>,
}

impl ParamState {
    spec fn model(&self) -> ParamsModel {
        ParamsModel {
            amount: self.amount,
            amounts_seen: self.amounts_seen as nat,
            label: opt_string_view(self.label),
            message: opt_string_view(self.message),
            pop: opt_pop_view(self.pop),
            instructions: instructions_view(self.instructions@),
            segwit: addresses_view(self.segwit@),
            unknown: pairs_view(self.unknown@),
        }
    }
}

/// Is `key` one the parser handles itself?
fn is_known(key: &str) -> (r: bool)
    ensures
        r == is_known_key(key@),
{
    str_eq(key, "amount") || str_eq(key, "label") || str_eq(key, "message") || str_eq(key, "pop")
        || str_eq(key, "req-pop") || str_eq(key, "lightning") || str_eq(key, "lno") || str_eq(
        key,
        "sp",
    ) || str_eq(key, "bc") || str_eq(key, "tb")
}

/// Reads one parameter with a known key; `None` where its value does not
/// percent-decode.
fn apply_known(st: &mut ParamState, key: &str, value: &str, amounts: &Vec<Option<Amount>>) -> (r:
    Option<Result<(), URIError>>)
    requires
        old(st).amounts_seen < usize::MAX,
    ensures
        match known_step_spec(old(st).model(), key@, value@, amounts@) {
            None => r is None,
            Some(Err(e)) => r matches Some(Err(x)) && x@ == e,
            Some(Ok(m)) => r matches Some(Ok(())) && final(st).model() == m,
        },
        !(r matches Some(Ok(_))) ==> *final(st) == *old(st),
        final(st).amounts_seen <= old(st).amounts_seen + 1,
{
    proof {
        reveal_strlit("amount");
        reveal_strlit("label");
        reveal_strlit("message");
        reveal_strlit("pop");
    }
    if str_eq(key, "amount") {
        if st.amount.is_some() {
            return Some(Err(URIError::DuplicateParam("amount".to_owned())));
        }
        let k = st.amounts_seen;
        st.amount = if k < amounts.len() {
            amounts[k]
        } else {
            None
        };
        st.amounts_seen = k + 1;
        Some(Ok(()))
    } else if str_eq(key, "label") {
        if st.label.is_some() {
            return Some(Err(URIError::DuplicateParam("label".to_owned())));
        }
        match url_decode(value) {
            None => None,
            Some(d) => {
                st.label = Some(d);
                Some(Ok(()))
            },
        }
    } else if str_eq(key, "message") {
        if st.message.is_some() {
            return Some(Err(URIError::DuplicateParam("message".to_owned())));
        }
        match url_decode(value) {
            None => None,
            Some(d) => {
                st.message = Some(d);
                Some(Ok(()))
            },
        }
    } else if str_eq(key, "pop") {
        if st.pop.is_some() {
            return Some(Err(URIError::DuplicateParam("pop".to_owned())));
        }
        st.pop = Some(PopParam::Optional(value.to_owned()));
        Some(Ok(()))
    } else if str_eq(key, "req-pop") {
        if st.pop.is_some() {
            return Some(Err(URIError::BothPopAndReqPop));
        }
        let candidate = PopParam::Required(value.to_owned());
        match check_pop_scheme(&candidate) {
            None => None,
            Some(Err(_)) => Some(Err(URIError::RequiredPopNotSupported)),
            Some(Ok(_)) => {
                st.pop = Some(candidate);
                Some(Ok(()))
            },
        }
    } else if str_eq(key, "lightning") {
        let ghost before = st.instructions@;
        st.instructions.push(PaymentInstruction::Lightning(value.to_owned()));
        proof {
            assert(instructions_view(st.instructions@) =~= instructions_view(before).push(
                InstructionModel::Lightning(value@),
            ));
        }
        Some(Ok(()))
    } else if str_eq(key, "lno") {
        let ghost before = st.instructions@;
        st.instructions.push(PaymentInstruction::Bolt12(value.to_owned()));
        proof {
            assert(instructions_view(st.instructions@) =~= instructions_view(before).push(
                InstructionModel::Bolt12(value@),
            ));
        }
        Some(Ok(()))
    } else if str_eq(key, "sp") {
        let ghost before = st.instructions@;
        st.instructions.push(PaymentInstruction::SilentPayment(value.to_owned()));
        proof {
            assert(instructions_view(st.instructions@) =~= instructions_view(before).push(
                InstructionModel::SilentPayment(value@),
            ));
        }
        Some(Ok(()))
    } else if str_eq(key, "bc") || str_eq(key, "tb") {
        if !starts_with(value, key) {
            return Some(Err(URIError::InvalidAddress));
        }
        let address = match validate_address(value) {
            Ok(Some(a)) => a,
            Ok(None) => return Some(Err(URIError::InvalidAddress)),
            Err(e) => return Some(Err(e)),
        };
        let ghost before = st.segwit@;
        st.segwit.push(address);
        proof {
            assert(addresses_view(st.segwit@) =~= addresses_view(before).push(
                validate_address_spec(value@)->Ok_0,
            ));
        }
        Some(Ok(()))
    } else {
        Some(Ok(()))
    }
}

/// What a handler answered for a parameter the parser does not know.
pub enum HandlerResponse {
    /// `is_supported` returned false.
    Unsupported,
    /// `is_supported` returned true, and `handle` returned this.
    Handled(Result<(), URIError>),
}

impl View for HandlerResponse {
    type V = HandlerAnswer;

    open spec fn view(&self) -> HandlerAnswer {
        match self {
            HandlerResponse::Unsupported => HandlerAnswer::Unsupported,
            HandlerResponse::Handled(Ok(())) => HandlerAnswer::Handled(None),
            HandlerResponse::Handled(Err(e)) => HandlerAnswer::Handled(Some(e@)),
        }
    }
}

/// Asks the handler about a parameter the parser does not know: whether it
/// supports the key and, if so, what handling it gives. The response is what
/// the handler's `is_supported` and `handle` returned, and the handler is
/// left as `handle` left it (unchanged where the key is unsupported).
fn ask_handler<H: PaymentInstructionHandler>(handler: &mut H, key: &str, value: &str) -> (r:
    HandlerResponse)
    ensures
        r is Unsupported ==> *final(handler) == *old(handler),
        exists|m: &mut H|
            {
                &&& #[trigger] handler_answered(*old(handler), m, key@, value@, r@)
                &&& r is Handled ==> *final(m) == *final(handler)
            },
{
    if handler.is_supported(key) {
        let res = handler.handle(key, value);
        let r = HandlerResponse::Handled(res);
        proof {
            let m = choose|m: &mut H|
                #[trigger] call_ensures(H::handle, (m, key, value), res) && *m == *old(handler)
                    && *final(m) == *handler;
            assert(call_ensures(H::is_supported, (&*old(handler), key), true));
            assert(r@ == HandlerAnswer::Handled(handled_error(res)));
            assert(handler_answered(*old(handler), m, key@, value@, r@));
        }
        r
    } else {
        let r = HandlerResponse::Unsupported;
        proof {
            assert(call_ensures(H::is_supported, (&*old(handler), key), false));
            assert(r@ == HandlerAnswer::Unsupported);
            assert(handler_answered(*old(handler), handler, key@, value@, r@));
        }
        r
    }
}

/// Decides a parameter the parser does not know, from the handler's
/// response: the handler's result where it supports the key; otherwise the
/// pair is kept in `unknown`, unless the key begins with `req-`, which makes
/// the URI invalid.
pub fn handle_unknown(
    key: &str,
    value: &str,
    response: HandlerResponse,
    unknown: &mut Vec<(String, String)>,
) -> (r: Result<(), URIError>)
    ensures
        match response@ {
            HandlerAnswer::Handled(None) => r is Ok && final(unknown)@ == old(unknown)@,
            HandlerAnswer::Handled(Some(e)) => r matches Err(x) && x@ == e && final(unknown)@
                == old(unknown)@,
            HandlerAnswer::Unsupported => if has_prefix(key@, "req-"@) {
                r matches Err(x) && x@ == ErrorModel::UnknownRequiredParam(key@) && final(unknown)@
                    == old(unknown)@
            } else {
                r is Ok && pairs_view(final(unknown)@) == pairs_view(old(unknown)@).push(
                    (key@, value@),
                )
            },
        },
{
    match response {
        HandlerResponse::Handled(result) => result,
        HandlerResponse::Unsupported => {
            if starts_with(key, "req-") {
                return Err(URIError::UnknownRequiredParam(key.to_owned()));
            }
            let ghost before = unknown@;
            unknown.push((key.to_owned(), value.to_owned()));
            proof {
                assert(pairs_view(unknown@) =~= pairs_view(before).push((key@, value@)));
            }
            Ok(())
        },
    }
}

/// A classification result as a mathematical value.
spec fn state_result_view(r: Option<Result<ParamState, URIError>>) -> Option<
    Result<ParamsModel, ErrorModel>,
> {
    match r {
        None => None,
        Some(Ok(st)) => Some(Ok(st.model())),
        Some(Err(e)) => Some(Err(e@)),
    }
}

/// A trace of handler calls over `asked` is one over any equal list.
proof fn lemma_trace_over<H: PaymentInstructionHandler>(
    states: Seq<H>,
    answers: Seq<HandlerAnswer>,
    asked: Seq<(Seq<char>, Seq<char>)>,
    calls: Seq<(Seq<char>, Seq<char>)>,
)
    requires
        calls == asked,
        forall|j: int|
            0 <= j < answers.len() ==> {
                &&& answers[j] is Unsupported ==> states[j + 1] == states[j]
                &&& exists|m: &mut H|
                    {
                        &&& #[trigger] handler_answered(states[j], m, asked[j].0, asked[j].1, answers[j])
                        &&& answers[j] is Handled ==> *final(m) == states[j + 1]
                    }
            },
    ensures
        forall|j: int|
            0 <= j < answers.len() ==> {
                &&& answers[j] is Unsupported ==> states[j + 1] == states[j]
                &&& exists|m: &mut H|
                    {
                        &&& #[trigger] handler_answered(states[j], m, calls[j].0, calls[j].1, answers[j])
                        &&& answers[j] is Handled ==> *final(m) == states[j + 1]
                    }
            },
{
}

/// Where reading stops at a parameter with a known key, the answers recorded
/// so far are all the answers, and the parameters asked about so far are
/// all those asked about.
proof fn lemma_stopped_at_known(
    init: ParamsModel,
    pv: Seq<(Seq<char>, Seq<char>)>,
    amounts: Seq<Option<Amount>>,
    recorded: Seq<HandlerAnswer>,
    asked: Seq<(Seq<char>, Seq<char>)>,
    st: ParamsModel,
    rest: Seq<(Seq<char>, Seq<char>)>,
)
    requires
        forall|ext: Seq<HandlerAnswer>|
            classify_spec(init, pv, amounts, recorded + ext) == #[trigger] classify_spec(
                st,
                rest,
                amounts,
                ext,
            ),
        forall|ext: Seq<HandlerAnswer>|
            asked_spec(init, pv, amounts, recorded + ext) == asked + #[trigger] asked_spec(
                st,
                rest,
                amounts,
                ext,
            ),
        rest.len() > 0,
        is_known_key(rest[0].0),
        !(known_step_spec(st, rest[0].0, rest[0].1, amounts) matches Some(Ok(_))),
    ensures
        classify_spec(init, pv, amounts, recorded) == classify_spec(st, rest, amounts, Seq::empty()),
        asked_spec(init, pv, amounts, recorded) == asked,
{
    let none = Seq::<HandlerAnswer>::empty();
    assert(recorded + none =~= recorded);
    assert(classify_spec(init, pv, amounts, recorded + none) == classify_spec(st, rest, amounts, none));
    assert(asked_spec(init, pv, amounts, recorded + none) == asked + asked_spec(st, rest, amounts, none));
    assert(asked_spec(st, rest, amounts, none) =~= Seq::<(Seq<char>, Seq<char>)>::empty());
    assert(asked + Seq::<(Seq<char>, Seq<char>)>::empty() =~= asked);
}

/// Reads the parameters in order, asking the handler about the unknown ones.
/// Gives the answers it went by and the states the handler went through.
fn classify_params<H: PaymentInstructionHandler>(
    address: &Option<BitcoinAddress>,
    pairs: &Vec<(String, String)>,
    amounts: &Vec<Option<Amount>>,
    handler: &mut H,
) -> (r: (Option<Result<ParamState, URIError>>, Ghost<Seq<HandlerAnswer>>, Ghost<Seq<H>>))
    ensures
        classify_spec(
            initial_params(crate::types::opt_address_view(*address)),
            pairs_view(pairs@),
            amounts@,
            r.1@,
        ) == state_result_view(r.0),
        asked_spec(
            initial_params(crate::types::opt_address_view(*address)),
            pairs_view(pairs@),
            amounts@,
            r.1@,
        ).len() == r.1@.len(),
        r.2@.len() == r.1@.len() + 1,
        r.2@[0] == *old(handler),
        r.2@.last() == *final(handler),
        forall|j: int|
            0 <= j < r.1@.len() ==> {
                &&& r.1@[j] is Unsupported ==> r.2@[j + 1] == r.2@[j]
                &&& exists|m: &mut H|
                    {
                        &&& #[trigger] handler_answered(
                            r.2@[j],
                            m,
                            asked_spec(
                                initial_params(crate::types::opt_address_view(*address)),
                                pairs_view(pairs@),
                                amounts@,
                                r.1@,
                            )[j].0,
                            asked_spec(
                                initial_params(crate::types::opt_address_view(*address)),
                                pairs_view(pairs@),
                                amounts@,
                                r.1@,
                            )[j].1,
                            r.1@[j],
                        )
                        &&& r.1@[j] is Handled ==> *final(m) == r.2@[j + 1]
                    }
            },
{
    let ghost pv = pairs_view(pairs@);
    let ghost init = initial_params(crate::types::opt_address_view(*address));
    let mut instructions: Vec<PaymentInstruction> = Vec::new();
    match address {
        Some(a) => instructions.push(PaymentInstruction::Onchain(a.duplicate())),
        None => {},
    }
    let mut st = ParamState {
        amount: None,
        amounts_seen: 0,
        label: None,
        message: None,
        pop: None,
        instructions,
        segwit: Vec::new(),
        unknown: Vec::new(),
    };
    proof {
        assert(st.model().instructions =~= init.instructions);
        assert(st.model().segwit =~= init.segwit);
        assert(st.model().unknown =~= init.unknown);
        assert(st.model() == init);
        assert forall|ext: Seq<HandlerAnswer>|
            classify_spec(init, pv, amounts@, Seq::empty() + ext) == classify_spec(
                st.model(),
                pv.skip(0),
                amounts@,
                ext,
            ) by {
            assert(Seq::<HandlerAnswer>::empty() + ext =~= ext);
            assert(pv.skip(0) =~= pv);
        }
        assert forall|ext: Seq<HandlerAnswer>|
            asked_spec(init, pv, amounts@, Seq::empty() + ext) == Seq::<
                (Seq<char>, Seq<char>),
            >::empty() + #[trigger] asked_spec(st.model(), pv.skip(0), amounts@, ext) by {
            assert(Seq::<HandlerAnswer>::empty() + ext =~= ext);
            assert(pv.skip(0) =~= pv);
            assert(Seq::<(Seq<char>, Seq<char>)>::empty() + asked_spec(init, pv, amounts@, ext)
                =~= asked_spec(init, pv, amounts@, ext));
        }
    }
    let ghost mut recorded: Seq<HandlerAnswer> = Seq::empty();
    let ghost mut asked: Seq<(Seq<char>, Seq<char>)> = Seq::empty();
    let ghost mut states: Seq<H> = seq![*handler];
    let mut i: usize = 0;
    while i < pairs.len()
        invariant
            i <= pairs@.len(),
            pv == pairs_view(pairs@),
            init == initial_params(crate::types::opt_address_view(*address)),
            st.amounts_seen <= i,
            forall|ext: Seq<HandlerAnswer>|
                classify_spec(init, pv, amounts@, recorded + ext) == #[trigger] classify_spec(
                    st.model(),
                    pv.skip(i as int),
                    amounts@,
                    ext,
                ),
            forall|ext: Seq<HandlerAnswer>|
                asked_spec(init, pv, amounts@, recorded + ext) == asked + #[trigger] asked_spec(
                    st.model(),
                    pv.skip(i as int),
                    amounts@,
                    ext,
                ),
            asked.len() == recorded.len(),
            states.len() == recorded.len() + 1,
            states[0] == *old(handler),
            states.last() == *handler,
            forall|j: int|
                0 <= j < recorded.len() ==> {
                    &&& recorded[j] is Unsupported ==> states[j + 1] == states[j]
                    &&& exists|m: &mut H|
                        {
                            &&& #[trigger] handler_answered(states[j], m, asked[j].0, asked[j].1, recorded[j])
                            &&& recorded[j] is Handled ==> *final(m) == states[j + 1]
                        }
                },
        decreases pairs@.len() - i,
    {
        let key = pairs[i].0.as_str();
        let value = pairs[i].1.as_str();
        let ghost rest = pv.skip(i as int);
        let ghost old_model = st.model();
        proof {
            assert(rest[0] == (key@, value@));
            assert(rest.drop_first() =~= pv.skip(i + 1));
        }
        if is_known(key) {
            match apply_known(&mut st, key, value, amounts) {
                None => {
                    proof {
                        lemma_stopped_at_known(init, pv, amounts@, recorded, asked, old_model, rest);
                        lemma_trace_over(states, recorded, asked, asked_spec(init, pv, amounts@, recorded));
                    }
                    return (None, Ghost(recorded), Ghost(states));
                },
                Some(Err(e)) => {
                    proof {
                        lemma_stopped_at_known(init, pv, amounts@, recorded, asked, old_model, rest);
                        lemma_trace_over(states, recorded, asked, asked_spec(init, pv, amounts@, recorded));
                    }
                    return (Some(Err(e)), Ghost(recorded), Ghost(states));
                },
                Some(Ok(())) => {
                    proof {
                        assert forall|ext: Seq<HandlerAnswer>|
                            classify_spec(init, pv, amounts@, recorded + ext)
                                == #[trigger] classify_spec(
                                st.model(),
                                pv.skip(i + 1),
                                amounts@,
                                ext,
                            ) by {
                            assert(classify_spec(init, pv, amounts@, recorded + ext)
                                == classify_spec(old_model, rest, amounts@, ext));
                        }
                        assert forall|ext: Seq<HandlerAnswer>|
                            asked_spec(init, pv, amounts@, recorded + ext)
                                == asked + #[trigger] asked_spec(
                                st.model(),
                                pv.skip(i + 1),
                                amounts@,
                                ext,
                            ) by {
                            assert(asked_spec(init, pv, amounts@, recorded + ext)
                                == asked + asked_spec(old_model, rest, amounts@, ext));
                        }
                    }
                },
            }
        } else {
            let ghost h_before = *handler;
            let response = ask_handler(handler, key, value);
            let ghost answer = response@;
            let result = handle_unknown(key, value, response, &mut st.unknown);
            proof {
                assert forall|ext: Seq<HandlerAnswer>|
                    classify_spec(init, pv, amounts@, recorded.push(answer) + ext)
                        == classify_spec(old_model, rest, amounts@, seq![answer] + ext) && asked_spec(
                        init,
                        pv,
                        amounts@,
                        recorded.push(answer) + ext,
                    ) == asked + asked_spec(old_model, rest, amounts@, seq![answer] + ext) by {
                    assert(recorded.push(answer) + ext =~= recorded + (seq![answer] + ext));
                }
                let old_states = states;
                let old_recorded = recorded;
                let old_asked = asked;
                states = states.push(*handler);
                recorded = recorded.push(answer);
                asked = asked.push((key@, value@));
                assert forall|j: int| 0 <= j < recorded.len() implies {
                    &&& recorded[j] is Unsupported ==> states[j + 1] == states[j]
                    &&& exists|m: &mut H|
                        {
                            &&& #[trigger] handler_answered(states[j], m, asked[j].0, asked[j].1, recorded[j])
                            &&& recorded[j] is Handled ==> *final(m) == states[j + 1]
                        }
                } by {
                    if j < old_recorded.len() {
                        assert(states[j] == old_states[j]);
                        assert(states[j + 1] == old_states[j + 1]);
                        assert(asked[j] == old_asked[j]);
                        assert(recorded[j] == old_recorded[j]);
                    } else {
                        assert(states[j] == h_before);
                        assert(states[j + 1] == *handler);
                        assert(asked[j] == (key@, value@));
                        assert(recorded[j] == answer);
                    }
                }
            }
            match result {
                Err(e) => {
                    proof {
                        let ext = Seq::<HandlerAnswer>::empty();
                        assert(recorded + ext =~= recorded);
                        assert(first_answer(seq![answer] + ext) == answer);
                        assert(asked_spec(old_model, rest, amounts@, seq![answer] + ext) =~= seq![
                            (key@, value@),
                        ]);
                        assert(asked =~= asked.drop_last() + seq![(key@, value@)]);
                        assert(asked_spec(init, pv, amounts@, recorded) == asked);
                    }
                    return (Some(Err(e)), Ghost(recorded), Ghost(states));
                },
                Ok(()) => {
                    proof {
                        let prev = recorded.drop_last();
                        let prev_asked = asked.drop_last();
                        assert(recorded =~= prev.push(answer));
                        assert forall|ext: Seq<HandlerAnswer>|
                            classify_spec(init, pv, amounts@, recorded + ext)
                                == #[trigger] classify_spec(
                                st.model(),
                                pv.skip(i + 1),
                                amounts@,
                                ext,
                            ) by {
                            assert(first_answer(seq![answer] + ext) == answer);
                            assert(rest_answers(seq![answer] + ext) =~= ext);
                        }
                        assert forall|ext: Seq<HandlerAnswer>|
                            asked_spec(init, pv, amounts@, recorded + ext)
                                == asked + #[trigger] asked_spec(
                                st.model(),
                                pv.skip(i + 1),
                                amounts@,
                                ext,
                            ) by {
                            assert(first_answer(seq![answer] + ext) == answer);
                            assert(rest_answers(seq![answer] + ext) =~= ext);
                            assert(prev_asked + (seq![(key@, value@)] + asked_spec(
                                st.model(),
                                pv.skip(i + 1),
                                amounts@,
                                ext,
                            )) =~= asked + asked_spec(st.model(), pv.skip(i + 1), amounts@, ext));
                        }
                    }
                },
            }
        }
        i = i + 1;
    }
    proof {
        assert(pv.skip(pairs@.len() as int) =~= Seq::<(Seq<char>, Seq<char>)>::empty());
        assert(recorded + Seq::<HandlerAnswer>::empty() =~= recorded);
        assert(asked + Seq::<(Seq<char>, Seq<char>)>::empty() =~= asked);
        assert(classify_spec(init, pv, amounts@, recorded + Seq::empty()) == classify_spec(
            st.model(),
            pv.skip(i as int),
            amounts@,
            Seq::empty(),
        ));
        assert(asked_spec(init, pv, amounts@, recorded + Seq::empty()) == asked + asked_spec(
            st.model(),
            pv.skip(i as int),
            amounts@,
            Seq::empty(),
        ));
    }
    proof {
        assert(asked_spec(st.model(), pv.skip(i as int), amounts@, Seq::empty()) =~= Seq::<
            (Seq<char>, Seq<char>),
        >::empty());
        assert(asked_spec(init, pv, amounts@, recorded) == asked);
        assert(init == initial_params(crate::types::opt_address_view(*address)));
        assert(pv == pairs_view(pairs@));
        lemma_trace_over(
            states,
            recorded,
            asked,
            asked_spec(
                initial_params(crate::types::opt_address_view(*address)),
                pairs_view(pairs@),
                amounts@,
                recorded,
            ),
        );
    }
    (Some(Ok(st)), Ghost(recorded), Ghost(states))
}

/// The address (for a non-empty body) and the lower-cased query pairs.
fn prepare(input: &str) -> (r: Result<(Option<BitcoinAddress>, Vec<(String, String)>), URIError>)
    ensures
        match prepare_spec(input@) {
            Ok((a, p)) => r matches Ok(x) && crate::types::opt_address_view(x.0) == a
                && pairs_view(x.1@) == p,
            Err(e) => r matches Err(x) && x@ == e,
        },
{
    let after = strip_scheme(input)?;
    let (body, query) = split_body_and_query(after.as_str());
    let query_pairs = parse_query_pairs(query.as_str());
    let address: Option<BitcoinAddress> = if !body.as_str().is_empty() {
        validate_address(body.as_str())?
    } else {
        None
    };
    Ok((address, query_pairs))
}

/// The URI made of the address, the parameters read and the handler, which
/// is kept where it is not empty.
fn finish<H: PaymentInstructionHandler>(
    address: Option<BitcoinAddress>,
    st: ParamState,
    handler: H,
) -> (r: BitcoinURI<H>)
    ensures
        r@ == finish_spec(crate::types::opt_address_view(address), st.model()),
        extra_fits(r.extra, handler),
{
    let ghost m = st.model();
    let mut instructions = st.instructions;
    if st.segwit.len() > 0 {
        let ghost before = instructions@;
        instructions.push(PaymentInstruction::Segwit(st.segwit));
        proof {
            assert(instructions_view(instructions@) =~= instructions_view(before).push(
                InstructionModel::Segwit(m.segwit),
            ));
        }
    }
    let extra = if !handler.is_empty() {
        Some(handler)
    } else {
        None
    };
    BitcoinURI {
        address,
        amount: st.amount,
        label: st.label,
        message: st.message,
        pop: st.pop,
        instructions,
        unknown: st.unknown,
        extra,
    }
}

/// An optional parse result as a mathematical value.
pub open spec fn opt_result_view<H: PaymentInstructionHandler>(
    r: Option<Result<BitcoinURI<H>, URIError>>,
) -> Option<Result<UriModel, ErrorModel>> {
    match r {
        None => None,
        Some(x) => Some(result_view(x)),
    }
}

/// The URI of an optional parse result, if it parsed.
pub open spec fn parsed_uri<H: PaymentInstructionHandler>(
    r: Option<Result<BitcoinURI<H>, URIError>>,
) -> Option<BitcoinURI<H>> {
    match r {
        Some(Ok(u)) => Some(u),
        _ => None,
    }
}

/// Parses with the given handler, or gives `None` where parsing reaches a
/// value to be percent-decoded that does not decode.
///
/// The result is `parse_spec` for the answers the handler gave: the handler,
/// starting from `handler`, was asked in order about the unknown parameters
/// that parsing reached (`asked_of`), each answer is what its
/// `is_supported` and `handle` returned, and a parsed URI keeps the handler
/// in `extra` exactly when its `is_empty` returned false.
pub fn try_parse<H: PaymentInstructionHandler>(
    input: &str,
    handler: H,
    amounts: &Vec<Option<Amount>>,
) -> (r: Option<Result<BitcoinURI<H>, URIError>>)
    ensures
        exists|answers: Seq<HandlerAnswer>, states: Seq<H>|
            #![trigger parse_spec(input@, amounts@, answers), states.len()]
            {
                let calls = asked_of(input@, amounts@, answers);
                &&& parse_spec(input@, amounts@, answers) == opt_result_view(r)
                &&& calls.len() == answers.len()
                &&& states.len() == answers.len() + 1
                &&& states[0] == handler
                &&& forall|j: int|
                    0 <= j < answers.len() ==> {
                        &&& answers[j] is Unsupported ==> states[j + 1] == states[j]
                        &&& exists|m: &mut H|
                            {
                                &&& #[trigger] handler_answered(
                                    states[j],
                                    m,
                                    calls[j].0,
                                    calls[j].1,
                                    answers[j],
                                )
                                &&& answers[j] is Handled ==> *final(m) == states[j + 1]
                            }
                    }
                &&& parsed_uri(r) matches Some(u) ==> extra_fits(u.extra, states.last())
            },
{
    let (address, pairs) = match prepare(input) {
        Err(e) => {
            let ghost states = seq![handler];
            let ghost answers = Seq::<HandlerAnswer>::empty();
            proof {
                assert(parse_spec(input@, amounts@, answers) == opt_result_view(
                    Some(Err::<BitcoinURI<H>, URIError>(e)),
                ));
                assert(asked_of(input@, amounts@, answers).len() == 0);
                assert(states.len() == 1);
            }
            return Some(Err(e));
        },
        Ok(p) => p,
    };
    let mut handler = handler;
    let (classified, Ghost(answers), Ghost(states)) = classify_params(
        &address,
        &pairs,
        amounts,
        &mut handler,
    );
    proof {
        assert(asked_of(input@, amounts@, answers) == asked_spec(
            initial_params(crate::types::opt_address_view(address)),
            pairs_view(pairs@),
            amounts@,
            answers,
        ));
        assert(states.len() == answers.len() + 1);
    }
    match classified {
        None => {
            proof {
                assert(parse_spec(input@, amounts@, answers) == opt_result_view(
                    None::<Result<BitcoinURI<H>, URIError>>,
                ));
            }
            None
        },
        Some(Err(e)) => {
            proof {
                assert(parse_spec(input@, amounts@, answers) == opt_result_view(
                    Some(Err::<BitcoinURI<H>, URIError>(e)),
                ));
            }
            Some(Err(e))
        },
        Some(Ok(st)) => {
            let uri = finish(address, st, handler);
            proof {
                assert(parse_spec(input@, amounts@, answers) == opt_result_view(
                    Some(Ok::<BitcoinURI<H>, URIError>(uri)),
                ));
            }
            Some(Ok(uri))
        },
    }
}

/// Parses a `bitcoin:` URI.
///
/// The scheme must be `bitcoin` in any case; the body, where not empty, must
/// be an address, which becomes the first instruction. The query is split at
/// `&` into `key=value` pairs, both sides lower-cased, read in order: a
/// repeated `amount`, `label`, `message` or pop parameter is refused;
/// `label` and `message` are percent-decoded; a `req-pop` callback with a
/// forbidden scheme is refused; `lightning`, `lno` and `sp` add instructions;
/// `bc` and `tb` add segwit addresses, which must begin with their key; other
/// keys go to the handler if it supports them, are refused if they begin with
/// `req-`, and are kept in `unknown` otherwise.
///
/// `amounts[k]` is the amount of the `k`-th `amount` parameter (the
/// conversion of the `k`-th text that `amount_values` lists); an amount that
/// is missing there counts as unreadable. The result is stated as for
/// `try_parse`, over the answers the handler gave. Every `label`, `message`
/// and `req-pop` value that parsing may reach, whatever the handler answers,
/// must percent-decode. Which values parsing reaches depends on the handler's
/// answers, which a caller learns only by calling it: `try_parse` is the
/// entry point for any input, and gives `None` exactly where parsing with the
/// given handler reaches a value that does not decode.
pub fn parse<H: PaymentInstructionHandler>(
    input: &str,
    handler: H,
    amounts: &Vec<Option<Amount>>,
) -> (r: Result<BitcoinURI<H>, URIError>)
    requires
        forall|answers: Seq<HandlerAnswer>| #[trigger] parse_spec(input@, amounts@, answers) is Some,
    ensures
        exists|answers: Seq<HandlerAnswer>, states: Seq<H>|
            #![trigger parse_spec(input@, amounts@, answers), states.len()]
            {
                let calls = asked_of(input@, amounts@, answers);
                &&& parse_spec(input@, amounts@, answers) == Some(result_view(r))
                &&& calls.len() == answers.len()
                &&& states.len() == answers.len() + 1
                &&& states[0] == handler
                &&& forall|j: int|
                    0 <= j < answers.len() ==> {
                        &&& answers[j] is Unsupported ==> states[j + 1] == states[j]
                        &&& exists|m: &mut H|
                            {
                                &&& #[trigger] handler_answered(
                                    states[j],
                                    m,
                                    calls[j].0,
                                    calls[j].1,
                                    answers[j],
                                )
                                &&& answers[j] is Handled ==> *final(m) == states[j + 1]
                            }
                    }
                &&& r matches Ok(u) ==> extra_fits(u.extra, states.last())
            },
{
    let ghost h0 = handler;
    let r = try_parse(input, handler, amounts);
    match r {
        Some(x) => {
            proof {
                assert(parsed_uri(r) == match x {
                    Ok(u) => Some(u),
                    Err(_) => None::<BitcoinURI<H>>,
                });
            }
            x
        },
        None => {
            proof {
                let (answers, states) = choose|answers: Seq<HandlerAnswer>, states: Seq<H>|
                    #![trigger parse_spec(input@, amounts@, answers), states.len()]
                    parse_spec(input@, amounts@, answers) == opt_result_view(r);
                assert(parse_spec(input@, amounts@, answers) is Some);
            }
            Err(URIError::InvalidAddress)
        },
    }
}

/// The texts of the `amount` parameters of a URI, lower-cased, in order:
/// what `parse` takes amounts for. Empty where the scheme is not `bitcoin`.
pub fn amount_values(input: &str) -> (r: Vec<String>)
    ensures
        strings_view(r@) == amount_values_spec(input@),
{
    let after = match strip_scheme(input) {
        Ok(a) => a,
        Err(_) => {
            return Vec::new();
        },
    };
    let (_, query) = split_body_and_query(after.as_str());
    let pairs = parse_query_pairs(query.as_str());
    let ghost pv = pairs_view(pairs@);
    let mut texts: Vec<String> = Vec::new();
    let mut i: usize = 0;
    while i < pairs.len()
        invariant
            i <= pairs@.len(),
            pv == pairs_view(pairs@),
            strings_view(texts@) == amount_texts_spec(pv.take(i as int)),
        decreases pairs@.len() - i,
    {
        proof {
            assert(pv.take(i + 1).drop_last() =~= pv.take(i as int));
            assert(pv.take(i + 1).last() == pv[i as int]);
        }
        if str_eq(pairs[i].0.as_str(), "amount") {
            let ghost before = strings_view(texts@);
            texts.push(pairs[i].1.clone());
            proof {
                assert(strings_view(texts@) =~= before.push(pairs@[i as int].1@));
            }
        }
        i = i + 1;
    }
    proof {
        assert(pv.take(pairs@.len() as int) =~= pv);
    }
    texts
}

} // verus!
