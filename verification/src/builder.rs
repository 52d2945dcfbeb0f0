//! Writing a payment URI back as text.
use vstd::prelude::*;
use crate::percent::{url_encode, url_encode_spec};
use crate::text::{join_spec, join_with_ampersand, strings_view};
use crate::types::{
    instruction_value, instructions_view, AddressEncoding, BitcoinAddress, BitcoinURI,
    InstructionModel, PaymentInstruction, PaymentInstructionHandler, PopModel, PopParam, UriModel,
    Value,
};

verus! {

/// The body of a URI: its address, or nothing.
pub open spec fn body_spec(address: Option<(AddressEncoding, Seq<char>)>) -> Seq<char> {
    match address {
        Some(a) => a.1,
        None => Seq::empty(),
    }
}

/// The query texts of the instructions, on-chain ones left out (they are the
/// body).
pub open spec fn instruction_pieces(v: Seq<InstructionModel>) -> Seq<Seq<char>>
    decreases v.len(),
{
    if v.len() == 0 {
        Seq::empty()
    } else if v.last() is Onchain {
        instruction_pieces(v.drop_last())
    } else {
        instruction_pieces(v.drop_last()).push(instruction_value(v.last()))
    }
}

/// The amount piece: `amount=` and the amount text, where there is an amount.
pub open spec fn amount_piece(u: UriModel, amount_text: Seq<char>) -> Seq<Seq<char>> {
    if u.amount is Some {
        seq!["amount="@ + amount_text]
    } else {
        Seq::empty()
    }
}

/// The label piece: `label=` and the percent-encoded label.
pub open spec fn label_piece(u: UriModel) -> Seq<Seq<char>> {
    match u.label {
        Some(l) => seq!["label="@ + url_encode_spec(l)],
        None => Seq::empty(),
    }
}

/// The message piece: `message=` and the percent-encoded message.
pub open spec fn message_piece(u: UriModel) -> Seq<Seq<char>> {
    match u.message {
        Some(m) => seq!["message="@ + url_encode_spec(m)],
        None => Seq::empty(),
    }
}

/// The pop piece: `req-pop=` or `pop=` and the callback as it is held.
pub open spec fn pop_piece(u: UriModel) -> Seq<Seq<char>> {
    match u.pop {
        Some(PopModel::Required(s)) => seq!["req-pop="@ + s],
        Some(PopModel::Optional(s)) => seq!["pop="@ + s],
        _ => Seq::empty(),
    }
}

/// The query pieces in order: amount, label, message, pop, instructions.
pub open spec fn query_pieces(u: UriModel, amount_text: Seq<char>) -> Seq<Seq<char>> {
    amount_piece(u, amount_text) + label_piece(u) + message_piece(u) + pop_piece(u)
        + instruction_pieces(u.instructions)
}

/// The pieces that are not empty.
pub open spec fn non_empty_pieces(v: Seq<Seq<char>>) -> Seq<Seq<char>>
    decreases v.len(),
{
    if v.len() == 0 {
        Seq::empty()
    } else if v.last().len() == 0 {
        non_empty_pieces(v.drop_last())
    } else {
        non_empty_pieces(v.drop_last()).push(v.last())
    }
}

/// The query of a URI: its non-empty pieces joined with `&`.
pub open spec fn query_spec(u: UriModel, amount_text: Seq<char>) -> Seq<char> {
    join_spec(non_empty_pieces(query_pieces(u, amount_text)), "&"@)
}

/// The text of a URI: `bitcoin:`, the body, and `?` and the query where the
/// query is not empty.
pub open spec fn build_spec(u: UriModel, amount_text: Seq<char>) -> Seq<char> {
    let query = query_spec(u, amount_text);
    if query.len() == 0 {
        "bitcoin:"@ + body_spec(u.address)
    } else {
        "bitcoin:"@ + body_spec(u.address) + "?"@ + query
    }
}

fn build_body<H: PaymentInstructionHandler>(uri: &BitcoinURI<H>) -> (r: String)
    ensures
        r@ == body_spec(uri@.address),
{
    match &uri.address {
        Some(BitcoinAddress::Base58(s)) => s.to_string(),
        Some(BitcoinAddress::Bech32(s)) => s.to_string(),
        Some(BitcoinAddress::Bech32m(s)) => s.to_string(),
        None => String::new(),
    }
}

/// `prefix` followed by `s`.
fn joined(prefix: &str, s: &str) -> (r: String)
    ensures
        r@ == prefix@ + s@,
{
    let mut r = prefix.to_owned();
    r.append(s);
    r
}

fn build_query<H: PaymentInstructionHandler>(uri: &BitcoinURI<H>, amount_text: &str) -> (r: String)
    ensures
        r@ == query_spec(uri@, amount_text@),
{
    proof {
        reveal_strlit("amount=");
        reveal_strlit("label=");
        reveal_strlit("message=");
        reveal_strlit("req-pop=");
        reveal_strlit("pop=");
    }
    let ghost u = uri@;
    let mut query: Vec<String> = Vec::new();
    if uri.amount.is_some() {
        query.push(joined("amount=", amount_text));
    }
    if let Some(s) = &uri.label {
        let encoded = url_encode(s.as_str());
        query.push(joined("label=", encoded.as_str()));
    }
    if let Some(s) = &uri.message {
        let encoded = url_encode(s.as_str());
        query.push(joined("message=", encoded.as_str()));
    }
    match &uri.pop {
        Some(PopParam::Required(s)) => query.push(joined("req-pop=", s.as_str())),
        Some(PopParam::Optional(s)) => query.push(joined("pop=", s.as_str())),
        _ => {},
    }
    let ghost head = strings_view(query@);
    let ghost ins = instructions_view(uri.instructions@);
    proof {
        assert(head =~= amount_piece(u, amount_text@) + label_piece(u) + message_piece(u) + pop_piece(u));
        assert(ins.take(0) =~= Seq::<InstructionModel>::empty());
    }
    let mut i: usize = 0;
    while i < uri.instructions.len()
        invariant
            i <= uri.instructions@.len(),
            ins == instructions_view(uri.instructions@),
            strings_view(query@) == head + instruction_pieces(ins.take(i as int)),
        decreases uri.instructions@.len() - i,
    {
        proof {
            assert(ins.take(i + 1).drop_last() =~= ins.take(i as int));
            assert(ins.take(i + 1).last() == uri.instructions@[i as int]@);
        }
        let instruction = &uri.instructions[i];
        if let PaymentInstruction::Onchain(_) = instruction {
        } else {
            let ghost before = strings_view(query@);
            let value = instruction.get_value();
            query.push(value);
            proof {
                assert(strings_view(query@) =~= before.push(instruction_value(ins[i as int])));
            }
        }
        i = i + 1;
    }
    proof {
        assert(ins.take(uri.instructions@.len() as int) =~= ins);
    }
    let ghost all = strings_view(query@);
    let mut kept: Vec<String> = Vec::new();
    let mut j: usize = 0;
    while j < query.len()
        invariant
            j <= query@.len(),
            all == strings_view(query@),
            strings_view(kept@) == non_empty_pieces(all.take(j as int)),
        decreases query@.len() - j,
    {
        proof {
            assert(all.take(j + 1).drop_last() =~= all.take(j as int));
            assert(all.take(j + 1).last() == query@[j as int]@);
        }
        if !query[j].as_str().is_empty() {
            let ghost before = strings_view(kept@);
            kept.push(query[j].clone());
            proof {
                assert(strings_view(kept@) =~= before.push(query@[j as int]@));
            }
        }
        j = j + 1;
    }
    proof {
        assert(all.take(query@.len() as int) =~= all);
    }
    join_with_ampersand(&kept)
}

/// Writes a URI as text: `bitcoin:`, the address, and, where there is any,
/// `?` and the query. The query holds, in order, `amount=` and
/// `amount_text` (the amount in BTC as decimal text, used where the URI has
/// an amount), the percent-encoded label and message, the pop callback, and
/// each instruction other than the on-chain address as its `get_value`;
/// empty pieces are left out, the rest joined with `&`.
pub fn build<H: PaymentInstructionHandler>(uri: &BitcoinURI<H>, amount_text: &str) -> (r: String)
    ensures
        r@ == build_spec(uri@, amount_text@),
{
    proof {
        reveal_strlit("bitcoin:");
        reveal_strlit("?");
    }
    let body = build_body(uri);
    let query = build_query(uri, amount_text);
    let mut r = "bitcoin:".to_owned();
    r.append(body.as_str());
    if !query.as_str().is_empty() {
        r.append("?");
        r.append(query.as_str());
    }
    r
}

} // verus!
