//! What the main operations are for, stated over all inputs.
use vstd::prelude::*;
use crate::address::{address_display, address_parses, address_type_of, address_valid_for, AddressType, Network};
use crate::error::ErrorModel;
use crate::laws::key_count;
use crate::parser::{
    amount_at, amount_texts_spec, amount_values_spec, classify_spec, first_answer, is_known_key,
    known_step_spec, parse_spec, prepare_spec, rest_answers, unknown_step_spec,
    validate_address_spec, HandlerAnswer, ParamsModel,
};
use crate::types::{
    on_network_spec, resolve_step_ok, AddressEncoding, Amount, InstructionModel, PaymentInstruction,
    PaymentResolver, ResolveStep,
};

verus! {

// ---------------------------------------------------------------------------
// Reading an on-chain address
// ---------------------------------------------------------------------------

/// Every text the `bitcoin` crate reads as an address of a known type is
/// accepted, with the encoding its type calls for and the crate's display
/// text: P2PKH and P2SH addresses as base58, P2WPKH and P2WSH as bech32,
/// P2TR and P2A as bech32m. A text the crate refuses, or whose type it does
/// not know, is refused.
pub proof fn law_address_classification(t: Seq<char>)
    ensures
        address_parses(t) && (address_type_of(t) == Some(AddressType::P2pkh) || address_type_of(t)
            == Some(AddressType::P2sh)) ==> validate_address_spec(t) == Ok::<_, ErrorModel>(
            (AddressEncoding::Base58, address_display(t)),
        ),
        address_parses(t) && (address_type_of(t) == Some(AddressType::P2wpkh) || address_type_of(t)
            == Some(AddressType::P2wsh)) ==> validate_address_spec(t) == Ok::<_, ErrorModel>(
            (AddressEncoding::Bech32, address_display(t)),
        ),
        address_parses(t) && (address_type_of(t) == Some(AddressType::P2tr) || address_type_of(t)
            == Some(AddressType::P2a)) ==> validate_address_spec(t) == Ok::<_, ErrorModel>(
            (AddressEncoding::Bech32m, address_display(t)),
        ),
        !address_parses(t) || address_type_of(t) is None ==> validate_address_spec(t) == Err::<
            (AddressEncoding, Seq<char>),
            _,
        >(ErrorModel::InvalidAddress),
        validate_address_spec(t) is Ok <==> address_parses(t) && address_type_of(t) is Some,
{
}

// ---------------------------------------------------------------------------
// The network check when resolving
// ---------------------------------------------------------------------------

/// Where the resolver names a network, an on-chain address passes the check
/// exactly when the `bitcoin` crate reads it and holds it valid for that
/// network, whatever its encoding; where it names none, every address
/// passes.
pub proof fn law_network_check(address: (AddressEncoding, Seq<char>), network: Network)
    ensures
        on_network_spec(address, Some(network)) == (address_parses(address.1) && address_valid_for(
            address.1,
            network,
        )),
        on_network_spec(address, None),
{
}

/// In `resolve_instructions`, an on-chain address is resolved only where the
/// `bitcoin` crate holds it valid for the network the resolver named, and
/// skipped only where it does not.
pub proof fn law_resolved_addresses_are_on_network<R: PaymentResolver>(
    instruction: PaymentInstruction,
    step: ResolveStep<R::Output>,
)
    requires
        resolve_step_ok::<R>(instruction, step),
        instruction is Onchain,
    ensures
        step matches ResolveStep::Resolved(Some(Some(n)), _) ==> address_parses(
            instruction->Onchain_0@.1,
        ) && address_valid_for(instruction->Onchain_0@.1, n),
        step matches ResolveStep::Skipped(n) ==> !(address_parses(instruction->Onchain_0@.1)
            && address_valid_for(instruction->Onchain_0@.1, n)),
        !(step is Unsupported) ==> call_ensures(R::supports, (&instruction,), true),
{
}

// ---------------------------------------------------------------------------
// What parsing keeps of the parameters
// ---------------------------------------------------------------------------

/// The instruction one query parameter gives: `lightning`, `lno` and `sp`
/// give a Lightning invoice, a BOLT12 offer and a silent-payment address
/// holding the value; any other parameter gives none.
pub open spec fn param_instruction(p: (Seq<char>, Seq<char>)) -> Seq<InstructionModel> {
    if p.0 == "lightning"@ {
        seq![InstructionModel::Lightning(p.1)]
    } else if p.0 == "lno"@ {
        seq![InstructionModel::Bolt12(p.1)]
    } else if p.0 == "sp"@ {
        seq![InstructionModel::SilentPayment(p.1)]
    } else {
        Seq::empty()
    }
}

/// The instructions the parameters give, in query order.
pub open spec fn instruction_params(pairs: Seq<(Seq<char>, Seq<char>)>) -> Seq<InstructionModel>
    decreases pairs.len(),
{
    if pairs.len() == 0 {
        Seq::empty()
    } else {
        param_instruction(pairs[0]) + instruction_params(pairs.drop_first())
    }
}

/// The segwit addresses the `bc` and `tb` parameters give, in query order.
pub open spec fn segwit_params(pairs: Seq<(Seq<char>, Seq<char>)>) -> Seq<(AddressEncoding, Seq<char>)>
    decreases pairs.len(),
{
    if pairs.len() == 0 {
        Seq::empty()
    } else if pairs[0].0 == "bc"@ || pairs[0].0 == "tb"@ {
        seq![validate_address_spec(pairs[0].1)->Ok_0] + segwit_params(pairs.drop_first())
    } else {
        segwit_params(pairs.drop_first())
    }
}

/// What a successful reading of the parameters makes of the instructions,
/// the segwit addresses and the amount.
proof fn lemma_classify_keeps(
    st: ParamsModel,
    pairs: Seq<(Seq<char>, Seq<char>)>,
    amounts: Seq<Option<Amount>>,
    answers: Seq<HandlerAnswer>,
    fin: ParamsModel,
)
    requires
        classify_spec(st, pairs, amounts, answers) == Some(Ok::<ParamsModel, ErrorModel>(fin)),
    ensures
        fin.instructions == st.instructions + instruction_params(pairs),
        fin.segwit == st.segwit + segwit_params(pairs),
        fin.amounts_seen == st.amounts_seen + key_count(pairs, "amount"@),
        key_count(pairs, "amount"@) == 0 ==> fin.amount == st.amount,
        key_count(pairs, "amount"@) > 0 ==> {
            &&& st.amount is None
            &&& fin.amount == amount_at(amounts, (fin.amounts_seen - 1) as nat)
            &&& forall|k: nat| st.amounts_seen <= k < fin.amounts_seen - 1 ==> #[trigger] amount_at(amounts, k) is None
        },
    decreases pairs.len(),
{
    crate::laws::lemma_known_keys_distinct();
    if pairs.len() == 0 {
        assert(st.instructions + instruction_params(pairs) =~= st.instructions);
        assert(st.segwit + segwit_params(pairs) =~= st.segwit);
    } else {
        let key = pairs[0].0;
        let value = pairs[0].1;
        let rest = pairs.drop_first();
        let next = if is_known_key(key) {
            known_step_spec(st, key, value, amounts)->0->Ok_0
        } else {
            unknown_step_spec(st, key, value, first_answer(answers))->Ok_0
        };
        let ans = if is_known_key(key) { answers } else { rest_answers(answers) };
        lemma_classify_keeps(next, rest, amounts, ans, fin);
        assert(next.instructions == st.instructions + param_instruction(pairs[0]));
        assert(st.instructions + param_instruction(pairs[0]) + instruction_params(rest)
            =~= st.instructions + instruction_params(pairs));
        if key == "bc"@ || key == "tb"@ {
            assert(next.segwit == st.segwit.push(validate_address_spec(value)->Ok_0));
            assert(st.segwit.push(validate_address_spec(value)->Ok_0) + segwit_params(rest)
                =~= st.segwit + segwit_params(pairs));
        } else {
            assert(next.segwit == st.segwit);
        }
        if key == "amount"@ {
            assert(st.amount is None);
            assert(next.amount == amount_at(amounts, st.amounts_seen));
            assert(next.amounts_seen == st.amounts_seen + 1);
            if key_count(rest, "amount"@) > 0 {
                assert forall|k: nat| st.amounts_seen <= k < fin.amounts_seen - 1 implies #[trigger] amount_at(
                    amounts,
                    k,
                ) is None by {
                    if k == st.amounts_seen {
                    } else {
                        assert(next.amounts_seen <= k);
                    }
                }
            }
        } else {
            assert(next.amount == st.amount);
            assert(next.amounts_seen == st.amounts_seen);
        }
    }
}

/// The instructions of a URI that parses: its address, if any, then one
/// instruction per `lightning`, `lno` and `sp` parameter, holding its value,
/// in query order, then the addresses of its `bc` and `tb` parameters as one
/// segwit instruction, where there are any.
pub proof fn law_parsed_instructions(
    input: Seq<char>,
    amounts: Seq<Option<Amount>>,
    answers: Seq<HandlerAnswer>,
)
    requires
        parse_spec(input, amounts, answers) is Some,
        parse_spec(input, amounts, answers)->0 is Ok,
    ensures
        ({
            let (address, pairs) = prepare_spec(input)->Ok_0;
            let u = parse_spec(input, amounts, answers)->0->Ok_0;
            let head: Seq<InstructionModel> = match address {
                Some(a) => seq![InstructionModel::Onchain(a)],
                None => Seq::empty(),
            };
            let seg = segwit_params(pairs);
            &&& prepare_spec(input) is Ok
            &&& u.address == address
            &&& u.instructions == head + instruction_params(pairs) + if seg.len() > 0 {
                seq![InstructionModel::Segwit(seg)]
            } else {
                Seq::empty()
            }
        }),
{
    let (address, pairs) = prepare_spec(input)->Ok_0;
    let st = crate::parser::initial_params(address);
    let fin = classify_spec(st, pairs, amounts, answers)->0->Ok_0;
    lemma_classify_keeps(st, pairs, amounts, answers, fin);
    assert(st.segwit + segwit_params(pairs) =~= segwit_params(pairs));
}

/// How many parameters have the key `k`, counted from the end.
proof fn lemma_key_count_last(pairs: Seq<(Seq<char>, Seq<char>)>, k: Seq<char>)
    requires
        pairs.len() > 0,
    ensures
        key_count(pairs, k) == key_count(pairs.drop_last(), k) + if pairs.last().0 == k {
            1nat
        } else {
            0nat
        },
    decreases pairs.len(),
{
    if pairs.len() > 1 {
        lemma_key_count_last(pairs.drop_first(), k);
        assert(pairs.drop_first().drop_last() =~= pairs.drop_last().drop_first());
        assert(pairs.drop_first().last() == pairs.last());
        assert(pairs.drop_last()[0] == pairs[0]);
        let b: nat = if pairs[0].0 == k { 1nat } else { 0nat };
        assert(key_count(pairs, k) == b + key_count(pairs.drop_first(), k));
        assert(key_count(pairs.drop_last(), k) == b + key_count(pairs.drop_last().drop_first(), k));
    } else {
        assert(pairs.drop_first().len() == 0);
        assert(pairs.drop_last().len() == 0);
        assert(key_count(pairs.drop_first(), k) == 0);
        assert(key_count(pairs.drop_last(), k) == 0);
        assert(pairs.last() == pairs[0]);
        let b: nat = if pairs[0].0 == k { 1nat } else { 0nat };
        assert(key_count(pairs, k) == b + key_count(pairs.drop_first(), k));
    }
}

/// There is one amount text per `amount` parameter.
proof fn lemma_amount_texts_count(pairs: Seq<(Seq<char>, Seq<char>)>)
    ensures
        amount_texts_spec(pairs).len() == key_count(pairs, "amount"@),
    decreases pairs.len(),
{
    if pairs.len() > 0 {
        lemma_amount_texts_count(pairs.drop_last());
        lemma_key_count_last(pairs, "amount"@);
    }
}

/// `amount_values` lists the texts of the `amount` parameters that parsing
/// reads, and the amount of a URI that parses is the one given for the last
/// of them, where every one given for the earlier ones is unreadable (a
/// readable amount followed by another is a repeated parameter); a URI
/// without an `amount` parameter has no amount. This holds whatever case the
/// scheme and keys are written in.
pub proof fn law_parsed_amount(
    input: Seq<char>,
    amounts: Seq<Option<Amount>>,
    answers: Seq<HandlerAnswer>,
)
    requires
        parse_spec(input, amounts, answers) is Some,
        parse_spec(input, amounts, answers)->0 is Ok,
    ensures
        ({
            let (address, pairs) = prepare_spec(input)->Ok_0;
            let u = parse_spec(input, amounts, answers)->0->Ok_0;
            let n = amount_values_spec(input).len();
            &&& amount_values_spec(input) == amount_texts_spec(pairs)
            &&& n == key_count(pairs, "amount"@)
            &&& n == 0 ==> u.amount is None
            &&& n > 0 ==> u.amount == amount_at(amounts, (n - 1) as nat)
            &&& forall|k: nat| k + 1 < n ==> #[trigger] amount_at(amounts, k) is None
        }),
{
    let (address, pairs) = prepare_spec(input)->Ok_0;
    let st = crate::parser::initial_params(address);
    let fin = classify_spec(st, pairs, amounts, answers)->0->Ok_0;
    lemma_classify_keeps(st, pairs, amounts, answers, fin);
    lemma_amount_texts_count(pairs);
}

/// For every input whose scheme parsing accepts (`bitcoin` in any case),
/// `amount_values` lists one text per `amount` parameter of its query,
/// whatever else the input holds.
pub proof fn law_amount_values_count(input: Seq<char>)
    ensures
        crate::parser::scheme_rest_spec(input) matches Some(rest) ==> amount_values_spec(input).len()
            == key_count(
            crate::parser::query_pairs_spec(crate::text::after_first(rest, '?')),
            "amount"@,
        ),
{
    if let Some(rest) = crate::parser::scheme_rest_spec(input) {
        lemma_amount_texts_count(crate::parser::query_pairs_spec(crate::text::after_first(rest, '?')));
    }
}

// ---------------------------------------------------------------------------
// What building writes
// ---------------------------------------------------------------------------

/// `p` occurs in `s`.
pub open spec fn contains_text(s: Seq<char>, p: Seq<char>) -> bool {
    exists|i: int| 0 <= i && i + p.len() <= s.len() && #[trigger] s.subrange(i, i + p.len()) == p
}

proof fn lemma_contains_in_concat(x: Seq<char>, y: Seq<char>, p: Seq<char>)
    ensures
        contains_text(x, p) ==> contains_text(x + y, p),
        contains_text(y, p) ==> contains_text(x + y, p),
{
    if contains_text(x, p) {
        let i = choose|i: int| 0 <= i && i + p.len() <= x.len() && #[trigger] x.subrange(i, i + p.len()) == p;
        assert((x + y).subrange(i, i + p.len()) =~= x.subrange(i, i + p.len()));
    }
    if contains_text(y, p) {
        let i = choose|i: int| 0 <= i && i + p.len() <= y.len() && #[trigger] y.subrange(i, i + p.len()) == p;
        let j = x.len() + i;
        assert((x + y).subrange(j, j + p.len()) =~= y.subrange(i, i + p.len()));
    }
}

proof fn lemma_contains_self(p: Seq<char>)
    ensures
        contains_text(p, p),
{
    let i: int = 0;
    assert(p.subrange(i, i + p.len()) =~= p);
}

/// Every piece occurs in the pieces joined.
proof fn lemma_join_contains(ps: Seq<Seq<char>>, sep: Seq<char>, k: int)
    requires
        0 <= k < ps.len(),
    ensures
        contains_text(crate::text::join_spec(ps, sep), ps[k]),
    decreases ps.len(),
{
    if ps.len() == 1 {
        lemma_contains_self(ps[0]);
    } else {
        let front = crate::text::join_spec(ps.drop_last(), sep) + sep;
        assert(crate::text::join_spec(ps, sep) == front + ps.last());
        if k == ps.len() - 1 {
            lemma_contains_self(ps.last());
            lemma_contains_in_concat(front, ps.last(), ps[k]);
        } else {
            lemma_join_contains(ps.drop_last(), sep, k);
            assert(ps.drop_last()[k] == ps[k]);
            lemma_contains_in_concat(crate::text::join_spec(ps.drop_last(), sep), sep, ps[k]);
            lemma_contains_in_concat(front, ps.last(), ps[k]);
        }
    }
}

/// A piece that is not empty is kept among the non-empty pieces.
proof fn lemma_non_empty_keeps(v: Seq<Seq<char>>, k: int)
    requires
        0 <= k < v.len(),
        v[k].len() > 0,
    ensures
        exists|j: int|
            0 <= j < crate::builder::non_empty_pieces(v).len() && #[trigger] crate::builder::non_empty_pieces(
                v,
            )[j] == v[k],
    decreases v.len(),
{
    let w = crate::builder::non_empty_pieces(v);
    if k == v.len() - 1 {
        assert(w == crate::builder::non_empty_pieces(v.drop_last()).push(v.last()));
        assert(w[w.len() - 1] == v[k]);
    } else {
        lemma_non_empty_keeps(v.drop_last(), k);
        let w0 = crate::builder::non_empty_pieces(v.drop_last());
        let j = choose|j: int| 0 <= j < w0.len() && #[trigger] w0[j] == v.drop_last()[k];
        if v.last().len() == 0 {
            assert(w == w0);
        } else {
            assert(w == w0.push(v.last()));
            assert(w[j] == w0[j]);
        }
    }
}

/// Every instruction other than an on-chain one has its text among the
/// instruction pieces.
proof fn lemma_instruction_piece_kept(v: Seq<InstructionModel>, k: int)
    requires
        0 <= k < v.len(),
        !(v[k] is Onchain),
    ensures
        exists|j: int|
            0 <= j < crate::builder::instruction_pieces(v).len() && #[trigger] crate::builder::instruction_pieces(
                v,
            )[j] == crate::types::instruction_value(v[k]),
    decreases v.len(),
{
    let w = crate::builder::instruction_pieces(v);
    if k == v.len() - 1 {
        assert(w[w.len() - 1] == crate::types::instruction_value(v[k]));
    } else {
        lemma_instruction_piece_kept(v.drop_last(), k);
        let w0 = crate::builder::instruction_pieces(v.drop_last());
        let j = choose|j: int| 0 <= j < w0.len() && #[trigger] w0[j] == crate::types::instruction_value(
            v.drop_last()[k],
        );
        if v.last() is Onchain {
            assert(w == w0);
        } else {
            assert(w == w0.push(crate::types::instruction_value(v.last())));
            assert(w[j] == w0[j]);
        }
    }
}

/// A non-empty query piece occurs in the text `build` writes, after
/// `bitcoin:`, the body and `?`.
proof fn lemma_piece_written(u: crate::types::UriModel, t: Seq<char>, k: int)
    requires
        0 <= k < crate::builder::query_pieces(u, t).len(),
        crate::builder::query_pieces(u, t)[k].len() > 0,
    ensures
        contains_text(crate::builder::build_spec(u, t), crate::builder::query_pieces(u, t)[k]),
        crate::builder::build_spec(u, t) == "bitcoin:"@ + crate::builder::body_spec(u.address) + "?"@
            + crate::builder::query_spec(u, t),
{
    let v = crate::builder::query_pieces(u, t);
    let p = v[k];
    lemma_non_empty_keeps(v, k);
    let w = crate::builder::non_empty_pieces(v);
    let j = choose|j: int| 0 <= j < w.len() && #[trigger] w[j] == v[k];
    lemma_join_contains(w, "&"@, j);
    let q = crate::builder::query_spec(u, t);
    assert(contains_text(q, p));
    let i = choose|i: int| 0 <= i && i + p.len() <= q.len() && #[trigger] q.subrange(i, i + p.len()) == p;
    assert(q.len() > 0);
    lemma_contains_in_concat("bitcoin:"@ + crate::builder::body_spec(u.address) + "?"@, q, p);
}

/// What `build` writes: `bitcoin:`, the address (or nothing), and, where
/// there is anything to write, `?` and a query in which the amount (as the
/// text given for it), the percent-encoded label and message, the callback,
/// and the text of every Lightning invoice, BOLT12 offer and silent-payment
/// address occur, whatever their letters.
pub proof fn law_build_writes_every_part(u: crate::types::UriModel, t: Seq<char>)
    ensures
        crate::builder::build_spec(u, t).len() >= "bitcoin:"@.len() + crate::builder::body_spec(
            u.address,
        ).len(),
        crate::builder::build_spec(u, t).subrange(0, "bitcoin:"@.len() as int) == "bitcoin:"@,
        crate::builder::build_spec(u, t).subrange(
            "bitcoin:"@.len() as int,
            ("bitcoin:"@.len() + crate::builder::body_spec(u.address).len()) as int,
        ) == crate::builder::body_spec(u.address),
        u.amount is Some ==> contains_text(crate::builder::build_spec(u, t), "amount="@ + t),
        u.label matches Some(l) ==> contains_text(
            crate::builder::build_spec(u, t),
            "label="@ + crate::percent::url_encode_spec(l),
        ),
        u.message matches Some(m) ==> contains_text(
            crate::builder::build_spec(u, t),
            "message="@ + crate::percent::url_encode_spec(m),
        ),
        u.pop matches Some(crate::types::PopModel::Required(s)) ==> contains_text(
            crate::builder::build_spec(u, t),
            "req-pop="@ + s,
        ),
        u.pop matches Some(crate::types::PopModel::Optional(s)) ==> contains_text(
            crate::builder::build_spec(u, t),
            "pop="@ + s,
        ),
        forall|k: int|
            0 <= k < u.instructions.len() ==> {
                &&& (#[trigger] u.instructions[k]) matches InstructionModel::Lightning(s)
                    ==> contains_text(crate::builder::build_spec(u, t), "lightning="@ + s)
                &&& u.instructions[k] matches InstructionModel::Bolt12(s) ==> contains_text(
                    crate::builder::build_spec(u, t),
                    "lno="@ + s,
                )
                &&& u.instructions[k] matches InstructionModel::SilentPayment(s) ==> contains_text(
                    crate::builder::build_spec(u, t),
                    "sp="@ + s,
                )
            },
{
    reveal_strlit("bitcoin:");
    reveal_strlit("amount=");
    reveal_strlit("label=");
    reveal_strlit("message=");
    reveal_strlit("req-pop=");
    reveal_strlit("pop=");
    reveal_strlit("lightning=");
    reveal_strlit("lno=");
    reveal_strlit("sp=");
    reveal_strlit("?");
    let v = crate::builder::query_pieces(u, t);
    let pa = crate::builder::amount_piece(u, t);
    let pl = crate::builder::label_piece(u);
    let pm = crate::builder::message_piece(u);
    let pp = crate::builder::pop_piece(u);
    let pi = crate::builder::instruction_pieces(u.instructions);
    assert(v == pa + pl + pm + pp + pi);
    let body = crate::builder::body_spec(u.address);
    let b = crate::builder::build_spec(u, t);
    let q = crate::builder::query_spec(u, t);
    if q.len() == 0 {
        assert(b == "bitcoin:"@ + body);
    } else {
        assert(b == "bitcoin:"@ + body + "?"@ + q);
    }
    assert(b.subrange(0, "bitcoin:"@.len() as int) =~= "bitcoin:"@);
    assert(b.subrange("bitcoin:"@.len() as int, ("bitcoin:"@.len() + body.len()) as int) =~= body);
    let om: int = (pa.len() + pl.len()) as int;
    let op: int = (pa.len() + pl.len() + pm.len()) as int;
    if u.amount is Some {
        assert(v[0] == "amount="@ + t);
        lemma_piece_written(u, t, 0);
    }
    if let Some(l) = u.label {
        assert(v[pa.len() as int] == "label="@ + crate::percent::url_encode_spec(l));
        lemma_piece_written(u, t, pa.len() as int);
    }
    if let Some(m) = u.message {
        assert(v[om] == "message="@ + crate::percent::url_encode_spec(m));
        lemma_piece_written(u, t, om);
    }
    match u.pop {
        Some(crate::types::PopModel::Required(s)) => {
            assert(v[op] == "req-pop="@ + s);
            lemma_piece_written(u, t, op);
        },
        Some(crate::types::PopModel::Optional(s)) => {
            assert(v[op] == "pop="@ + s);
            lemma_piece_written(u, t, op);
        },
        _ => {},
    }
    assert forall|k: int| 0 <= k < u.instructions.len() implies {
        &&& (#[trigger] u.instructions[k]) matches InstructionModel::Lightning(s) ==> contains_text(
            b,
            "lightning="@ + s,
        )
        &&& u.instructions[k] matches InstructionModel::Bolt12(s) ==> contains_text(b, "lno="@ + s)
        &&& u.instructions[k] matches InstructionModel::SilentPayment(s) ==> contains_text(b, "sp="@ + s)
    } by {
        let ins = u.instructions[k];
        if ins is Lightning || ins is Bolt12 || ins is SilentPayment {
            lemma_instruction_piece_kept(u.instructions, k);
            let j = choose|j: int| 0 <= j < pi.len() && #[trigger] pi[j] == crate::types::instruction_value(ins);
            let off: int = (pa.len() + pl.len() + pm.len() + pp.len()) as int;
            assert(v[off + j] == pi[j]);
            lemma_piece_written(u, t, off + j);
        }
    }
}

} // verus!
