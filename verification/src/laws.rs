//! Properties of parsing and building that hold for all inputs.
use vstd::prelude::*;
use vstd::utf8::*;
use crate::parser::{
    classify_spec, first_answer, is_known_key, known_step_spec, parse_spec, prepare_spec,
    rest_answers, unknown_step_spec, HandlerAnswer, ParamsModel,
};
use crate::percent::{
    hex_digit_upper, hex_value, is_unreserved, percent_decode_bytes, percent_encode_bytes,
    url_decode_spec, url_encode_spec,
};
use crate::builder::{instruction_pieces, query_pieces};
use crate::text::lowercase_spec;
use crate::types::{
    instruction_value, passed_over, resolve_step_ok, resolved_first, resolved_outputs, taken,
    Amount, InstructionModel, PaymentInstruction, PaymentResolver, PopModel, ResolveStep,
};

verus! {

/// How many pairs have the key `k`.
pub open spec fn key_count(pairs: Seq<(Seq<char>, Seq<char>)>, k: Seq<char>) -> nat
    decreases pairs.len(),
{
    if pairs.len() == 0 {
        0
    } else {
        (if pairs[0].0 == k {
            1nat
        } else {
            0nat
        }) + key_count(pairs.drop_first(), k)
    }
}

/// The keys the parser knows are ten different texts.
pub(crate) proof fn lemma_known_keys_distinct()
    ensures
        "amount"@.len() == 6,
        "label"@.len() == 5,
        "message"@.len() == 7,
        "pop"@.len() == 3,
        "req-pop"@.len() == 7,
        "lightning"@.len() == 9,
        "lno"@.len() == 3,
        "sp"@.len() == 2,
        "bc"@.len() == 2,
        "tb"@.len() == 2,
        "message"@ != "req-pop"@,
        "pop"@ != "lno"@,
        "sp"@ != "bc"@,
        "sp"@ != "tb"@,
        "bc"@ != "tb"@,
{
    reveal_strlit("amount");
    reveal_strlit("label");
    reveal_strlit("message");
    reveal_strlit("pop");
    reveal_strlit("req-pop");
    reveal_strlit("lightning");
    reveal_strlit("lno");
    reveal_strlit("sp");
    reveal_strlit("bc");
    reveal_strlit("tb");
    assert("message"@[0] != "req-pop"@[0]);
    assert("pop"@[0] != "lno"@[0]);
    assert("sp"@[0] != "bc"@[0]);
    assert("sp"@[0] != "tb"@[0]);
    assert("bc"@[0] != "tb"@[0]);
}

/// Facts that reading parameters keeps, for a reading that succeeds.
proof fn lemma_classify_ok(
    st: ParamsModel,
    pairs: Seq<(Seq<char>, Seq<char>)>,
    amounts: Seq<Option<Amount>>,
    answers: Seq<HandlerAnswer>,
    fin: ParamsModel,
)
    requires
        classify_spec(st, pairs, amounts, answers) == Some(Ok::<ParamsModel, crate::error::ErrorModel>(fin)),
    ensures
        st.label is Some ==> key_count(pairs, "label"@) == 0,
        key_count(pairs, "label"@) <= 1,
        st.message is Some ==> key_count(pairs, "message"@) == 0,
        key_count(pairs, "message"@) <= 1,
        st.pop is Some ==> key_count(pairs, "pop"@) + key_count(pairs, "req-pop"@) == 0,
        key_count(pairs, "pop"@) + key_count(pairs, "req-pop"@) <= 1,
        st.amount is Some ==> key_count(pairs, "amount"@) == 0,
        (st.amount is None && amounts.len() > st.amounts_seen && amounts[st.amounts_seen as int] is Some)
            ==> key_count(pairs, "amount"@) <= 1,
        st.instructions.len() <= fin.instructions.len(),
        fin.instructions.take(st.instructions.len() as int) == st.instructions,
        fin.pop matches Some(PopModel::Required(v)) ==> (st.pop == fin.pop
            || crate::pop::pop_scheme_check_spec(PopModel::Required(v)) matches Some(Ok(_))),
    decreases pairs.len(),
{
    lemma_known_keys_distinct();
    if pairs.len() == 0 {
        assert(st == fin);
        assert(fin.instructions.take(st.instructions.len() as int) =~= st.instructions);
    } else {
        let key = pairs[0].0;
        let value = pairs[0].1;
        let rest = pairs.drop_first();
        assert(key_count(pairs, "pop"@) == (if key == "pop"@ { 1nat } else { 0nat }) + key_count(rest, "pop"@));
        assert(key_count(pairs, "req-pop"@) == (if key == "req-pop"@ { 1nat } else { 0nat }) + key_count(
            rest,
            "req-pop"@,
        ));
        if is_known_key(key) {
            let next = known_step_spec(st, key, value, amounts)->0->Ok_0;
            lemma_classify_ok(next, rest, amounts, answers, fin);
            assert(next.instructions.take(st.instructions.len() as int) =~= st.instructions);
            assert(fin.instructions.take(st.instructions.len() as int) =~= fin.instructions.take(
                next.instructions.len() as int,
            ).take(st.instructions.len() as int));
        } else {
            let next = unknown_step_spec(st, key, value, first_answer(answers))->Ok_0;
            lemma_classify_ok(next, rest, amounts, rest_answers(answers), fin);
        }
    }
}

/// A URI that parses names each of `label`, `message`, and the pop
/// callback (`pop` or `req-pop`) at most once: a repeated one is refused.
pub proof fn law_no_repeated_parameters(
    input: Seq<char>,
    amounts: Seq<Option<Amount>>,
    answers: Seq<HandlerAnswer>,
)
    requires
        parse_spec(input, amounts, answers) matches Some(Ok(_)),
    ensures
        prepare_spec(input) matches Ok((_, pairs)) && key_count(pairs, "label"@) <= 1 && key_count(
            pairs,
            "message"@,
        ) <= 1 && key_count(pairs, "pop"@) + key_count(pairs, "req-pop"@) <= 1,
{
    let (address, pairs) = prepare_spec(input)->Ok_0;
    let st = crate::parser::initial_params(address);
    let fin = classify_spec(st, pairs, amounts, answers)->0->Ok_0;
    lemma_classify_ok(st, pairs, amounts, answers, fin);
}

/// Where every amount given is readable, a URI that parses has at most one
/// `amount` parameter.
pub proof fn law_no_repeated_amount(
    input: Seq<char>,
    amounts: Seq<Option<Amount>>,
    answers: Seq<HandlerAnswer>,
)
    requires
        parse_spec(input, amounts, answers) matches Some(Ok(_)),
        amounts.len() > 0,
        forall|k: int| 0 <= k < amounts.len() ==> amounts[k] is Some,
    ensures
        prepare_spec(input) matches Ok((_, pairs)) && key_count(pairs, "amount"@) <= 1,
{
    let (address, pairs) = prepare_spec(input)->Ok_0;
    let st = crate::parser::initial_params(address);
    let fin = classify_spec(st, pairs, amounts, answers)->0->Ok_0;
    lemma_classify_ok(st, pairs, amounts, answers, fin);
}

/// A URI with an address keeps it, as its first instruction; a URI without
/// one has none.
pub proof fn law_address_is_first_instruction(
    input: Seq<char>,
    amounts: Seq<Option<Amount>>,
    answers: Seq<HandlerAnswer>,
)
    requires
        parse_spec(input, amounts, answers) matches Some(Ok(_)),
    ensures
        parse_spec(input, amounts, answers) matches Some(Ok(u)) && match u.address {
            Some(a) => u.instructions.len() > 0 && u.instructions[0] == crate::types::InstructionModel::Onchain(a),
            None => prepare_spec(input) matches Ok((None, _)),
        },
{
    let (address, pairs) = prepare_spec(input)->Ok_0;
    let st = crate::parser::initial_params(address);
    let fin = classify_spec(st, pairs, amounts, answers)->0->Ok_0;
    lemma_classify_ok(st, pairs, amounts, answers, fin);
    if address is Some {
        assert(fin.instructions[0] == fin.instructions.take(1)[0]);
    }
}

/// A required callback that parsing keeps decodes to a text whose scheme is
/// not forbidden.
pub proof fn law_required_pop_is_allowed(
    input: Seq<char>,
    amounts: Seq<Option<Amount>>,
    answers: Seq<HandlerAnswer>,
)
    requires
        parse_spec(input, amounts, answers) matches Some(Ok(u)) && u.pop matches Some(
            PopModel::Required(_),
        ),
    ensures
        parse_spec(input, amounts, answers) matches Some(Ok(u)) && u.pop matches Some(
            PopModel::Required(v),
        ) && crate::pop::pop_scheme_check_spec(PopModel::Required(v)) matches Some(Ok(_)),
{
    let (address, pairs) = prepare_spec(input)->Ok_0;
    let st = crate::parser::initial_params(address);
    let fin = classify_spec(st, pairs, amounts, answers)->0->Ok_0;
    lemma_classify_ok(st, pairs, amounts, answers, fin);
}

/// The pairs whose keys the parser does not know, in order.
pub open spec fn unknown_pairs(pairs: Seq<(Seq<char>, Seq<char>)>) -> Seq<(Seq<char>, Seq<char>)>
    decreases pairs.len(),
{
    if pairs.len() == 0 {
        Seq::empty()
    } else if is_known_key(pairs[0].0) {
        unknown_pairs(pairs.drop_first())
    } else {
        seq![pairs[0]] + unknown_pairs(pairs.drop_first())
    }
}

/// The handler supported none of the parameters it was asked about, and was
/// asked about at least `n`.
pub open spec fn refuses_all(answers: Seq<HandlerAnswer>, n: nat) -> bool {
    &&& answers.len() >= n
    &&& forall|i: int| 0 <= i < answers.len() ==> answers[i] == HandlerAnswer::Unsupported
}

proof fn lemma_unknown_kept(
    st: ParamsModel,
    pairs: Seq<(Seq<char>, Seq<char>)>,
    amounts: Seq<Option<Amount>>,
    answers: Seq<HandlerAnswer>,
    fin: ParamsModel,
)
    requires
        classify_spec(st, pairs, amounts, answers) == Some(Ok::<ParamsModel, crate::error::ErrorModel>(fin)),
        refuses_all(answers, unknown_pairs(pairs).len()),
    ensures
        fin.unknown == st.unknown + unknown_pairs(pairs),
        forall|i: int|
            0 <= i < unknown_pairs(pairs).len() ==> !crate::parser::has_prefix(
                #[trigger] unknown_pairs(pairs)[i].0,
                "req-"@,
            ),
    decreases pairs.len(),
{
    if pairs.len() == 0 {
        assert(st.unknown + unknown_pairs(pairs) =~= st.unknown);
    } else {
        let key = pairs[0].0;
        let value = pairs[0].1;
        let rest = pairs.drop_first();
        if is_known_key(key) {
            let next = known_step_spec(st, key, value, amounts)->0->Ok_0;
            lemma_unknown_kept(next, rest, amounts, answers, fin);
        } else {
            assert(first_answer(answers) == HandlerAnswer::Unsupported);
            let next = unknown_step_spec(st, key, value, first_answer(answers))->Ok_0;
            let rest_ans = rest_answers(answers);
            assert(refuses_all(rest_ans, unknown_pairs(rest).len())) by {
                assert forall|i: int| 0 <= i < rest_ans.len() implies rest_ans[i]
                    == HandlerAnswer::Unsupported by {
                    assert(rest_ans[i] == answers[i + 1]);
                }
            }
            lemma_unknown_kept(next, rest, amounts, rest_ans, fin);
            assert(st.unknown + unknown_pairs(pairs) =~= next.unknown + unknown_pairs(rest));
            assert forall|i: int| 0 <= i < unknown_pairs(pairs).len() implies !crate::parser::has_prefix(
                #[trigger] unknown_pairs(pairs)[i].0,
                "req-"@,
            ) by {
                if i > 0 {
                    assert(unknown_pairs(pairs)[i] == unknown_pairs(rest)[i - 1]);
                }
            }
        }
    }
}

/// With a handler that supports no parameter, a URI that parses keeps every
/// parameter it does not know in `unknown`, in order, and none of them begins
/// with `req-`: an unknown required parameter makes the URI invalid.
pub proof fn law_unknown_parameters_kept(
    input: Seq<char>,
    amounts: Seq<Option<Amount>>,
    answers: Seq<HandlerAnswer>,
)
    requires
        prepare_spec(input) matches Ok((_, pairs)) && refuses_all(answers, unknown_pairs(pairs).len()),
        parse_spec(input, amounts, answers) matches Some(Ok(_)),
    ensures
        prepare_spec(input) matches Ok((_, pairs)) && parse_spec(input, amounts, answers) matches Some(
            Ok(u),
        ) && u.unknown == unknown_pairs(pairs) && forall|i: int|
            0 <= i < u.unknown.len() ==> !crate::parser::has_prefix(#[trigger] u.unknown[i].0, "req-"@),
{
    let (address, pairs) = prepare_spec(input)->Ok_0;
    let st = crate::parser::initial_params(address);
    let fin = classify_spec(st, pairs, amounts, answers)->0->Ok_0;
    lemma_unknown_kept(st, pairs, amounts, answers, fin);
    assert(st.unknown + unknown_pairs(pairs) =~= unknown_pairs(pairs));
}

/// The bytes of a text of ASCII characters.
spec fn ascii_bytes(cs: Seq<char>) -> Seq<u8> {
    cs.map_values(|c: char| c as u8)
}

proof fn lemma_hex_digit(d: int)
    requires
        0 <= d < 16,
    ensures
        '\0' <= hex_digit_upper(d) <= '\u{7f}',
        hex_value(hex_digit_upper(d) as u8) == Some(d as u8),
{
}

/// Percent-encoding gives ASCII text, whose bytes decode back to the input.
proof fn lemma_encode_bytes(b: Seq<u8>)
    ensures
        is_ascii_chars(percent_encode_bytes(b)),
        percent_decode_bytes(ascii_bytes(percent_encode_bytes(b))) == b,
    decreases b.len(),
{
    if b.len() > 0 {
        let rest = b.skip(1);
        lemma_encode_bytes(rest);
        let tail = percent_encode_bytes(rest);
        let head: Seq<char> = if is_unreserved(b[0]) {
            seq![b[0] as char]
        } else {
            seq!['%', hex_digit_upper(b[0] as int / 16), hex_digit_upper(b[0] as int % 16)]
        };
        assert(percent_encode_bytes(b) == head + tail);
        lemma_hex_digit(b[0] as int / 16);
        lemma_hex_digit(b[0] as int % 16);
        assert(is_ascii_chars(head));
        assert(is_ascii_chars(head + tail)) by {
            assert forall|i: int| 0 <= i < (head + tail).len() implies '\0' <= #[trigger] (head
                + tail)[i] <= '\u{7f}' by {
                if i >= head.len() {
                    assert((head + tail)[i] == tail[i - head.len()]);
                }
            }
        }
        let bytes = ascii_bytes(head + tail);
        assert(ascii_bytes(tail) =~= bytes.skip(head.len() as int));
        if is_unreserved(b[0]) {
            assert(bytes[0] == b[0]);
            assert(bytes.skip(1) =~= ascii_bytes(tail));
        } else {
            assert(bytes[0] == 37);
            assert(bytes.skip(3) =~= ascii_bytes(tail));
            assert((b[0] as int / 16) * 16 + b[0] as int % 16 == b[0]);
        }
        assert(b =~= seq![b[0]] + rest);
    }
}

/// Percent-decoding undoes percent-encoding: a label or message that `build`
/// encodes decodes back to itself.
pub proof fn law_percent_round_trip(s: Seq<char>)
    ensures
        url_decode_spec(url_encode_spec(s)) == Some(s),
{
    let bytes = encode_utf8(s);
    let encoded = percent_encode_bytes(bytes);
    lemma_encode_bytes(bytes);
    is_ascii_chars_encode_utf8(encoded);
    assert(encode_utf8(encoded) =~= ascii_bytes(encoded));
    encode_utf8_valid_utf8(s);
    encode_utf8_decode_utf8(s);
}

/// No byte is an upper-case ASCII letter.
spec fn no_upper_bytes(b: Seq<u8>) -> bool {
    forall|i: int| 0 <= i < b.len() ==> !(65 <= #[trigger] b[i] <= 90)
}

/// No character is an upper-case ASCII letter (`A` to `Z`, 65 to 90).
pub open spec fn no_upper_chars(s: Seq<char>) -> bool {
    forall|i: int| 0 <= i < s.len() ==> !(65 <= (#[trigger] s[i]) as u32 <= 90)
}

proof fn lemma_byte_bits(x: u32, y: u32)
    ensures
        (0xC0u8 | ((x >> 6) & 0x1F) as u8) >= 0x80,
        (0xE0u8 | ((x >> 12) & 0x0F) as u8) >= 0x80,
        (0xF0u8 | ((x >> 18) & 0x7) as u8) >= 0x80,
        (0x80u8 | (y & 0x3F) as u8) >= 0x80,
        (0x80u8 | ((y >> 6) & 0x3F) as u8) >= 0x80,
        (0x80u8 | ((y >> 12) & 0x3F) as u8) >= 0x80,
        y <= 0x7F ==> (y & 0x7F) as u8 == y,
{
    assert((0xC0u8 | ((x >> 6) & 0x1F) as u8) >= 0x80) by (bit_vector);
    assert((0xE0u8 | ((x >> 12) & 0x0F) as u8) >= 0x80) by (bit_vector);
    assert((0xF0u8 | ((x >> 18) & 0x7) as u8) >= 0x80) by (bit_vector);
    assert((0x80u8 | (y & 0x3F) as u8) >= 0x80) by (bit_vector);
    assert((0x80u8 | ((y >> 6) & 0x3F) as u8) >= 0x80) by (bit_vector);
    assert((0x80u8 | ((y >> 12) & 0x3F) as u8) >= 0x80) by (bit_vector);
    assert(y <= 0x7F ==> (y & 0x7F) as u8 == y) by (bit_vector);
}

/// The UTF-8 encoding of a text without upper-case ASCII letters has no
/// byte that is one: every byte of a longer encoding is at least `0x80`.
proof fn lemma_utf8_no_upper(s: Seq<char>)
    requires
        no_upper_chars(s),
    ensures
        no_upper_bytes(encode_utf8(s)),
    decreases s.len(),
{
    if s.len() > 0 {
        let c = s[0] as u32;
        lemma_byte_bits(c, c);
        assert(!(65 <= s[0] as u32 <= 90));
        assert(no_upper_chars(s.drop_first())) by {
            assert forall|i: int| 0 <= i < s.drop_first().len() implies !(65
                <= (#[trigger] s.drop_first()[i]) as u32 <= 90) by {
                assert(s.drop_first()[i] == s[i + 1]);
            }
        }
        lemma_utf8_no_upper(s.drop_first());
        let head = encode_scalar(c);
        let tail = encode_utf8(s.drop_first());
        assert(encode_utf8(s) == head + tail);
        assert(no_upper_bytes(head)) by {
            if has_width_1_encoding(c) {
                assert(!(65 <= c <= 90));
                assert(head.len() == 1 && head[0] == c);
            } else if has_width_2_encoding(c) {
                assert(head.len() == 2 && head[0] >= 0x80 && head[1] >= 0x80);
            } else if has_width_3_encoding(c) {
                assert(head.len() == 3 && head[0] >= 0x80 && head[1] >= 0x80 && head[2] >= 0x80);
            } else {
                assert(head.len() == 4 && head[0] >= 0x80 && head[1] >= 0x80 && head[2] >= 0x80
                    && head[3] >= 0x80);
            }
        }
        assert forall|i: int| 0 <= i < (head + tail).len() implies !(65 <= #[trigger] (head
            + tail)[i] <= 90) by {
            if i >= head.len() {
                assert((head + tail)[i] == tail[i - head.len()]);
            }
        }
    }
}

/// Lower-casing an encoding, character by character.
spec fn lower_chars(cs: Seq<char>) -> Seq<char> {
    cs.map_values(|c: char| crate::text::ascii_lower_char(c))
}

proof fn lemma_hex_digit_lower(d: int)
    requires
        0 <= d < 16,
    ensures
        '\0' <= crate::text::ascii_lower_char(hex_digit_upper(d)) <= '\u{7f}',
        crate::text::ascii_lower_char(hex_digit_upper(d)) != '&',
        hex_value(crate::text::ascii_lower_char(hex_digit_upper(d)) as u8) == Some(d as u8),
{
}

/// Percent-encoding of bytes with no upper-case ASCII letter, lower-cased,
/// is ASCII text without `&` whose bytes decode back to the input.
proof fn lemma_encode_bytes_lower(b: Seq<u8>)
    requires
        no_upper_bytes(b),
    ensures
        is_ascii_chars(lower_chars(percent_encode_bytes(b))),
        forall|j: int|
            0 <= j < lower_chars(percent_encode_bytes(b)).len() ==> #[trigger] lower_chars(
                percent_encode_bytes(b),
            )[j] != '&',
        percent_decode_bytes(ascii_bytes(lower_chars(percent_encode_bytes(b)))) == b,
    decreases b.len(),
{
    if b.len() > 0 {
        let rest = b.skip(1);
        assert(no_upper_bytes(rest)) by {
            assert forall|i: int| 0 <= i < rest.len() implies !(65 <= #[trigger] rest[i] <= 90) by {
                assert(rest[i] == b[i + 1]);
            }
        }
        lemma_encode_bytes_lower(rest);
        let tail = percent_encode_bytes(rest);
        let head: Seq<char> = if is_unreserved(b[0]) {
            seq![b[0] as char]
        } else {
            seq!['%', hex_digit_upper(b[0] as int / 16), hex_digit_upper(b[0] as int % 16)]
        };
        assert(percent_encode_bytes(b) == head + tail);
        assert(lower_chars(head + tail) =~= lower_chars(head) + lower_chars(tail));
        let lh = lower_chars(head);
        let lt = lower_chars(tail);
        lemma_hex_digit_lower(b[0] as int / 16);
        lemma_hex_digit_lower(b[0] as int % 16);
        assert(!(65 <= b[0] <= 90));
        if is_unreserved(b[0]) {
            assert(lh =~= seq![b[0] as char]);
        } else {
            assert(lh =~= seq![
                '%',
                crate::text::ascii_lower_char(hex_digit_upper(b[0] as int / 16)),
                crate::text::ascii_lower_char(hex_digit_upper(b[0] as int % 16)),
            ]);
        }
        assert(is_ascii_chars(lh + lt)) by {
            assert forall|i: int| 0 <= i < (lh + lt).len() implies '\0' <= #[trigger] (lh
                + lt)[i] <= '\u{7f}' by {
                if i >= lh.len() {
                    assert((lh + lt)[i] == lt[i - lh.len()]);
                }
            }
        }
        assert forall|j: int| 0 <= j < (lh + lt).len() implies #[trigger] (lh + lt)[j] != '&' by {
            if j >= lh.len() {
                assert((lh + lt)[j] == lt[j - lh.len()]);
            }
        }
        let bytes = ascii_bytes(lh + lt);
        assert(ascii_bytes(lt) =~= bytes.skip(lh.len() as int));
        if is_unreserved(b[0]) {
            assert(bytes[0] == b[0]);
            assert(bytes.skip(1) =~= ascii_bytes(lt));
        } else {
            assert(bytes[0] == 37);
            assert(bytes.skip(3) =~= ascii_bytes(lt));
            assert((b[0] as int / 16) * 16 + b[0] as int % 16 == b[0]);
        }
        assert(b =~= seq![b[0]] + rest);
    }
}

/// Percent-encoding writes no `&`.
pub proof fn lemma_encoding_lacks_amp(s: Seq<char>)
    ensures
        forall|j: int| 0 <= j < url_encode_spec(s).len() ==> #[trigger] url_encode_spec(s)[j] != '&',
{
    lemma_encode_bytes(encode_utf8(s));
    lemma_encoded_lacks_amp(encode_utf8(s));
}

proof fn lemma_encoded_lacks_amp(b: Seq<u8>)
    ensures
        forall|j: int|
            0 <= j < percent_encode_bytes(b).len() ==> #[trigger] percent_encode_bytes(b)[j] != '&',
    decreases b.len(),
{
    if b.len() > 0 {
        let rest = b.skip(1);
        lemma_encoded_lacks_amp(rest);
        let tail = percent_encode_bytes(rest);
        let head: Seq<char> = if is_unreserved(b[0]) {
            seq![b[0] as char]
        } else {
            seq!['%', hex_digit_upper(b[0] as int / 16), hex_digit_upper(b[0] as int % 16)]
        };
        assert(percent_encode_bytes(b) == head + tail);
        lemma_hex_digit(b[0] as int / 16);
        lemma_hex_digit(b[0] as int % 16);
        assert forall|j: int| 0 <= j < (head + tail).len() implies #[trigger] (head + tail)[j] != '&' by {
            if j >= head.len() {
                assert((head + tail)[j] == tail[j - head.len()]);
            }
        }
    }
}

/// The parser reads a percent-encoded value back lower-cased: a label or
/// message without upper-case ASCII letters that `build` encodes is still
/// read back as itself, since lower-case hexadecimal digits decode as the
/// upper-case ones do. Its lower-cased encoding holds no `&`.
pub proof fn law_percent_round_trip_lowered(s: Seq<char>)
    requires
        no_upper_chars(s),
    ensures
        url_decode_spec(lowercase_spec(url_encode_spec(s))) == Some(s),
        forall|j: int|
            0 <= j < lowercase_spec(url_encode_spec(s)).len() ==> #[trigger] lowercase_spec(
                url_encode_spec(s),
            )[j] != '&',
{
    let bytes = encode_utf8(s);
    lemma_utf8_no_upper(s);
    lemma_encode_bytes(bytes);
    lemma_encode_bytes_lower(bytes);
    let lowered = lower_chars(percent_encode_bytes(bytes));
    assert(lowercase_spec(url_encode_spec(s)) == lowered);
    is_ascii_chars_encode_utf8(lowered);
    assert(encode_utf8(lowered) =~= ascii_bytes(lowered));
    encode_utf8_valid_utf8(s);
    encode_utf8_decode_utf8(s);
}

proof fn lemma_join_front(ps: Seq<Seq<char>>, sep: Seq<char>)
    requires
        ps.len() >= 2,
    ensures
        crate::text::join_spec(ps, sep) == ps[0] + sep + crate::text::join_spec(ps.drop_first(), sep),
    decreases ps.len(),
{
    let dl = ps.drop_last();
    let df = ps.drop_first();
    if ps.len() > 2 {
        lemma_join_front(dl, sep);
        assert(dl.drop_first() =~= df.drop_last());
        assert(df.last() == ps.last());
        assert(dl[0] == ps[0]);
        let a = crate::text::join_spec(dl.drop_first(), sep);
        assert(crate::text::join_spec(ps, sep) == (ps[0] + sep + a) + sep + ps.last());
        assert(crate::text::join_spec(df, sep) == a + sep + ps.last());
        assert((ps[0] + sep + a) + sep + ps.last() =~= ps[0] + sep + (a + sep + ps.last()));
    } else {
        assert(df.len() == 1);
        assert(dl.len() == 1);
        assert(crate::text::join_spec(dl, sep) == ps[0]);
        assert(crate::text::join_spec(df, sep) == ps[1]);
    }
}

/// Splitting at `&` undoes joining with `&`, for pieces without `&`: the
/// parser reads back the pieces that the builder joins.
pub proof fn law_split_undoes_join(ps: Seq<Seq<char>>)
    requires
        ps.len() > 0,
        forall|i: int, j: int| 0 <= i < ps.len() && 0 <= j < ps[i].len() ==> ps[i][j] != '&',
    ensures
        crate::text::split_spec(crate::text::join_spec(ps, "&"@), '&') == ps,
    decreases ps.len(),
{
    reveal_strlit("&");
    let joined = crate::text::join_spec(ps, "&"@);
    if ps.len() == 1 {
        assert(!exists|i: int| crate::text::is_first_index(joined, '&', i));
        assert(seq![ps[0]] =~= ps);
    } else {
        lemma_join_front(ps, "&"@);
        let rest = crate::text::join_spec(ps.drop_first(), "&"@);
        let k = ps[0].len() as int;
        assert(crate::text::is_first_index(joined, '&', k));
        let i = choose|i: int| crate::text::is_first_index(joined, '&', i);
        crate::text::lemma_first_index_unique(joined, '&', i, k);
        assert(joined.take(k) =~= ps[0]);
        assert(joined.skip(k + 1) =~= rest);
        law_split_undoes_join(ps.drop_first());
        assert(seq![ps[0]] + ps.drop_first() =~= ps);
    }
}

/// The query that `build` writes splits at `&` into the non-empty pieces it
/// was made of, where none of them holds `&` and there is at least one.
pub proof fn law_built_query_splits_into_pieces(u: crate::types::UriModel, amount_text: Seq<char>)
    requires
        crate::builder::non_empty_pieces(crate::builder::query_pieces(u, amount_text)).len() > 0,
        forall|i: int, j: int|
            0 <= i < crate::builder::non_empty_pieces(crate::builder::query_pieces(u, amount_text)).len()
                && 0 <= j < crate::builder::non_empty_pieces(
                crate::builder::query_pieces(u, amount_text),
            )[i].len() ==> crate::builder::non_empty_pieces(
                crate::builder::query_pieces(u, amount_text),
            )[i][j] != '&',
    ensures
        crate::text::split_spec(crate::builder::query_spec(u, amount_text), '&')
            == crate::builder::non_empty_pieces(crate::builder::query_pieces(u, amount_text)),
{
    law_split_undoes_join(crate::builder::non_empty_pieces(crate::builder::query_pieces(u, amount_text)));
}

/// The results of a trace, split at any point.
proof fn lemma_outputs_append<T>(a: Seq<ResolveStep<T>>, b: Seq<ResolveStep<T>>)
    ensures
        resolved_outputs(a + b) == resolved_outputs(a) + resolved_outputs(b),
    decreases b.len(),
{
    if b.len() == 0 {
        assert(a + b =~= a);
        assert(resolved_outputs(a) + resolved_outputs(b) =~= resolved_outputs(a));
    } else {
        lemma_outputs_append(a, b.drop_last());
        assert((a + b).drop_last() =~= a + b.drop_last());
        assert((a + b).last() == b.last());
        match b.last() {
            ResolveStep::Resolved(_, Some(x)) => {
                assert(resolved_outputs(a) + resolved_outputs(b.drop_last()).push(x) =~= (
                resolved_outputs(a) + resolved_outputs(b.drop_last())).push(x));
            },
            _ => {},
        }
    }
}

/// A trace of instructions the resolver did not support gives no result.
proof fn lemma_outputs_unsupported<T>(a: Seq<ResolveStep<T>>)
    requires
        forall|j: int| 0 <= j < a.len() ==> #[trigger] a[j] == ResolveStep::<T>::Unsupported,
    ensures
        resolved_outputs(a) == Seq::<T>::empty(),
    decreases a.len(),
{
    if a.len() > 0 {
        assert(a.last() == ResolveStep::<T>::Unsupported);
        lemma_outputs_unsupported(a.drop_last());
    }
}

/// For a resolver whose answers depend on the instruction alone and that
/// names no network, `resolve_instruction` agrees with
/// `resolve_instructions`: where no instruction is taken both give nothing,
/// and where the first one taken resolves to a value, that value is the
/// first of all the results.
pub proof fn law_first_resolved_is_first_of_all<R: PaymentResolver>(
    instructions: Seq<PaymentInstruction>,
    k: int,
    r: Option<R::Output>,
    trace: Seq<ResolveStep<R::Output>>,
    all: Seq<R::Output>,
)
    requires
        resolved_first::<R>(instructions, k, r),
        trace.len() == instructions.len(),
        forall|j: int| 0 <= j < trace.len() ==> resolve_step_ok::<R>(instructions[j], #[trigger] trace[j]),
        all == resolved_outputs(trace),
        forall|i: PaymentInstruction, b1: bool, b2: bool|
            #[trigger] call_ensures(R::supports, (&i,), b1) && #[trigger] call_ensures(
                R::supports,
                (&i,),
                b2,
            ) ==> b1 == b2,
        forall|i: PaymentInstruction, o1: Option<R::Output>, o2: Option<R::Output>|
            #[trigger] call_ensures(R::resolve, (&i,), o1) && #[trigger] call_ensures(
                R::resolve,
                (&i,),
                o2,
            ) ==> o1 == o2,
        forall|n: Option<crate::address::Network>| #[trigger] call_ensures(R::network, (), n) ==> n is None,
    ensures
        k == instructions.len() ==> r is None && all.len() == 0,
        r matches Some(x) ==> all.len() > 0 && all[0] == x,
{
    assert forall|j: int| 0 <= j < k implies #[trigger] trace[j] == ResolveStep::<R::Output>::Unsupported by {
        assert(passed_over::<R>(instructions[j]));
        assert(resolve_step_ok::<R>(instructions[j], trace[j]));
        if call_ensures(R::supports, (&instructions[j],), true) {
            assert(instructions[j] is Onchain);
            let n = choose|n: crate::address::Network| #[trigger] call_ensures(R::network, (), Some(n))
                && !crate::types::on_network_spec(instructions[j]->Onchain_0@, Some(n));
            assert(call_ensures(R::network, (), Some(n)));
        }
        match trace[j] {
            ResolveStep::Unsupported => {},
            ResolveStep::Skipped(n) => {
                assert(call_ensures(R::network, (), Some(n)));
            },
            ResolveStep::Resolved(_, _) => {},
        }
    }
    let pre = trace.take(k);
    assert forall|j: int| 0 <= j < pre.len() implies #[trigger] pre[j] == ResolveStep::<
        R::Output,
    >::Unsupported by {
        assert(pre[j] == trace[j]);
    }
    lemma_outputs_unsupported(pre);
    if k == instructions.len() {
        assert(pre =~= trace);
    } else {
        assert(taken::<R>(instructions[k]));
        assert(resolve_step_ok::<R>(instructions[k], trace[k]));
        match trace[k] {
            ResolveStep::Unsupported => {},
            ResolveStep::Skipped(n) => {
                assert(call_ensures(R::network, (), Some(n)));
            },
            ResolveStep::Resolved(_, out) => {
                assert(out == r);
                let post = trace.skip(k + 1);
                assert(trace =~= pre + seq![trace[k]] + post);
                lemma_outputs_append(pre + seq![trace[k]], post);
                lemma_outputs_append(pre, seq![trace[k]]);
                assert(seq![trace[k]].drop_last() =~= Seq::<ResolveStep<R::Output>>::empty());
                if let Some(x) = r {
                    let one = seq![trace[k]];
                    assert(one.last() == ResolveStep::<R::Output>::Resolved(trace[k]->Resolved_0, Some(x)));
                    assert(resolved_outputs(one.drop_last()) =~= Seq::<R::Output>::empty());
                    assert(resolved_outputs(one) =~= seq![x]);
                    assert(all == resolved_outputs(pre) + seq![x] + resolved_outputs(post));
                }
            },
        }
    }
}

} // verus!
