//! Writing a URI and parsing it back.
use vstd::prelude::*;
use crate::builder::{instruction_pieces, query_pieces};
use crate::laws::{law_percent_round_trip_lowered, law_split_undoes_join, lemma_known_keys_distinct};
use crate::parser::{
    classify_spec, is_known_key, known_step_spec, parse_spec, HandlerAnswer, ParamsModel,
};
use crate::percent::{url_decode_spec, url_encode_spec};
use crate::text::lowercase_spec;
use crate::text::join_spec;
use crate::types::{instruction_value, segwit_piece, AddressEncoding, Amount, InstructionModel, PopModel};

verus! {

/// `c` does not occur in `t`.
pub open spec fn lacks(t: Seq<char>, c: char) -> bool {
    forall|j: int| 0 <= j < t.len() ==> t[j] != c
}

/// Splitting `x`, `c`, `y` at the first `c`, where `x` holds no `c`, gives
/// `x` and `y`.
proof fn lemma_split_once_at(x: Seq<char>, c: char, y: Seq<char>)
    requires
        lacks(x, c),
    ensures
        crate::text::split_once_spec(x + seq![c] + y, c) == Some((x, y)),
        crate::text::before_first(x + seq![c] + y, c) == x,
        crate::text::after_first(x + seq![c] + y, c) == y,
{
    let t = x + seq![c] + y;
    let k = x.len() as int;
    assert(crate::text::is_first_index(t, c, k));
    let i = choose|i: int| crate::text::is_first_index(t, c, i);
    crate::text::lemma_first_index_unique(t, c, i, k);
    assert(t.take(k) =~= x);
    assert(t.skip(k + 1) =~= y);
}

/// Reading one parameter with a known key, where that step succeeds, then the
/// rest.
proof fn lemma_classify_step(
    st: ParamsModel,
    p: (Seq<char>, Seq<char>),
    rest: Seq<(Seq<char>, Seq<char>)>,
    amounts: Seq<Option<Amount>>,
    answers: Seq<HandlerAnswer>,
    next: ParamsModel,
)
    requires
        is_known_key(p.0),
        known_step_spec(st, p.0, p.1, amounts) == Some(Ok::<ParamsModel, crate::error::ErrorModel>(next)),
    ensures
        classify_spec(st, seq![p] + rest, amounts, answers) == classify_spec(next, rest, amounts, answers),
{
    assert((seq![p] + rest).drop_first() =~= rest);
}

/// The parser reads `t` back as written: lower-casing leaves it as it is, and
/// it holds no `&`.
pub open spec fn reads_as_written(t: Seq<char>) -> bool {
    lowercase_spec(t) == t && lacks(t, '&')
}

/// The keys that `build` writes, and the scheme, are their own lower case.
pub open spec fn keys_read_as_written() -> bool {
    &&& lowercase_spec("bitcoin"@) == "bitcoin"@
    &&& lowercase_spec("amount"@) == "amount"@
    &&& lowercase_spec("label"@) == "label"@
    &&& lowercase_spec("message"@) == "message"@
    &&& lowercase_spec("pop"@) == "pop"@
    &&& lowercase_spec("req-pop"@) == "req-pop"@
    &&& lowercase_spec("lightning"@) == "lightning"@
    &&& lowercase_spec("lno"@) == "lno"@
    &&& lowercase_spec("sp"@) == "sp"@
    &&& lowercase_spec("bc"@) == "bc"@
    &&& lowercase_spec("tb"@) == "tb"@
}

/// ASCII text without upper-case letters is its own lower case.
proof fn lemma_lowercase_keeps(s: Seq<char>)
    requires
        forall|i: int| 0 <= i < s.len() ==> '\0' <= #[trigger] s[i] <= '\u{7f}' && !('A' <= s[i] <= 'Z'),
    ensures
        lowercase_spec(s) == s,
{
    assert(s.map_values(|c: char| crate::text::ascii_lower_char(c)) =~= s);
}

/// An instruction that a query carries and the parser reads back into the
/// same instruction: a BOLT12 offer or a silent-payment address, read as
/// written.
pub open spec fn is_query_instruction(i: InstructionModel) -> bool {
    match i {
        InstructionModel::Bolt12(s) => reads_as_written(s),
        InstructionModel::SilentPayment(s) => reads_as_written(s),
        _ => false,
    }
}

proof fn lemma_instruction_pieces_plain(v: Seq<InstructionModel>)
    requires
        forall|i: int| 0 <= i < v.len() ==> !(#[trigger] v[i] is Onchain),
    ensures
        instruction_pieces(v) == v.map_values(|i: InstructionModel| instruction_value(i)),
    decreases v.len(),
{
    if v.len() > 0 {
        lemma_instruction_pieces_plain(v.drop_last());
        assert(v.map_values(|i: InstructionModel| instruction_value(i)) =~= v.drop_last().map_values(
            |i: InstructionModel| instruction_value(i),
        ).push(instruction_value(v.last())));
    } else {
        assert(v.map_values(|i: InstructionModel| instruction_value(i)) =~= Seq::<Seq<char>>::empty());
    }
}

proof fn lemma_instruction_pieces_after_onchain(first: InstructionModel, w: Seq<InstructionModel>)
    requires
        first is Onchain,
    ensures
        instruction_pieces(seq![first] + w) == instruction_pieces(w),
    decreases w.len(),
{
    let v = seq![first] + w;
    if w.len() == 0 {
        assert(v.drop_last() =~= Seq::<InstructionModel>::empty());
        assert(v.last() == first);
        assert(instruction_pieces(v) == instruction_pieces(v.drop_last()));
    } else {
        assert(v.drop_last() =~= seq![first] + w.drop_last());
        assert(v.last() == w.last());
        lemma_instruction_pieces_after_onchain(first, w.drop_last());
        if w.last() is Onchain {
            assert(instruction_pieces(v) == instruction_pieces(v.drop_last()));
            assert(instruction_pieces(w) == instruction_pieces(w.drop_last()));
        } else {
            assert(instruction_pieces(v) == instruction_pieces(v.drop_last()).push(instruction_value(v.last())));
            assert(instruction_pieces(w) == instruction_pieces(w.drop_last()).push(instruction_value(w.last())));
        }
    }
}

/// The pair the parser reads from the query text of an instruction.
pub open spec fn instruction_pair(i: InstructionModel) -> (Seq<char>, Seq<char>) {
    crate::parser::query_pair_spec(instruction_value(i))
}

/// Reading the pairs of query instructions appends those instructions.
proof fn lemma_classify_instructions(
    st: ParamsModel,
    v: Seq<InstructionModel>,
    rest: Seq<(Seq<char>, Seq<char>)>,
    amounts: Seq<Option<Amount>>,
    answers: Seq<HandlerAnswer>,
)
    requires
        forall|i: int| 0 <= i < v.len() ==> is_query_instruction(#[trigger] v[i]),
    ensures
        classify_spec(st, v.map_values(|i: InstructionModel| instruction_pair(i)) + rest, amounts, answers)
            == classify_spec(ParamsModel { instructions: st.instructions + v, ..st }, rest, amounts, answers),
    decreases v.len(),
{
    lemma_known_keys_distinct();
    lemma_key_literals();
    let pairs = v.map_values(|i: InstructionModel| instruction_pair(i));
    if v.len() == 0 {
        assert(st.instructions + v =~= st.instructions);
        assert(ParamsModel { instructions: st.instructions + v, ..st } == st);
        assert(pairs + rest =~= rest);
    } else {
        let head = v[0];
        assert(is_query_instruction(head));
        let (key, s): (Seq<char>, Seq<char>) = match head {
            InstructionModel::Lightning(s) => ("lightning"@, s),
            InstructionModel::Bolt12(s) => ("lno"@, s),
            InstructionModel::SilentPayment(s) => ("sp"@, s),
            _ => ("lno"@, Seq::empty()),
        };
        assert(instruction_value(head) == key + seq!['='] + s);
        lemma_pair_of(key, s);
        let next = ParamsModel { instructions: st.instructions.push(head), ..st };
        assert(known_step_spec(st, key, s, amounts) == Some(
            Ok::<ParamsModel, crate::error::ErrorModel>(next),
        ));
        let tail = v.drop_first().map_values(|i: InstructionModel| instruction_pair(i));
        assert(pairs + rest =~= seq![(key, s)] + (tail + rest));
        lemma_classify_step(st, (key, s), tail + rest, amounts, answers, next);
        lemma_classify_instructions(next, v.drop_first(), rest, amounts, answers);
        assert(next.instructions + v.drop_first() =~= st.instructions + v);
    }
}

proof fn lemma_non_empty_pieces_all(ps: Seq<Seq<char>>)
    requires
        forall|i: int| 0 <= i < ps.len() ==> (#[trigger] ps[i]).len() > 0,
    ensures
        crate::builder::non_empty_pieces(ps) == ps,
    decreases ps.len(),
{
    if ps.len() > 0 {
        lemma_non_empty_pieces_all(ps.drop_last());
        assert(ps.drop_last().push(ps.last()) =~= ps);
    }
}

proof fn lemma_join_not_empty(ps: Seq<Seq<char>>, sep: Seq<char>)
    requires
        ps.len() > 0,
        ps.last().len() > 0,
    ensures
        crate::text::join_spec(ps, sep).len() > 0,
{
}

/// Reading an optional parameter (none, or one with a known key whose step
/// succeeds), then the rest.
proof fn lemma_classify_optional(
    st: ParamsModel,
    opt: Seq<(Seq<char>, Seq<char>)>,
    rest: Seq<(Seq<char>, Seq<char>)>,
    amounts: Seq<Option<Amount>>,
    answers: Seq<HandlerAnswer>,
    next: ParamsModel,
)
    requires
        opt.len() == 0 ==> next == st,
        opt.len() == 1 ==> is_known_key(opt[0].0) && known_step_spec(st, opt[0].0, opt[0].1, amounts)
            == Some(Ok::<ParamsModel, crate::error::ErrorModel>(next)),
        opt.len() <= 1,
    ensures
        classify_spec(st, opt + rest, amounts, answers) == classify_spec(next, rest, amounts, answers),
{
    if opt.len() == 0 {
        assert(opt + rest =~= rest);
    } else {
        assert(opt =~= seq![opt[0]]);
        lemma_classify_step(st, opt[0], rest, amounts, answers, next);
    }
}

/// The pair the parser reads from `key=value`, where the key holds no `=`
/// and reads as written: the key and the lower-cased value.
proof fn lemma_pair_of(key: Seq<char>, value: Seq<char>)
    requires
        lacks(key, '='),
        lowercase_spec(key) == key,
    ensures
        crate::parser::query_pair_spec(key + seq!['='] + value) == (key, lowercase_spec(value)),
{
    lemma_split_once_at(key, '=', value);
}

/// The pair the parser reads from a query piece.
pub open spec fn piece_pair(p: Seq<char>) -> (Seq<char>, Seq<char>) {
    crate::parser::query_pair_spec(p)
}

/// The instructions a URI's query carries: those after the address, which is
/// the first instruction where there is one.
pub open spec fn query_instructions(u: crate::types::UriModel) -> Seq<InstructionModel> {
    if u.address is Some {
        u.instructions.drop_first()
    } else {
        u.instructions
    }
}

/// Does the query end with a segwit instruction?
pub open spec fn ends_with_segwit(u: crate::types::UriModel) -> bool {
    query_instructions(u).len() > 0 && query_instructions(u).last() is Segwit
}

/// The addresses of the segwit instruction that ends the query, if any.
pub open spec fn segwit_addresses(u: crate::types::UriModel) -> Seq<(AddressEncoding, Seq<char>)> {
    if ends_with_segwit(u) {
        query_instructions(u).last()->Segwit_0
    } else {
        Seq::empty()
    }
}

/// The query instructions before a final segwit instruction.
pub open spec fn plain_instructions(u: crate::types::UriModel) -> Seq<InstructionModel> {
    if ends_with_segwit(u) {
        query_instructions(u).drop_last()
    } else {
        query_instructions(u)
    }
}

/// A segwit address that the parser reads back under its key (`bc` or
/// `tb`): its text begins with `bc` or `tb`, reads as written, and reads back
/// as the same address.
pub open spec fn is_segwit_address(a: (AddressEncoding, Seq<char>)) -> bool {
    &&& crate::parser::has_prefix(a.1, "bc"@) || crate::parser::has_prefix(a.1, "tb"@)
    &&& reads_as_written(a.1)
    &&& crate::parser::validate_address_spec(a.1) == Ok::<_, crate::error::ErrorModel>(a)
}

/// The amounts to parse a written URI with: its own amount, if it has one.
pub open spec fn own_amounts(u: crate::types::UriModel) -> Seq<Option<Amount>> {
    match u.amount {
        Some(a) => seq![Some(a)],
        None => Seq::empty(),
    }
}

/// A URI that `build` writes in a form the parser reads back: its address
/// (if any) reads back as itself and comes first among the instructions; the
/// other instructions are Lightning invoices, BOLT12 offers and
/// silent-payment addresses, possibly followed by one segwit instruction of
/// `bc` or `tb` addresses; the label and message hold no upper-case ASCII
/// letter (they are percent-encoded, and read back from the lower-cased
/// encoding); every other text written is its own lower case and holds no
/// `&` (and the address no `?`); a required callback has an allowed scheme.
/// Its unknown parameters, which `build` does not write, may be anything.
pub open spec fn round_trips(u: crate::types::UriModel, amount_text: Seq<char>) -> bool {
    &&& match u.address {
        Some(a) => {
            &&& crate::parser::validate_address_spec(a.1) == Ok::<_, crate::error::ErrorModel>(a)
            &&& a.1.len() > 0
            &&& lacks(a.1, '?')
            &&& u.instructions.len() > 0
            &&& u.instructions[0] == InstructionModel::Onchain(a)
        },
        None => true,
    }
    &&& u.amount is Some ==> reads_as_written(amount_text)
    &&& u.label matches Some(l) ==> crate::laws::no_upper_chars(l)
    &&& u.message matches Some(m) ==> crate::laws::no_upper_chars(m)
    &&& match u.pop {
        None => true,
        Some(PopModel::Optional(s)) => reads_as_written(s),
        Some(PopModel::Required(s)) => reads_as_written(s)
            && crate::pop::pop_scheme_check_spec(PopModel::Required(s)) matches Some(Ok(_)),
        Some(PopModel::Empty) => false,
    }
    &&& forall|i: int|
        0 <= i < plain_instructions(u).len() ==> is_query_instruction(
            #[trigger] plain_instructions(u)[i],
        )
    &&& ends_with_segwit(u) ==> segwit_addresses(u).len() > 0
    &&& forall|i: int|
        0 <= i < segwit_addresses(u).len() ==> is_segwit_address(#[trigger] segwit_addresses(u)[i])
}

/// The pieces the parser reads from a written URI: those `build` writes, the
/// segwit piece taken apart into one `bc=` piece per address.
pub open spec fn written_pieces(u: crate::types::UriModel, amount_text: Seq<char>) -> Seq<Seq<char>> {
    crate::builder::amount_piece(u, amount_text) + crate::builder::label_piece(u)
        + crate::builder::message_piece(u) + crate::builder::pop_piece(u) + plain_instructions(
        u,
    ).map_values(|i: InstructionModel| instruction_value(i)) + segwit_addresses(u).map_values(
        |a: (AddressEncoding, Seq<char>)| segwit_piece(a),
    )
}

proof fn lemma_lacks_concat(x: Seq<char>, y: Seq<char>, c: char)
    requires
        lacks(x, c),
        lacks(y, c),
    ensures
        lacks(x + y, c),
{
    assert forall|j: int| 0 <= j < (x + y).len() implies (x + y)[j] != c by {
        if j >= x.len() {
            assert((x + y)[j] == y[j - x.len()]);
        }
    }
}

/// `key=` followed by a value the parser reads as written.
proof fn lemma_piece(key: Seq<char>, key_eq: Seq<char>, value: Seq<char>)
    requires
        key_eq == key + seq!['='],
        lacks(key, '='),
        lacks(key, '&'),
        lowercase_spec(key) == key,
        reads_as_written(value),
    ensures
        key_eq + value == key + seq!['='] + value,
        crate::parser::query_pair_spec(key_eq + value) == (key, value),
        (key_eq + value).len() > 0,
        lacks(key_eq + value, '&'),
{
    lemma_pair_of(key, value);
    lemma_lacks_concat(key, seq!['='], '&');
    lemma_lacks_concat(key_eq, value, '&');
}

/// `key=` followed by a percent-encoded value without upper-case letters:
/// the parser reads the key and the lower-cased encoding, which decodes back
/// to the value.
proof fn lemma_encoded_piece(key: Seq<char>, key_eq: Seq<char>, value: Seq<char>)
    requires
        key_eq == key + seq!['='],
        lacks(key, '='),
        lacks(key, '&'),
        lowercase_spec(key) == key,
        crate::laws::no_upper_chars(value),
    ensures
        crate::parser::query_pair_spec(key_eq + url_encode_spec(value)) == (
            key,
            lowercase_spec(url_encode_spec(value)),
        ),
        url_decode_spec(lowercase_spec(url_encode_spec(value))) == Some(value),
        (key_eq + url_encode_spec(value)).len() > 0,
        lacks(key_eq + url_encode_spec(value), '&'),
{
    let enc = url_encode_spec(value);
    law_percent_round_trip_lowered(value);
    crate::laws::lemma_encoding_lacks_amp(value);
    lemma_pair_of(key, enc);
    lemma_lacks_concat(key, seq!['='], '&');
    lemma_lacks_concat(key_eq, enc, '&');
}

/// Each `key=` that `build` writes is its key and `=`; no key holds `=` or `&`.
proof fn lemma_key_literals()
    ensures
        "amount="@ == "amount"@ + seq!['='],
        "label="@ == "label"@ + seq!['='],
        "message="@ == "message"@ + seq!['='],
        "pop="@ == "pop"@ + seq!['='],
        "req-pop="@ == "req-pop"@ + seq!['='],
        "lightning="@ == "lightning"@ + seq!['='],
        "lno="@ == "lno"@ + seq!['='],
        "sp="@ == "sp"@ + seq!['='],
        "bc="@ == "bc"@ + seq!['='],
        "tb="@ == "tb"@ + seq!['='],
        "="@ == seq!['='],
        lacks("amount"@, '=') && lacks("amount"@, '&'),
        lacks("label"@, '=') && lacks("label"@, '&'),
        lacks("message"@, '=') && lacks("message"@, '&'),
        lacks("pop"@, '=') && lacks("pop"@, '&'),
        lacks("req-pop"@, '=') && lacks("req-pop"@, '&'),
        lacks("lightning"@, '=') && lacks("lightning"@, '&'),
        lacks("lno"@, '=') && lacks("lno"@, '&'),
        lacks("sp"@, '=') && lacks("sp"@, '&'),
        lacks("bc"@, '=') && lacks("bc"@, '&'),
        lacks("tb"@, '=') && lacks("tb"@, '&'),
        lacks("bitcoin"@, ':'),
        keys_read_as_written(),
{
    reveal_strlit("bitcoin");
    reveal_strlit("amount=");
    reveal_strlit("amount");
    reveal_strlit("label=");
    reveal_strlit("label");
    reveal_strlit("message=");
    reveal_strlit("message");
    reveal_strlit("pop=");
    reveal_strlit("pop");
    reveal_strlit("req-pop=");
    reveal_strlit("req-pop");
    reveal_strlit("lightning=");
    reveal_strlit("lightning");
    reveal_strlit("tb=");
    reveal_strlit("tb");
    reveal_strlit("=");
    reveal_strlit("lno=");
    reveal_strlit("lno");
    reveal_strlit("sp=");
    reveal_strlit("sp");
    reveal_strlit("bc=");
    reveal_strlit("bc");
    assert("amount="@ =~= "amount"@ + seq!['=']);
    assert("label="@ =~= "label"@ + seq!['=']);
    assert("message="@ =~= "message"@ + seq!['=']);
    assert("pop="@ =~= "pop"@ + seq!['=']);
    assert("req-pop="@ =~= "req-pop"@ + seq!['=']);
    assert("lightning="@ =~= "lightning"@ + seq!['=']);
    assert("tb="@ =~= "tb"@ + seq!['=']);
    lemma_lowercase_keeps("bitcoin"@);
    lemma_lowercase_keeps("amount"@);
    lemma_lowercase_keeps("label"@);
    lemma_lowercase_keeps("message"@);
    lemma_lowercase_keeps("pop"@);
    lemma_lowercase_keeps("req-pop"@);
    lemma_lowercase_keeps("lightning"@);
    lemma_lowercase_keeps("lno"@);
    lemma_lowercase_keeps("sp"@);
    lemma_lowercase_keeps("bc"@);
    lemma_lowercase_keeps("tb"@);
    assert("lno="@ =~= "lno"@ + seq!['=']);
    assert("sp="@ =~= "sp"@ + seq!['=']);
    assert("bc="@ =~= "bc"@ + seq!['=']);
}

/// The pair the parser reads from a query piece.
proof fn lemma_join_append(a: Seq<Seq<char>>, b: Seq<Seq<char>>, sep: Seq<char>)
    requires
        a.len() > 0,
        b.len() > 0,
    ensures
        join_spec(a + b, sep) == join_spec(a, sep) + sep + join_spec(b, sep),
    decreases b.len(),
{
    if b.len() == 1 {
        assert((a + b).drop_last() =~= a);
        assert(join_spec(b, sep) == b[0]);
    } else {
        lemma_join_append(a, b.drop_last(), sep);
        assert((a + b).drop_last() =~= a + b.drop_last());
        assert((join_spec(a, sep) + sep + join_spec(b.drop_last(), sep)) + sep + b.last()
            =~= join_spec(a, sep) + sep + (join_spec(b.drop_last(), sep) + sep + b.last()));
    }
}

/// The instruction pieces of a round-tripping URI: its plain instructions'
/// texts, then the segwit piece.
proof fn lemma_round_trip_instruction_pieces(u: crate::types::UriModel, amount_text: Seq<char>)
    requires
        round_trips(u, amount_text),
    ensures
        instruction_pieces(u.instructions) == plain_instructions(u).map_values(
            |i: InstructionModel| instruction_value(i),
        ) + (if ends_with_segwit(u) {
            seq![instruction_value(InstructionModel::Segwit(segwit_addresses(u)))]
        } else {
            Seq::empty()
        }),
{
    let qi = query_instructions(u);
    let plain = plain_instructions(u);
    assert forall|i: int| 0 <= i < plain.len() implies !(#[trigger] plain[i] is Onchain) by {
        assert(is_query_instruction(plain[i]));
    }
    lemma_instruction_pieces_plain(plain);
    if ends_with_segwit(u) {
        assert(qi =~= plain.push(qi.last()));
        assert(instruction_pieces(qi) == instruction_pieces(plain).push(instruction_value(qi.last())));
    } else {
        assert(qi == plain);
    }
    if u.address is Some {
        assert(u.instructions =~= seq![u.instructions[0]] + qi);
        lemma_instruction_pieces_after_onchain(u.instructions[0], qi);
    }
    assert(plain.map_values(|i: InstructionModel| instruction_value(i)) + (if ends_with_segwit(u) {
        seq![instruction_value(InstructionModel::Segwit(segwit_addresses(u)))]
    } else {
        Seq::empty()
    }) =~= instruction_pieces(qi));
}

/// The written pieces of a round-tripping URI are not empty and hold no `&`.
proof fn lemma_written_pieces_fine(u: crate::types::UriModel, amount_text: Seq<char>)
    requires
        round_trips(u, amount_text),
    ensures
        forall|i: int|
            0 <= i < written_pieces(u, amount_text).len() ==> (#[trigger] written_pieces(
                u,
                amount_text,
            )[i]).len() > 0 && lacks(written_pieces(u, amount_text)[i], '&'),
{
    lemma_key_literals();
    let pieces = written_pieces(u, amount_text);
    let plain = plain_instructions(u);
    let seg = segwit_addresses(u);
    let pa = crate::builder::amount_piece(u, amount_text);
    let pl = crate::builder::label_piece(u);
    let pm = crate::builder::message_piece(u);
    let pp = crate::builder::pop_piece(u);
    if u.amount is Some {
        lemma_piece("amount"@, "amount="@, amount_text);
    }
    if let Some(l) = u.label {
        lemma_encoded_piece("label"@, "label="@, l);
    }
    if let Some(m) = u.message {
        lemma_encoded_piece("message"@, "message="@, m);
    }
    match u.pop {
        Some(PopModel::Required(s)) => lemma_piece("req-pop"@, "req-pop="@, s),
        Some(PopModel::Optional(s)) => lemma_piece("pop"@, "pop="@, s),
        _ => {},
    }
    let h = pa.len() + pl.len() + pm.len() + pp.len();
    assert forall|i: int| 0 <= i < pieces.len() implies (#[trigger] pieces[i]).len() > 0 && lacks(
        pieces[i],
        '&',
    ) by {
        let k = i - h;
        if 0 <= k < plain.len() {
            let ins = plain[k];
            assert(pieces[i] == instruction_value(ins));
            assert(is_query_instruction(ins));
            match ins {
                InstructionModel::Lightning(s) => lemma_piece("lightning"@, "lightning="@, s),
                InstructionModel::Bolt12(s) => lemma_piece("lno"@, "lno="@, s),
                InstructionModel::SilentPayment(s) => lemma_piece("sp"@, "sp="@, s),
                _ => {},
            }
        } else if k >= plain.len() {
            let a = seg[k - plain.len()];
            assert(pieces[i] == segwit_piece(a));
            assert(is_segwit_address(a));
            if crate::parser::has_prefix(a.1, "tb"@) {
                lemma_piece("tb"@, "tb="@, a.1);
                assert(segwit_piece(a) =~= "tb="@ + a.1);
            } else {
                lemma_piece("bc"@, "bc="@, a.1);
                assert(segwit_piece(a) =~= "bc="@ + a.1);
            }
        }
    }
}

/// What `build` writes for a round-tripping URI: `bitcoin:`, the body, `?`
/// and the written pieces joined with `&`.
proof fn lemma_round_trip_query(u: crate::types::UriModel, amount_text: Seq<char>)
    requires
        round_trips(u, amount_text),
        written_pieces(u, amount_text).len() > 0,
    ensures
        crate::builder::query_spec(u, amount_text) == join_spec(written_pieces(u, amount_text), "&"@),
        join_spec(written_pieces(u, amount_text), "&"@).len() > 0,
{
    lemma_key_literals();
    lemma_written_pieces_fine(u, amount_text);
    lemma_round_trip_instruction_pieces(u, amount_text);
    let written = written_pieces(u, amount_text);
    let seg = segwit_addresses(u);
    let seg_pieces = seg.map_values(|a: (AddressEncoding, Seq<char>)| segwit_piece(a));
    let x = crate::builder::amount_piece(u, amount_text) + crate::builder::label_piece(u)
        + crate::builder::message_piece(u) + crate::builder::pop_piece(u) + plain_instructions(
        u,
    ).map_values(|i: InstructionModel| instruction_value(i));
    let pieces = query_pieces(u, amount_text);
    assert(written == x + seg_pieces);
    if ends_with_segwit(u) {
        let sp = join_spec(seg_pieces, "&"@);
        assert(seg_pieces.len() > 0);
        assert(seg_pieces.last().len() > 0 && lacks(seg_pieces.last(), '&')) by {
            assert(written[written.len() - 1] == seg_pieces.last());
        }
        lemma_join_not_empty(seg_pieces, "&"@);
        assert(pieces =~= x.push(sp));
        assert forall|i: int| 0 <= i < pieces.len() implies (#[trigger] pieces[i]).len() > 0 by {
            if i < x.len() {
                assert(pieces[i] == written[i]);
            }
        }
        lemma_non_empty_pieces_all(pieces);
        if x.len() == 0 {
            assert(pieces =~= seq![sp]);
            assert(written =~= seg_pieces);
        } else {
            lemma_join_append(x, seg_pieces, "&"@);
            assert(pieces.drop_last() =~= x);
        }
        assert(written.last() == seg_pieces.last());
    } else {
        assert(pieces =~= x);
        assert(written =~= x);
        lemma_non_empty_pieces_all(pieces);
    }
    lemma_join_not_empty(written, "&"@);
}

/// The written text of a round-tripping URI has its scheme, its body and the
/// pairs of its written pieces.
proof fn lemma_round_trip_text(u: crate::types::UriModel, amount_text: Seq<char>)
    requires
        round_trips(u, amount_text),
        written_pieces(u, amount_text).len() > 0,
    ensures
        crate::parser::prepare_spec(crate::builder::build_spec(u, amount_text)) == Ok::<
            _,
            crate::error::ErrorModel,
        >((u.address, written_pieces(u, amount_text).map_values(|p: Seq<char>| piece_pair(p)))),
{
    lemma_key_literals();
    lemma_round_trip_query(u, amount_text);
    lemma_written_pieces_fine(u, amount_text);
    let written = written_pieces(u, amount_text);
    law_split_undoes_join(written);
    let query = join_spec(written, "&"@);
    let body = crate::builder::body_spec(u.address);
    let rest = body + seq!['?'] + query;
    assert(crate::builder::build_spec(u, amount_text) =~= "bitcoin"@ + seq![':'] + rest) by {
        reveal_strlit("bitcoin:");
        reveal_strlit("bitcoin");
        reveal_strlit("?");
    }
    lemma_split_once_at("bitcoin"@, ':', rest);
    lemma_split_once_at(body, '?', query);
    assert(crate::parser::query_pairs_spec(query) =~= written.map_values(|p: Seq<char>| piece_pair(p)));
}

proof fn lemma_step_amount(st: ParamsModel, value: Seq<char>, amounts: Seq<Option<Amount>>)
    requires
        st.amount is None,
        st.amounts_seen == 0,
        amounts.len() > 0,
    ensures
        known_step_spec(st, "amount"@, value, amounts) == Some(
            Ok::<ParamsModel, crate::error::ErrorModel>(
                ParamsModel { amount: amounts[0], amounts_seen: 1, ..st },
            ),
        ),
{
}

proof fn lemma_step_label(st: ParamsModel, l: Seq<char>, amounts: Seq<Option<Amount>>)
    requires
        st.label is None,
        crate::laws::no_upper_chars(l),
    ensures
        known_step_spec(st, "label"@, lowercase_spec(url_encode_spec(l)), amounts) == Some(
            Ok::<ParamsModel, crate::error::ErrorModel>(ParamsModel { label: Some(l), ..st }),
        ),
{
    lemma_known_keys_distinct();
    law_percent_round_trip_lowered(l);
}

proof fn lemma_step_message(st: ParamsModel, m: Seq<char>, amounts: Seq<Option<Amount>>)
    requires
        st.message is None,
        crate::laws::no_upper_chars(m),
    ensures
        known_step_spec(st, "message"@, lowercase_spec(url_encode_spec(m)), amounts) == Some(
            Ok::<ParamsModel, crate::error::ErrorModel>(ParamsModel { message: Some(m), ..st }),
        ),
{
    lemma_known_keys_distinct();
    law_percent_round_trip_lowered(m);
}

proof fn lemma_step_pop(st: ParamsModel, p: PopModel, key: Seq<char>, v: Seq<char>, amounts: Seq<Option<Amount>>)
    requires
        st.pop is None,
        (p == PopModel::Optional(v) && key == "pop"@) || (p == PopModel::Required(v) && key
            == "req-pop"@ && crate::pop::pop_scheme_check_spec(p) matches Some(Ok(_))),
    ensures
        is_known_key(key),
        known_step_spec(st, key, v, amounts) == Some(
            Ok::<ParamsModel, crate::error::ErrorModel>(ParamsModel { pop: Some(p), ..st }),
        ),
{
    lemma_known_keys_distinct();
}

/// Reading the pairs of segwit addresses adds them to the segwit addresses.
proof fn lemma_classify_segwit(
    st: ParamsModel,
    v: Seq<(AddressEncoding, Seq<char>)>,
    amounts: Seq<Option<Amount>>,
    answers: Seq<HandlerAnswer>,
)
    requires
        forall|i: int| 0 <= i < v.len() ==> is_segwit_address(#[trigger] v[i]),
    ensures
        classify_spec(
            st,
            v.map_values(|a: (AddressEncoding, Seq<char>)| piece_pair(segwit_piece(a))),
            amounts,
            answers,
        ) == Some(
            Ok::<ParamsModel, crate::error::ErrorModel>(ParamsModel { segwit: st.segwit + v, ..st }),
        ),
    decreases v.len(),
{
    lemma_known_keys_distinct();
    lemma_key_literals();
    let pairs = v.map_values(|a: (AddressEncoding, Seq<char>)| piece_pair(segwit_piece(a)));
    if v.len() == 0 {
        assert(st.segwit + v =~= st.segwit);
        assert(ParamsModel { segwit: st.segwit + v, ..st } == st);
    } else {
        let a = v[0];
        assert(is_segwit_address(a));
        let key = crate::types::segwit_key(a);
        assert(key == "tb"@ || key == "bc"@);
        assert(crate::parser::has_prefix(a.1, key));
        assert(segwit_piece(a) =~= key + seq!['='] + a.1);
        lemma_pair_of(key, a.1);
        let next = ParamsModel { segwit: st.segwit.push(a), ..st };
        assert(is_known_key(key));
        assert(known_step_spec(st, key, a.1, amounts) == Some(
            Ok::<ParamsModel, crate::error::ErrorModel>(next),
        ));
        let tail = v.drop_first().map_values(
            |a: (AddressEncoding, Seq<char>)| piece_pair(segwit_piece(a)),
        );
        assert(pairs =~= seq![(key, a.1)] + tail);
        lemma_classify_step(st, (key, a.1), tail, amounts, answers, next);
        lemma_classify_segwit(next, v.drop_first(), amounts, answers);
        assert(next.segwit + v.drop_first() =~= st.segwit + v);
    }
}

/// The pairs of a round-tripping URI's written pieces, part by part.
proof fn lemma_round_trip_pairs(u: crate::types::UriModel, amount_text: Seq<char>)
    ensures
        written_pieces(u, amount_text).map_values(|p: Seq<char>| piece_pair(p))
            == crate::builder::amount_piece(u, amount_text).map_values(|p: Seq<char>| piece_pair(p))
            + (crate::builder::label_piece(u).map_values(|p: Seq<char>| piece_pair(p))
            + (crate::builder::message_piece(u).map_values(|p: Seq<char>| piece_pair(p))
            + (crate::builder::pop_piece(u).map_values(|p: Seq<char>| piece_pair(p))
            + (plain_instructions(u).map_values(|i: InstructionModel| instruction_pair(i))
            + segwit_addresses(u).map_values(
            |a: (AddressEncoding, Seq<char>)| piece_pair(segwit_piece(a)),
        ))))),
{
    assert(written_pieces(u, amount_text).map_values(|p: Seq<char>| piece_pair(p))
        =~= crate::builder::amount_piece(u, amount_text).map_values(|p: Seq<char>| piece_pair(p))
        + (crate::builder::label_piece(u).map_values(|p: Seq<char>| piece_pair(p))
        + (crate::builder::message_piece(u).map_values(|p: Seq<char>| piece_pair(p))
        + (crate::builder::pop_piece(u).map_values(|p: Seq<char>| piece_pair(p))
        + (plain_instructions(u).map_values(|i: InstructionModel| instruction_pair(i))
        + segwit_addresses(u).map_values(
        |a: (AddressEncoding, Seq<char>)| piece_pair(segwit_piece(a)),
    ))))));
}

/// Reading the pairs of a round-tripping URI's written pieces gives back its
/// fields.
proof fn lemma_round_trip_read(
    u: crate::types::UriModel,
    amount_text: Seq<char>,
    answers: Seq<HandlerAnswer>,
)
    requires
        round_trips(u, amount_text),
    ensures
        classify_spec(
            crate::parser::initial_params(u.address),
            written_pieces(u, amount_text).map_values(|p: Seq<char>| piece_pair(p)),
            own_amounts(u),
            answers,
        ) matches Some(Ok(fin)) && crate::parser::finish_spec(u.address, fin) == without_unknown(u),
{
    lemma_key_literals();
    let amounts = own_amounts(u);
    let plain = plain_instructions(u);
    let seg = segwit_addresses(u);
    let qa = crate::builder::amount_piece(u, amount_text).map_values(|p: Seq<char>| piece_pair(p));
    let ql = crate::builder::label_piece(u).map_values(|p: Seq<char>| piece_pair(p));
    let qm = crate::builder::message_piece(u).map_values(|p: Seq<char>| piece_pair(p));
    let qp = crate::builder::pop_piece(u).map_values(|p: Seq<char>| piece_pair(p));
    let qn = plain.map_values(|i: InstructionModel| instruction_pair(i));
    let qs = seg.map_values(|a: (AddressEncoding, Seq<char>)| piece_pair(segwit_piece(a)));
    lemma_round_trip_pairs(u, amount_text);
    let st0 = crate::parser::initial_params(u.address);
    let st1 = if u.amount is Some {
        ParamsModel { amount: u.amount, amounts_seen: 1, ..st0 }
    } else {
        st0
    };
    if u.amount is Some {
        lemma_piece("amount"@, "amount="@, amount_text);
        assert(qa =~= seq![("amount"@, amount_text)]);
        lemma_step_amount(st0, amount_text, amounts);
    }
    lemma_classify_optional(st0, qa, ql + (qm + (qp + (qn + qs))), amounts, answers, st1);
    let st2 = ParamsModel { label: u.label, ..st1 };
    if let Some(l) = u.label {
        lemma_encoded_piece("label"@, "label="@, l);
        assert(ql =~= seq![("label"@, lowercase_spec(url_encode_spec(l)))]);
        lemma_step_label(st1, l, amounts);
    } else {
        assert(st2 == st1);
    }
    lemma_classify_optional(st1, ql, qm + (qp + (qn + qs)), amounts, answers, st2);
    let st3 = ParamsModel { message: u.message, ..st2 };
    if let Some(m) = u.message {
        lemma_encoded_piece("message"@, "message="@, m);
        assert(qm =~= seq![("message"@, lowercase_spec(url_encode_spec(m)))]);
        lemma_step_message(st2, m, amounts);
    } else {
        assert(st3 == st2);
    }
    lemma_classify_optional(st2, qm, qp + (qn + qs), amounts, answers, st3);
    let st4 = ParamsModel { pop: u.pop, ..st3 };
    match u.pop {
        Some(PopModel::Required(s)) => {
            lemma_piece("req-pop"@, "req-pop="@, s);
            assert(qp =~= seq![("req-pop"@, s)]);
            lemma_step_pop(st3, PopModel::Required(s), "req-pop"@, s, amounts);
        },
        Some(PopModel::Optional(s)) => {
            lemma_piece("pop"@, "pop="@, s);
            assert(qp =~= seq![("pop"@, s)]);
            lemma_step_pop(st3, PopModel::Optional(s), "pop"@, s, amounts);
        },
        _ => {
            assert(st4 == st3);
        },
    }
    lemma_classify_optional(st3, qp, qn + qs, amounts, answers, st4);
    lemma_classify_instructions(st4, plain, qs, amounts, answers);
    let st5 = ParamsModel { instructions: st4.instructions + plain, ..st4 };
    lemma_classify_segwit(st5, seg, amounts, answers);
    let st6 = ParamsModel { segwit: st5.segwit + seg, ..st5 };
    assert(st6.segwit =~= seg);
    let qi = query_instructions(u);
    if ends_with_segwit(u) {
        assert(qi =~= plain.push(InstructionModel::Segwit(seg)));
    }
    if u.address is Some {
        assert(u.instructions =~= seq![u.instructions[0]] + qi);
    }
    assert(crate::parser::finish_spec(u.address, st6).instructions =~= u.instructions);
    assert(st6.unknown =~= Seq::<(Seq<char>, Seq<char>)>::empty());
    assert(crate::parser::finish_spec(u.address, st6) == without_unknown(u));
}

/// A round-tripping URI that writes no query piece: it has only an address
/// (or nothing), and `build` writes no query.
proof fn lemma_empty_query(u: crate::types::UriModel, amount_text: Seq<char>)
    requires
        round_trips(u, amount_text),
        written_pieces(u, amount_text).len() == 0,
    ensures
        crate::builder::query_spec(u, amount_text).len() == 0,
        u.amount is None,
        u.label is None,
        u.message is None,
        u.pop is None,
        u.instructions == crate::parser::initial_params(u.address).instructions,
{
    lemma_round_trip_instruction_pieces(u, amount_text);
    let plain = plain_instructions(u);
    let seg = segwit_addresses(u);
    let pa = crate::builder::amount_piece(u, amount_text);
    let pl = crate::builder::label_piece(u);
    let pm = crate::builder::message_piece(u);
    let pp = crate::builder::pop_piece(u);
    let pn = plain.map_values(|i: InstructionModel| instruction_value(i));
    let ps = seg.map_values(|a: (AddressEncoding, Seq<char>)| segwit_piece(a));
    assert(written_pieces(u, amount_text) == pa + pl + pm + pp + pn + ps);
    assert(pa.len() == 0 && pl.len() == 0 && pm.len() == 0 && pp.len() == 0);
    assert(pn.len() == 0 && ps.len() == 0);
    assert(!ends_with_segwit(u));
    assert(plain.len() == 0);
    let qi = query_instructions(u);
    assert(qi == plain);
    assert(instruction_pieces(u.instructions) =~= Seq::<Seq<char>>::empty());
    assert(query_pieces(u, amount_text) =~= Seq::<Seq<char>>::empty());
    assert(crate::builder::non_empty_pieces(query_pieces(u, amount_text)) =~= Seq::<Seq<char>>::empty());
    if u.address is Some {
        assert(u.instructions =~= seq![u.instructions[0]] + qi);
    } else {
        assert(u.instructions == qi);
    }
    assert(u.instructions =~= crate::parser::initial_params(u.address).instructions);
}

/// Splitting a text at a character it lacks finds no occurrence.
proof fn lemma_split_once_none(t: Seq<char>, c: char)
    requires
        lacks(t, c),
    ensures
        crate::text::split_once_spec(t, c) is None,
        crate::text::before_first(t, c) == t,
        crate::text::after_first(t, c) == Seq::<char>::empty(),
{
    assert(!exists|i: int| crate::text::is_first_index(t, c, i));
}

/// What `build` writes for a URI without a query reads back as its address
/// and one empty pair.
proof fn lemma_empty_query_text(u: crate::types::UriModel, amount_text: Seq<char>)
    requires
        round_trips(u, amount_text),
        written_pieces(u, amount_text).len() == 0,
    ensures
        crate::parser::prepare_spec(crate::builder::build_spec(u, amount_text)) == Ok::<
            _,
            crate::error::ErrorModel,
        >((u.address, seq![(Seq::<char>::empty(), Seq::<char>::empty())])),
{
    lemma_key_literals();
    lemma_empty_query(u, amount_text);
    let body = crate::builder::body_spec(u.address);
    assert(crate::builder::build_spec(u, amount_text) =~= "bitcoin"@ + seq![':'] + body) by {
        reveal_strlit("bitcoin:");
        reveal_strlit("bitcoin");
    }
    lemma_split_once_at("bitcoin"@, ':', body);
    assert(lacks(body, '?'));
    lemma_split_once_none(body, '?');
    let empty = Seq::<char>::empty();
    lemma_split_once_none(empty, '&');
    lemma_split_once_none(empty, '=');
    assert(crate::text::split_spec(empty, '&') =~= seq![empty]);
    lemma_lowercase_keeps(empty);
    assert(crate::parser::query_pair_spec(empty) == (empty, empty));
    assert(crate::parser::query_pairs_spec(empty) =~= seq![(empty, empty)]);
}

/// `u` without its unknown parameters.
pub open spec fn without_unknown(u: crate::types::UriModel) -> crate::types::UriModel {
    crate::types::UriModel { unknown: Seq::empty(), ..u }
}

/// What parsing the text `build` writes for a round-tripping URI gives: the
/// URI without its unknown parameters (which `build` does not write). Where
/// the query is empty, the parser reads one empty pair, which goes to the
/// handler: kept as an unknown pair where it does not support it, dropped
/// where it handles it, and the handler's error where it gives one.
pub open spec fn read_back(
    u: crate::types::UriModel,
    amount_text: Seq<char>,
    answers: Seq<HandlerAnswer>,
) -> Option<Result<crate::types::UriModel, crate::error::ErrorModel>> {
    if crate::builder::query_spec(u, amount_text).len() > 0 {
        Some(Ok(without_unknown(u)))
    } else {
        match crate::parser::first_answer(answers) {
            HandlerAnswer::Unsupported => Some(
                Ok(
                    crate::types::UriModel {
                        unknown: seq![(Seq::<char>::empty(), Seq::<char>::empty())],
                        ..u
                    },
                ),
            ),
            HandlerAnswer::Handled(None) => Some(Ok(without_unknown(u))),
            HandlerAnswer::Handled(Some(e)) => Some(Err(e)),
        }
    }
}

/// Parsing what `build` writes gives back the URI, for a URI that round-trips
/// (see `round_trips`), with its own amount given for the amount it writes:
/// all of it but its unknown parameters, which `build` does not write. Where
/// the query is not empty this holds whatever the handler answers; where it
/// is empty, see `read_back`.
pub proof fn law_build_then_parse(
    u: crate::types::UriModel,
    amount_text: Seq<char>,
    answers: Seq<HandlerAnswer>,
)
    requires
        round_trips(u, amount_text),
    ensures
        parse_spec(crate::builder::build_spec(u, amount_text), own_amounts(u), answers)
            == read_back(u, amount_text, answers),
{
    if written_pieces(u, amount_text).len() > 0 {
        lemma_round_trip_query(u, amount_text);
        lemma_round_trip_text(u, amount_text);
        lemma_round_trip_read(u, amount_text, answers);
    } else {
        lemma_empty_query(u, amount_text);
        lemma_empty_query_text(u, amount_text);
        let empty = Seq::<char>::empty();
        let st = crate::parser::initial_params(u.address);
        lemma_known_keys_distinct();
        assert(!is_known_key(empty));
        assert(!crate::parser::has_prefix(empty, "req-"@)) by {
            reveal_strlit("req-");
        }
        let pairs = seq![(empty, empty)];
        assert(pairs.drop_first() =~= Seq::<(Seq<char>, Seq<char>)>::empty());
        match crate::parser::first_answer(answers) {
            HandlerAnswer::Unsupported => {
                let next = ParamsModel { unknown: st.unknown.push((empty, empty)), ..st };
                assert(crate::parser::unknown_step_spec(st, empty, empty, HandlerAnswer::Unsupported)
                    == Ok::<ParamsModel, crate::error::ErrorModel>(next));
                assert(classify_spec(
                    next,
                    pairs.drop_first(),
                    own_amounts(u),
                    crate::parser::rest_answers(answers),
                ) == Some(Ok::<ParamsModel, crate::error::ErrorModel>(next)));
                assert(classify_spec(st, pairs, own_amounts(u), answers) == Some(
                    Ok::<ParamsModel, crate::error::ErrorModel>(next),
                ));
                assert(crate::parser::finish_spec(u.address, next).unknown =~= seq![(empty, empty)]);
            },
            HandlerAnswer::Handled(None) => {
                assert(classify_spec(
                    st,
                    pairs.drop_first(),
                    own_amounts(u),
                    crate::parser::rest_answers(answers),
                ) == Some(Ok::<ParamsModel, crate::error::ErrorModel>(st)));
                assert(classify_spec(st, pairs, own_amounts(u), answers) == Some(
                    Ok::<ParamsModel, crate::error::ErrorModel>(st),
                ));
                assert(crate::parser::finish_spec(u.address, st).unknown =~= Seq::<
                    (Seq<char>, Seq<char>),
                >::empty());
            },
            HandlerAnswer::Handled(Some(e)) => {},
        }
    }
}

} // verus!
