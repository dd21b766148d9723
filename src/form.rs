//! The `application/x-www-form-urlencoded` byte codec used for argument
//! bodies and error descriptions on the wire.
use vstd::prelude::*;

verus! {

pub const SPACE: u8 = 0x20;
pub const PLUS: u8 = 0x2B;
pub const PERCENT: u8 = 0x25;
pub const AMP: u8 = 0x26;
pub const EQUALS: u8 = 0x3D;

/// Bytes that the form encoding leaves as they are.
pub open spec fn is_unreserved(b: u8) -> bool {
    (0x30 <= b && b <= 0x39) || (0x41 <= b && b <= 0x5A) || (0x61 <= b && b <= 0x7A) || b == 0x2A
        || b == 0x2D || b == 0x2E || b == 0x5F
}

/// Upper-case hexadecimal digit for a nibble.
pub open spec fn hex_digit(n: u8) -> u8 {
    if n < 10 {
        (0x30 + n) as u8
    } else {
        (0x41 + n - 10) as u8
    }
}

/// Value of a hexadecimal digit of either case.
pub open spec fn hex_value(c: u8) -> Option<u8> {
    if 0x30 <= c && c <= 0x39 {
        Some((c - 0x30) as u8)
    } else if 0x41 <= c && c <= 0x46 {
        Some((c - 0x41 + 10) as u8)
    } else if 0x61 <= c && c <= 0x66 {
        Some((c - 0x61 + 10) as u8)
    } else {
        None
    }
}

/// The encoding of one byte.
pub open spec fn encode_byte(b: u8) -> Seq<u8> {
    if b == SPACE {
        seq![PLUS]
    } else if is_unreserved(b) {
        seq![b]
    } else {
        seq![PERCENT, hex_digit(b / 16), hex_digit(b % 16)]
    }
}

/// The encoding of a byte string: each byte encoded in turn.
pub open spec fn encode(s: Seq<u8>) -> Seq<u8>
    decreases s.len(),
{
    if s.len() == 0 {
        Seq::empty()
    } else {
        encode_byte(s[0]) + encode(s.drop_first())
    }
}

/// Percent-decoding: `%` with two hex digits is a byte, anything else
/// stands for itself.
pub open spec fn percent_decoded(s: Seq<u8>) -> Seq<u8>
    decreases s.len(),
{
    if s.len() == 0 {
        Seq::empty()
    } else if s[0] == PERCENT && s.len() >= 3 && hex_value(s[1]) is Some && hex_value(s[2]) is Some {
        seq![(hex_value(s[1]).unwrap() * 16 + hex_value(s[2]).unwrap()) as u8] + percent_decoded(
            s.subrange(3, s.len() as int),
        )
    } else {
        seq![s[0]] + percent_decoded(s.drop_first())
    }
}

/// Every `+` read as a space.
pub open spec fn plus_to_space(s: Seq<u8>) -> Seq<u8> {
    s.map_values(|b: u8| if b == PLUS { SPACE } else { b })
}

/// Form decoding: `+` is a space, then percent-decoding.
pub open spec fn decode(s: Seq<u8>) -> Seq<u8> {
    percent_decoded(plus_to_space(s))
}

/// A byte that an encoding can hold: none of space, `&` or `=`.
pub open spec fn is_encoded_byte(c: u8) -> bool {
    is_unreserved(c) || c == PLUS || c == PERCENT
}

pub open spec fn all_encoded(s: Seq<u8>) -> bool {
    forall|i: int| 0 <= i < s.len() ==> is_encoded_byte(#[trigger] s[i])
}

/// `key=value`, both encoded.
pub open spec fn serialize_pair(p: (Seq<u8>, Seq<u8>)) -> Seq<u8> {
    encode(p.0) + seq![EQUALS] + encode(p.1)
}

/// Pairs encoded and joined by `&`.
pub open spec fn serialize(args: Seq<(Seq<u8>, Seq<u8>)>) -> Seq<u8>
    decreases args.len(),
{
    if args.len() == 0 {
        Seq::empty()
    } else if args.len() == 1 {
        serialize_pair(args[0])
    } else {
        serialize_pair(args[0]) + seq![AMP] + serialize(args.drop_first())
    }
}

/// Index of the first `b` in `s`, or -1.
pub open spec fn first_index(s: Seq<u8>, b: u8) -> int
    decreases s.len(),
{
    if s.len() == 0 {
        -1
    } else if s[0] == b {
        0
    } else {
        let r = first_index(s.drop_first(), b);
        if r < 0 {
            -1
        } else {
            r + 1
        }
    }
}

/// One `&`-separated piece: split at the first `=`, both sides decoded; a
/// piece without `=` has an empty value.
pub open spec fn parse_piece(p: Seq<u8>) -> (Seq<u8>, Seq<u8>) {
    let i = first_index(p, EQUALS);
    if i < 0 {
        (decode(p), Seq::empty())
    } else {
        (decode(p.take(i)), decode(p.skip(i + 1)))
    }
}

/// Empty pieces are skipped.
pub open spec fn piece_list(p: Seq<u8>) -> Seq<(Seq<u8>, Seq<u8>)> {
    if p.len() == 0 {
        Seq::empty()
    } else {
        seq![parse_piece(p)]
    }
}

/// Parses `s`, where `cur` is the piece read so far.
pub open spec fn parse_from(s: Seq<u8>, cur: Seq<u8>) -> Seq<(Seq<u8>, Seq<u8>)>
    decreases s.len(),
{
    if s.len() == 0 {
        piece_list(cur)
    } else if s[0] == AMP {
        piece_list(cur) + parse_from(s.drop_first(), Seq::empty())
    } else {
        parse_from(s.drop_first(), cur.push(s[0]))
    }
}

/// The pairs that a form body holds, in order.
pub open spec fn parse(s: Seq<u8>) -> Seq<(Seq<u8>, Seq<u8>)> {
    parse_from(s, Seq::empty())
}

pub proof fn lemma_hex_round_trip(n: u8)
    requires
        n < 16,
    ensures
        hex_value(hex_digit(n)) == Some(n),
{
}

pub proof fn lemma_decode_encode_byte(b: u8, rest: Seq<u8>)
    ensures
        percent_decoded(plus_to_space(encode_byte(b)) + rest) == seq![b] + percent_decoded(rest),
{
    let x = plus_to_space(encode_byte(b));
    let e = x + rest;
    if b == SPACE {
        assert(x =~= seq![SPACE]);
        assert(e.drop_first() =~= rest);
    } else if is_unreserved(b) {
        assert(x =~= seq![b]);
        assert(e.drop_first() =~= rest);
    } else {
        lemma_hex_round_trip(b / 16);
        lemma_hex_round_trip(b % 16);
        assert(x =~= seq![PERCENT, hex_digit(b / 16), hex_digit(b % 16)]);
        assert(e.subrange(3, e.len() as int) =~= rest);
        assert(e[1] == hex_digit(b / 16));
        assert(e[2] == hex_digit(b % 16));
        assert(((b / 16) * 16 + b % 16) as u8 == b);
    }
}

pub proof fn lemma_encode_concat(a: Seq<u8>, b: Seq<u8>)
    ensures
        encode(a + b) == encode(a) + encode(b),
    decreases a.len(),
{
    if a.len() == 0 {
        assert(a + b =~= b);
        assert(encode(a) + encode(b) =~= encode(b));
    } else {
        assert((a + b).drop_first() =~= a.drop_first() + b);
        lemma_encode_concat(a.drop_first(), b);
        assert(encode(a + b) =~= encode(a) + encode(b));
    }
}

/// Decoding undoes encoding.
pub proof fn lemma_decode_encode(s: Seq<u8>)
    ensures
        decode(encode(s)) == s,
    decreases s.len(),
{
    if s.len() > 0 {
        lemma_decode_encode(s.drop_first());
        let e = encode_byte(s[0]);
        let r = encode(s.drop_first());
        assert(plus_to_space(e + r) =~= plus_to_space(e) + plus_to_space(r));
        lemma_decode_encode_byte(s[0], plus_to_space(r));
        assert(seq![s[0]] + s.drop_first() =~= s);
    } else {
        assert(plus_to_space(encode(s)) =~= Seq::<u8>::empty());
    }
}

pub proof fn lemma_encode_all_encoded(s: Seq<u8>)
    ensures
        all_encoded(encode(s)),
    decreases s.len(),
{
    if s.len() > 0 {
        lemma_encode_all_encoded(s.drop_first());
        let e = encode_byte(s[0]);
        let r = encode(s.drop_first());
        assert(all_encoded(e));
        assert forall|i: int| 0 <= i < (e + r).len() implies is_encoded_byte(#[trigger] (e + r)[i]) by {
            if i >= e.len() {
                assert((e + r)[i] == r[i - e.len()]);
            }
        }
    }
}

pub proof fn lemma_first_index_at(s: Seq<u8>, b: u8, i: int)
    requires
        0 <= i < s.len(),
        s[i] == b,
        forall|j: int| 0 <= j < i ==> s[j] != b,
    ensures
        first_index(s, b) == i,
    decreases s.len(),
{
    if i > 0 {
        lemma_first_index_at(s.drop_first(), b, i - 1);
    }
}

pub proof fn lemma_first_index_none(s: Seq<u8>, b: u8)
    requires
        forall|j: int| 0 <= j < s.len() ==> s[j] != b,
    ensures
        first_index(s, b) == -1,
    decreases s.len(),
{
    if s.len() > 0 {
        lemma_first_index_none(s.drop_first(), b);
    }
}

/// Bytes without `&` join the current piece.
pub proof fn lemma_parse_from_no_amp(x: Seq<u8>, y: Seq<u8>, cur: Seq<u8>)
    requires
        forall|i: int| 0 <= i < x.len() ==> x[i] != AMP,
    ensures
        parse_from(x + y, cur) == parse_from(y, cur + x),
    decreases x.len(),
{
    if x.len() == 0 {
        assert(x + y =~= y);
        assert(cur + x =~= cur);
    } else {
        assert((x + y).drop_first() =~= x.drop_first() + y);
        assert(cur.push(x[0]) + x.drop_first() =~= cur + x);
        lemma_parse_from_no_amp(x.drop_first(), y, cur.push(x[0]));
    }
}

pub proof fn lemma_parse_serialized_pair(p: (Seq<u8>, Seq<u8>))
    ensures
        serialize_pair(p).len() > 0,
        parse_piece(serialize_pair(p)) == p,
        forall|i: int| 0 <= i < serialize_pair(p).len() ==> #[trigger] serialize_pair(p)[i] != AMP,
{
    let k = encode(p.0);
    let v = encode(p.1);
    let s = serialize_pair(p);
    lemma_encode_all_encoded(p.0);
    lemma_encode_all_encoded(p.1);
    assert(s[k.len() as int] == EQUALS);
    assert forall|j: int| 0 <= j < k.len() implies s[j] != EQUALS by {
        assert(s[j] == k[j]);
        assert(is_encoded_byte(k[j]));
    }
    lemma_first_index_at(s, EQUALS, k.len() as int);
    assert(s.take(k.len() as int) =~= k);
    assert(s.skip(k.len() as int + 1) =~= v);
    lemma_decode_encode(p.0);
    lemma_decode_encode(p.1);
    assert forall|i: int| 0 <= i < s.len() implies #[trigger] s[i] != AMP by {
        if i < k.len() {
            assert(s[i] == k[i]);
            assert(is_encoded_byte(k[i]));
        } else if i > k.len() {
            assert(s[i] == v[i - k.len() - 1]);
            assert(is_encoded_byte(v[i - k.len() - 1]));
        }
    }
}

/// Parsing undoes serialising: the pairs come back in order.
pub proof fn lemma_parse_serialize(args: Seq<(Seq<u8>, Seq<u8>)>)
    ensures
        parse(serialize(args)) == args,
    decreases args.len(),
{
    if args.len() == 0 {
        assert(parse(serialize(args)) =~= args);
    } else {
        let s0 = serialize_pair(args[0]);
        lemma_parse_serialized_pair(args[0]);
        if args.len() == 1 {
            assert(s0 =~= s0 + Seq::<u8>::empty());
            lemma_parse_from_no_amp(s0, Seq::empty(), Seq::empty());
            assert(Seq::<u8>::empty() + s0 =~= s0);
            assert(parse(serialize(args)) =~= args);
        } else {
            let rest = serialize(args.drop_first());
            let tail = seq![AMP] + rest;
            assert(serialize(args) =~= s0 + tail);
            lemma_parse_from_no_amp(s0, tail, Seq::empty());
            assert(Seq::<u8>::empty() + s0 =~= s0);
            assert(tail.drop_first() =~= rest);
            lemma_parse_serialize(args.drop_first());
            assert(parse(serialize(args)) =~= args);
        }
    }
}


/// The pairs of a vector, as byte sequences.
pub open spec fn pairs_view(v: Seq<(Vec<u8>, Vec<u8>)>) -> Seq<(Seq<u8>, Seq<u8>)> {
    v.map_values(|p: (Vec<u8>, Vec<u8>)| (p.0@, p.1@))
}

pub proof fn lemma_serialize_push(a: Seq<(Seq<u8>, Seq<u8>)>, p: (Seq<u8>, Seq<u8>))
    requires
        a.len() >= 1,
    ensures
        serialize(a.push(p)) == serialize(a) + seq![AMP] + serialize_pair(p),
    decreases a.len(),
{
    assert(a.push(p).drop_first() =~= a.drop_first().push(p));
    if a.len() == 1 {
        assert(a.drop_first().push(p) =~= seq![p]);
        assert(a.push(p)[0] == a[0]);
        assert(serialize(seq![p]) == serialize_pair(p));
        assert(serialize(a) == serialize_pair(a[0]));
        assert(serialize(a.push(p)) =~= serialize(a) + seq![AMP] + serialize_pair(p));
    } else {
        lemma_serialize_push(a.drop_first(), p);
        assert(serialize(a.push(p)) =~= serialize(a) + seq![AMP] + serialize_pair(p));
    }
}

/// Relies on `form_urlencoded::byte_serialize` (through `url`): bytes
/// that are ASCII letters, digits or `*-._` stay, a space becomes `+`, and
/// every other byte becomes `%` and two upper-case hex digits.
#[verifier::external_body]
fn form_serialize(s: &[u8]) -> (r: Vec<u8>)
    ensures
        r@ == encode(s@),
{
    url::form_urlencoded::byte_serialize(s).collect::<String>().into_bytes()
}

/// Relies on `percent_encoding::percent_decode`: `%` followed by two hex
/// digits of either case is that byte; any other byte, `%` included, stays.
#[verifier::external_body]
fn percent_decode_bytes(s: &[u8]) -> (r: Vec<u8>)
    ensures
        r@ == percent_decoded(s@),
{
    percent_encoding::percent_decode(s).collect()
}

/// Appends the encoding of `s` to `out`.
pub fn encode_into(out: &mut Vec<u8>, s: &[u8])
    ensures
        final(out)@ == old(out)@ + encode(s@),
{
    let e = form_serialize(s);
    crate::bytes::append_bytes(out, e.as_slice());
}

/// The form encoding of `s`.
pub fn encode_bytes(s: &[u8]) -> (r: Vec<u8>)
    ensures
        r@ == encode(s@),
{
    let mut r: Vec<u8> = Vec::new();
    encode_into(&mut r, s);
    assert(Seq::<u8>::empty() + encode(s@) =~= encode(s@));
    r
}

/// The form decoding of `s`.
pub fn decode_bytes(s: &[u8]) -> (r: Vec<u8>)
    ensures
        r@ == decode(s@),
{
    let mut spaced: Vec<u8> = Vec::new();
    let mut i: usize = 0;
    while i < s.len()
        invariant
            i <= s@.len(),
            spaced@ == plus_to_space(s@.take(i as int)),
        decreases s@.len() - i,
    {
        spaced.push(if s[i] == PLUS { SPACE } else { s[i] });
        i = i + 1;
        assert(spaced@ =~= plus_to_space(s@.take(i as int)));
    }
    assert(s@.take(i as int) =~= s@);
    percent_decode_bytes(spaced.as_slice())
}

/// The pairs joined as a form body.
pub fn serialize_pairs(args: &Vec<(Vec<u8>, Vec<u8>)>) -> (r: Vec<u8>)
    ensures
        r@ == serialize(pairs_view(args@)),
{
    let ghost v = pairs_view(args@);
    let mut r: Vec<u8> = Vec::new();
    let mut i: usize = 0;
    while i < args.len()
        invariant
            i <= args@.len(),
            v == pairs_view(args@),
            r@ == serialize(v.take(i as int)),
        decreases args@.len() - i,
    {
        let ghost before = r@;
        if i > 0 {
            r.push(AMP);
        }
        encode_into(&mut r, args[i].0.as_slice());
        r.push(EQUALS);
        encode_into(&mut r, args[i].1.as_slice());
        proof {
            assert(v.take(i as int + 1) =~= v.take(i as int).push(v[i as int]));
            if i > 0 {
                lemma_serialize_push(v.take(i as int), v[i as int]);
            } else {
                assert(v.take(1) =~= seq![v[0]]);
            }
        }
        i = i + 1;
        assert(r@ =~= serialize(v.take(i as int)));
    }
    assert(v.take(args@.len() as int) =~= v);
    r
}

fn parse_piece_exec(p: &[u8]) -> (r: (Vec<u8>, Vec<u8>))
    ensures
        (r.0@, r.1@) == parse_piece(p@),
{
    let mut i: usize = 0;
    while i < p.len()
        invariant
            i <= p@.len(),
            forall|j: int| 0 <= j < i ==> p@[j] != EQUALS,
        decreases p@.len() - i,
    {
        if p[i] == EQUALS {
            proof {
                lemma_first_index_at(p@, EQUALS, i as int);
            }
            let k = decode_bytes(&p[0..i]);
            let v = decode_bytes(&p[i + 1..p.len()]);
            assert(p@.subrange(0, i as int) =~= p@.take(i as int));
            assert(p@.subrange(i as int + 1, p@.len() as int) =~= p@.skip(i as int + 1));
            return (k, v);
        }
        i = i + 1;
    }
    proof {
        lemma_first_index_none(p@, EQUALS);
    }
    (decode_bytes(p), Vec::new())
}

/// The pairs of a form body, in order; empty pieces are skipped.
pub fn parse_pairs(s: &[u8]) -> (r: Vec<(Vec<u8>, Vec<u8>)>)
    ensures
        pairs_view(r@) == parse(s@),
{
    let mut r: Vec<(Vec<u8>, Vec<u8>)> = Vec::new();
    let mut start: usize = 0;
    let mut i: usize = 0;
    assert(s@.skip(0) =~= s@);
    assert(s@.subrange(0, 0) =~= Seq::<u8>::empty());
    assert(pairs_view(r@) =~= Seq::empty());
    while i < s.len()
        invariant
            start <= i <= s@.len(),
            parse(s@) == pairs_view(r@) + parse_from(s@.skip(i as int), s@.subrange(start as int, i as int)),
        decreases s@.len() - i,
    {
        let ghost rest = s@.skip(i as int);
        let ghost cur = s@.subrange(start as int, i as int);
        assert(rest.drop_first() =~= s@.skip(i as int + 1));
        if s[i] == AMP {
            let ghost before = pairs_view(r@);
            if i > start {
                let piece = parse_piece_exec(&s[start..i]);
                r.push(piece);
                assert(pairs_view(r@) =~= before + piece_list(cur));
            } else {
                assert(cur =~= Seq::<u8>::empty());
                assert(pairs_view(r@) =~= before + piece_list(cur));
            }
            i = i + 1;
            start = i;
            assert(s@.subrange(start as int, i as int) =~= Seq::<u8>::empty());
        } else {
            assert(cur.push(s@[i as int]) =~= s@.subrange(start as int, i as int + 1));
            i = i + 1;
        }
        assert(parse(s@) =~= pairs_view(r@) + parse_from(s@.skip(i as int), s@.subrange(start as int, i as int)));
    }
    let ghost cur = s@.subrange(start as int, i as int);
    let ghost before = pairs_view(r@);
    assert(s@.skip(i as int) =~= Seq::<u8>::empty());
    if i > start {
        let piece = parse_piece_exec(&s[start..i]);
        r.push(piece);
        assert(pairs_view(r@) =~= before + piece_list(cur));
    } else {
        assert(cur =~= Seq::<u8>::empty());
        assert(pairs_view(r@) =~= before + piece_list(cur));
    }
    r
}

} // verus!
