//! Wire schema: the text message exchanged between clients and the relay.
//! A position report carries an identity, a display color, a normalized
//! position, and a free-form `extra` payload that must survive a round
//! trip untouched. The encoding is a fixed JSON-shaped grammar over
//! bytes: string fields hold any bytes except the quote and backslash,
//! coordinates are five-digit fixed-point fractions of 10000, and extra
//! values are null, booleans or strings. Decoding a malformed payload
//! fails cleanly and the caller drops the message.

use vstd::prelude::*;
use vstd::arithmetic::div_mod::{
    lemma_div_denominator, lemma_div_is_ordered, lemma_div_pos_is_pos, lemma_fundamental_div_mod,
    lemma_fundamental_div_mod_converse_div, lemma_fundamental_div_mod_converse_mod,
    lemma_mod_bound, lemma_small_mod,
};

verus! {

/// A normalized coordinate of 1.0 is carried as this many wire units.
pub const COORD_UNIT_PER_MYRIA: u64 = 10_000;

/// Coordinates on the wire are five decimal digits, so under this bound.
pub const COORD_WIRE_LIMIT: u64 = 100_000;

/// A free-form value carried under an extra key.
#[derive(Clone, Debug)]
pub enum ExtraValue {
    Null,
    Bool(bool),
    Text(Vec<u8>),
}

/// Ghost image of an extra value.
#[verifier::ext_equal]
pub enum ExtraValueV {
    Null,
    Bool(bool),
    Text(Seq<u8>),
}

impl View for ExtraValue {
    type V = ExtraValueV;

    open spec fn view(&self) -> ExtraValueV {
        match self {
            ExtraValue::Null => ExtraValueV::Null,
            ExtraValue::Bool(b) => ExtraValueV::Bool(*b),
            ExtraValue::Text(t) => ExtraValueV::Text(t@),
        }
    }
}

/// A position report: the one message of the protocol. `id` is empty
/// when a client sends it; the relay overwrites it with the sender's
/// assigned identity on every broadcast copy. `x`/`y` are normalized to
/// the sender's viewport, in units of 1/10000.
#[derive(Clone, Debug)]
pub struct Packet {
    pub id: Vec<u8>,
    pub color: Vec<u8>,
    pub x_per_myria: u64,
    pub y_per_myria: u64,
    pub extra: Vec<(Vec<u8>, ExtraValue)>,
}

/// Ghost image of a packet.
#[verifier::ext_equal]
pub struct PacketV {
    pub id: Seq<u8>,
    pub color: Seq<u8>,
    pub x_per_myria: u64,
    pub y_per_myria: u64,
    pub extra: Seq<(Seq<u8>, ExtraValueV)>,
}

/// Ghost image of an extra list.
pub open spec fn spec_extra_view(e: Seq<(Vec<u8>, ExtraValue)>) -> Seq<(Seq<u8>, ExtraValueV)> {
    e.map_values(|kv: (Vec<u8>, ExtraValue)| (kv.0@, kv.1@))
}

impl View for Packet {
    type V = PacketV;

    open spec fn view(&self) -> PacketV {
        PacketV {
            id: self.id@,
            color: self.color@,
            x_per_myria: self.x_per_myria,
            y_per_myria: self.y_per_myria,
            extra: spec_extra_view(self.extra@),
        }
    }
}

/// A byte a string field may hold: anything but quote and backslash.
pub open spec fn byte_ok(b: u8) -> bool {
    b != 34 && b != 92
}

/// Every byte of the string is admissible.
pub open spec fn bytes_ok(s: Seq<u8>) -> bool {
    forall|i: int| 0 <= i < s.len() ==> byte_ok(#[trigger] s[i])
}

/// An extra value whose text, if any, is admissible.
pub open spec fn value_ok(v: ExtraValueV) -> bool {
    match v {
        ExtraValueV::Text(t) => bytes_ok(t),
        _ => true,
    }
}

/// A well-formed report: string fields without quote or backslash, and
/// coordinates under the five-digit wire bound.
pub open spec fn wf_packet(p: PacketV) -> bool {
    &&& bytes_ok(p.id)
    &&& bytes_ok(p.color)
    &&& p.x_per_myria < COORD_WIRE_LIMIT
    &&& p.y_per_myria < COORD_WIRE_LIMIT
    &&& pairs_ok(p.extra)
}

/// Admissible extra pairs: keys and text values without quote or backslash.
pub open spec fn pairs_ok(ps: Seq<(Seq<u8>, ExtraValueV)>) -> bool {
    forall|k: int| 0 <= k < ps.len() ==> bytes_ok(#[trigger] ps[k].0) && value_ok(ps[k].1)
}

/// A string field between quotes.
pub open spec fn spec_quoted(s: Seq<u8>) -> Seq<u8> {
    seq![34u8] + s + seq![34u8]
}

/// The bytes of `"id":`.
pub open spec fn spec_key_id() -> Seq<u8> {
    seq![34u8, 105u8, 100u8, 34u8, 58u8]
}

/// The bytes of `"color":`.
pub open spec fn spec_key_color() -> Seq<u8> {
    seq![34u8, 99u8, 111u8, 108u8, 111u8, 114u8, 34u8, 58u8]
}

/// The bytes of `"x":`.
pub open spec fn spec_key_x() -> Seq<u8> {
    seq![34u8, 120u8, 34u8, 58u8]
}

/// The bytes of `"y":`.
pub open spec fn spec_key_y() -> Seq<u8> {
    seq![34u8, 121u8, 34u8, 58u8]
}

/// A coordinate as five decimal digits, zero-padded.
pub open spec fn spec_d5(n: u64) -> Seq<u8>
    recommends
        n < COORD_WIRE_LIMIT,
{
    seq![
        (48 + (n as int / 10000) % 10) as u8,
        (48 + (n as int / 1000) % 10) as u8,
        (48 + (n as int / 100) % 10) as u8,
        (48 + (n as int / 10) % 10) as u8,
        (48 + n as int % 10) as u8,
    ]
}

/// An extra value on the wire.
pub open spec fn spec_enc_value(v: ExtraValueV) -> Seq<u8> {
    match v {
        ExtraValueV::Null => seq![110u8, 117u8, 108u8, 108u8],
        ExtraValueV::Bool(b) => if b {
            seq![116u8, 114u8, 117u8, 101u8]
        } else {
            seq![102u8, 97u8, 108u8, 115u8, 101u8]
        },
        ExtraValueV::Text(t) => spec_quoted(t),
    }
}

/// One extra pair on the wire: a comma, the quoted key, a colon, the value.
pub open spec fn spec_enc_pair(kv: (Seq<u8>, ExtraValueV)) -> Seq<u8> {
    seq![44u8] + spec_quoted(kv.0) + seq![58u8] + spec_enc_value(kv.1)
}

/// The extra pairs on the wire, in order.
pub open spec fn spec_enc_extra(ps: Seq<(Seq<u8>, ExtraValueV)>) -> Seq<u8>
    decreases ps.len(),
{
    if ps.len() == 0 {
        Seq::empty()
    } else {
        spec_enc_pair(ps[0]) + spec_enc_extra(ps.drop_first())
    }
}

/// The opening of the wire form: brace, identity and color.
pub open spec fn spec_enc_names(id: Seq<u8>, color: Seq<u8>) -> Seq<u8> {
    seq![123u8] + spec_key_id() + spec_quoted(id) + seq![44u8] + spec_key_color() + spec_quoted(
        color,
    )
}

/// The fixed head of the wire form: brace, identity, color and the two
/// coordinates.
pub open spec fn spec_enc_head(id: Seq<u8>, color: Seq<u8>, x: u64, y: u64) -> Seq<u8> {
    spec_enc_names(id, color) + seq![44u8] + spec_key_x() + spec_d5(x) + seq![44u8] + spec_key_y()
        + spec_d5(y)
}

/// The whole report on the wire.
pub open spec fn spec_enc(p: PacketV) -> Seq<u8> {
    spec_enc_head(p.id, p.color, p.x_per_myria, p.y_per_myria) + spec_enc_extra(p.extra)
        + seq![125u8]
}

/// Appends every byte of `s`.
fn push_bytes(out: &mut Vec<u8>, s: &Vec<u8>)
    ensures
        final(out)@ == old(out)@ + s@,
{
    let mut i: usize = 0;
    while i < s.len()
        invariant
            i <= s@.len(),
            out@ == old(out)@ + s@.take(i as int),
        decreases s@.len() - i,
    {
        out.push(s[i]);
        proof {
            assert(s@.take(i + 1) =~= s@.take(i as int).push(s@[i as int]));
        }
        i = i + 1;
    }
    proof {
        assert(s@.take(s@.len() as int) =~= s@);
    }
}

/// Appends a string field between quotes.
fn push_quoted(out: &mut Vec<u8>, s: &Vec<u8>)
    ensures
        final(out)@ == old(out)@ + spec_quoted(s@),
{
    out.push(34);
    push_bytes(out, s);
    out.push(34);
    proof {
        assert(out@ =~= old(out)@ + spec_quoted(s@));
    }
}

/// Appends a coordinate as five decimal digits.
fn push_d5(out: &mut Vec<u8>, n: u64)
    requires
        n < COORD_WIRE_LIMIT,
    ensures
        final(out)@ == old(out)@ + spec_d5(n),
{
    out.push(48 + ((n / 10000) % 10) as u8);
    out.push(48 + ((n / 1000) % 10) as u8);
    out.push(48 + ((n / 100) % 10) as u8);
    out.push(48 + ((n / 10) % 10) as u8);
    out.push(48 + (n % 10) as u8);
    proof {
        assert(out@ =~= old(out)@ + spec_d5(n));
    }
}

/// Appends an extra value.
fn push_value(out: &mut Vec<u8>, v: &ExtraValue)
    ensures
        final(out)@ == old(out)@ + spec_enc_value(v@),
{
    match v {
        ExtraValue::Null => {
            out.push(110);
            out.push(117);
            out.push(108);
            out.push(108);
            proof {
                assert(out@ =~= old(out)@ + spec_enc_value(v@));
            }
        },
        ExtraValue::Bool(b) => {
            if *b {
                out.push(116);
                out.push(114);
                out.push(117);
                out.push(101);
            } else {
                out.push(102);
                out.push(97);
                out.push(108);
                out.push(115);
                out.push(101);
            }
            proof {
                assert(out@ =~= old(out)@ + spec_enc_value(v@));
            }
        },
        ExtraValue::Text(t) => {
            push_quoted(out, t);
        },
    }
}

/// Encoding distributes over appending one more extra pair.
pub proof fn lemma_enc_extra_push(ps: Seq<(Seq<u8>, ExtraValueV)>, kv: (Seq<u8>, ExtraValueV))
    ensures
        spec_enc_extra(ps.push(kv)) == spec_enc_extra(ps) + spec_enc_pair(kv),
    decreases ps.len(),
{
    if ps.len() == 0 {
        let single = ps.push(kv);
        assert(single.drop_first() =~= Seq::<(Seq<u8>, ExtraValueV)>::empty());
        assert(single[0] == kv);
        assert(spec_enc_extra(Seq::<(Seq<u8>, ExtraValueV)>::empty()) == Seq::<u8>::empty());
        assert(spec_enc_extra(single) == spec_enc_pair(kv) + Seq::<u8>::empty());
        assert(spec_enc_pair(kv) + Seq::<u8>::empty() =~= spec_enc_pair(kv));
        assert(spec_enc_extra(ps) + spec_enc_pair(kv) =~= spec_enc_pair(kv));
    } else {
        assert(ps.push(kv).drop_first() =~= ps.drop_first().push(kv));
        lemma_enc_extra_push(ps.drop_first(), kv);
        assert(spec_enc_extra(ps.push(kv)) == spec_enc_pair(ps[0]) + (spec_enc_extra(
            ps.drop_first(),
        ) + spec_enc_pair(kv)));
        assert(spec_enc_pair(ps[0]) + (spec_enc_extra(ps.drop_first()) + spec_enc_pair(kv)) =~= (
        spec_enc_pair(ps[0]) + spec_enc_extra(ps.drop_first())) + spec_enc_pair(kv));
    }
}

/// Serializes a report to its wire bytes.
#[verifier::rlimit(80)]
pub fn encode_packet(p: &Packet) -> (r: Vec<u8>)
    requires
        wf_packet(p@),
    ensures
        r@ == spec_enc(p@),
{
    let mut out: Vec<u8> = Vec::new();
    out.push(123);
    out.push(34);
    out.push(105);
    out.push(100);
    out.push(34);
    out.push(58);
    push_quoted(&mut out, &p.id);
    out.push(44);
    out.push(34);
    out.push(99);
    out.push(111);
    out.push(108);
    out.push(111);
    out.push(114);
    out.push(34);
    out.push(58);
    push_quoted(&mut out, &p.color);
    out.push(44);
    out.push(34);
    out.push(120);
    out.push(34);
    out.push(58);
    push_d5(&mut out, p.x_per_myria);
    out.push(44);
    out.push(34);
    out.push(121);
    out.push(34);
    out.push(58);
    push_d5(&mut out, p.y_per_myria);
    let ghost before_extra = out@;
    let mut k: usize = 0;
    while k < p.extra.len()
        invariant
            k <= p.extra@.len(),
            out@ == before_extra + spec_enc_extra(p@.extra.take(k as int)),
            p@.extra.len() == p.extra@.len(),
            forall|j: int|
                0 <= j < p.extra@.len() ==> #[trigger] p@.extra[j] == (
                p.extra@[j].0@,
                p.extra@[j].1@,
            ),
        decreases p.extra@.len() - k,
    {
        let ghost taken = p@.extra.take(k as int);
        out.push(44);
        push_quoted(&mut out, &p.extra[k].0);
        out.push(58);
        push_value(&mut out, &p.extra[k].1);
        proof {
            let kv = p@.extra[k as int];
            assert(out@ =~= before_extra + (spec_enc_extra(taken) + spec_enc_pair(kv)));
            lemma_enc_extra_push(taken, kv);
            assert(p@.extra.take(k + 1) =~= taken.push(kv));
        }
        k = k + 1;
    }
    out.push(125);
    proof {
        assert(p@.extra.take(p.extra@.len() as int) =~= p@.extra);
        assert(out@ =~= spec_enc(p@));
    }
    out
}

/// The decimal digits of a five-digit coordinate: each in `'0'..='9'`,
/// and together they reconstruct the value.
proof fn lemma_d5_value(n: u64)
    requires
        n < COORD_WIRE_LIMIT,
    ensures
        forall|i: int| 0 <= i < 5 ==> 48 <= #[trigger] spec_d5(n)[i] <= 57,
        n == (spec_d5(n)[0] - 48) * 10000 + (spec_d5(n)[1] - 48) * 1000 + (spec_d5(n)[2] - 48)
            * 100 + (spec_d5(n)[3] - 48) * 10 + (spec_d5(n)[4] - 48),
{
    let x = n as int;
    lemma_mod_bound(x / 10000, 10);
    lemma_mod_bound(x / 1000, 10);
    lemma_mod_bound(x / 100, 10);
    lemma_mod_bound(x / 10, 10);
    lemma_mod_bound(x, 10);
    lemma_fundamental_div_mod(x, 10);
    lemma_fundamental_div_mod(x / 10, 10);
    lemma_fundamental_div_mod(x / 100, 10);
    lemma_fundamental_div_mod(x / 1000, 10);
    lemma_div_denominator(x, 10, 10);
    lemma_div_denominator(x, 100, 10);
    lemma_div_denominator(x, 1000, 10);
    lemma_fundamental_div_mod_converse_div(99999, 10000, 9, 9999);
    lemma_div_is_ordered(x, 99999, 10000);
    lemma_div_pos_is_pos(x / 10000, 1);
    lemma_div_pos_is_pos(x, 10000);
    lemma_small_mod((x / 10000) as nat, 10);
}

/// A value assembled from five digits has exactly those digits.
proof fn lemma_d5_digits(d0: int, d1: int, d2: int, d3: int, d4: int)
    requires
        0 <= d0 < 10,
        0 <= d1 < 10,
        0 <= d2 < 10,
        0 <= d3 < 10,
        0 <= d4 < 10,
    ensures
        ({
            let n = d0 * 10000 + d1 * 1000 + d2 * 100 + d3 * 10 + d4;
            &&& n < COORD_WIRE_LIMIT
            &&& (n / 10000) % 10 == d0
            &&& (n / 1000) % 10 == d1
            &&& (n / 100) % 10 == d2
            &&& (n / 10) % 10 == d3
            &&& n % 10 == d4
        }),
{
    let n = d0 * 10000 + d1 * 1000 + d2 * 100 + d3 * 10 + d4;
    lemma_fundamental_div_mod_converse_div(n, 10000, d0, d1 * 1000 + d2 * 100 + d3 * 10 + d4);
    lemma_small_mod(d0 as nat, 10);
    lemma_fundamental_div_mod_converse_div(n, 1000, d0 * 10 + d1, d2 * 100 + d3 * 10 + d4);
    lemma_fundamental_div_mod_converse_mod(d0 * 10 + d1, 10, d0, d1);
    lemma_fundamental_div_mod_converse_div(n, 100, d0 * 100 + d1 * 10 + d2, d3 * 10 + d4);
    lemma_fundamental_div_mod_converse_mod(d0 * 100 + d1 * 10 + d2, 10, d0 * 10 + d1, d2);
    lemma_fundamental_div_mod_converse_div(n, 10, d0 * 1000 + d1 * 100 + d2 * 10 + d3, d4);
    lemma_fundamental_div_mod_converse_mod(n, 10, d0 * 1000 + d1 * 100 + d2 * 10 + d3, d4);
}

/// Two quote-free strings quoted at the same position of the same buffer
/// are the same string.
proof fn lemma_quoted_unique(s: Seq<u8>, i: int, t1: Seq<u8>, t2: Seq<u8>)
    requires
        0 <= i,
        bytes_ok(t1),
        bytes_ok(t2),
        i + spec_quoted(t1).len() <= s.len(),
        i + spec_quoted(t2).len() <= s.len(),
        s.subrange(i, i + spec_quoted(t1).len()) == spec_quoted(t1),
        s.subrange(i, i + spec_quoted(t2).len()) == spec_quoted(t2),
    ensures
        t1 == t2,
{
    if t1.len() < t2.len() {
        let p = i + 1 + t1.len();
        assert(s[p] == spec_quoted(t1)[1 + t1.len() as int]);
        assert(s[p] == spec_quoted(t2)[1 + t1.len() as int]);
        assert(spec_quoted(t2)[1 + t1.len() as int] == t2[t1.len() as int]);
        assert(false);
    }
    if t2.len() < t1.len() {
        let p = i + 1 + t2.len();
        assert(s[p] == spec_quoted(t2)[1 + t2.len() as int]);
        assert(s[p] == spec_quoted(t1)[1 + t2.len() as int]);
        assert(spec_quoted(t1)[1 + t2.len() as int] == t1[t2.len() as int]);
        assert(false);
    }
    assert(t1 =~= t2) by {
        assert(forall|k: int|
            0 <= k < t1.len() ==> #[trigger] t1[k] == spec_quoted(t1)[k + 1] == s[i + 1 + k]
                == spec_quoted(t2)[k + 1]);
    }
}

/// Reads a quoted string starting at `i`: the opening quote, any bytes
/// other than quote and backslash, the closing quote.
fn scan_quoted(s: &Vec<u8>, i: usize) -> (r: Option<(Vec<u8>, usize)>)
    requires
        i <= s@.len(),
    ensures
        r matches Some(p) ==> ({
            &&& i + 2 + p.0@.len() == p.1
            &&& p.1 <= s@.len()
            &&& bytes_ok(p.0@)
            &&& s@.subrange(i as int, p.1 as int) == spec_quoted(p.0@)
        }),
        forall|t: Seq<u8>|
            bytes_ok(t) && i + #[trigger] spec_quoted(t).len() <= s@.len() && s@.subrange(
                i as int,
                i + spec_quoted(t).len(),
            ) == spec_quoted(t) ==> (r matches Some(p) && p.0@ == t),
{
    if !(i < s.len() && s[i] == 34) {
        proof {
            assert forall|t2: Seq<u8>|
                bytes_ok(t2) && i + spec_quoted(t2).len() <= s@.len() && s@.subrange(
                    i as int,
                    i + spec_quoted(t2).len(),
                ) == spec_quoted(t2) implies false by {
                assert(s@[i as int] == spec_quoted(t2)[0]);
            }
        }
        return None;
    }
    let mut j: usize = i + 1;
    let mut t: Vec<u8> = Vec::new();
    while j < s.len() && s[j] != 34
        invariant
            i + 1 <= j <= s@.len(),
            t@ == s@.subrange(i + 1, j as int),
            forall|k: int| i + 1 <= k < j ==> #[trigger] s@[k] != 34 && s@[k] != 92,
        decreases s@.len() - j,
    {
        if s[j] == 92 {
            proof {
                assert forall|t2: Seq<u8>|
                    bytes_ok(t2) && i + spec_quoted(t2).len() <= s@.len() && s@.subrange(
                        i as int,
                        i + spec_quoted(t2).len(),
                    ) == spec_quoted(t2) implies false by {
                    let e = i + 1 + t2.len();
                    if j < e {
                        assert(s@[j as int] == spec_quoted(t2)[j - i]);
                        assert(spec_quoted(t2)[j - i] == t2[j - i - 1]);
                    } else {
                        assert(s@[e as int] == spec_quoted(t2)[1 + t2.len() as int]);
                    }
                }
            }
            return None;
        }
        t.push(s[j]);
        proof {
            assert(t@ =~= s@.subrange(i + 1, j + 1));
        }
        j = j + 1;
    }
    if j >= s.len() {
        proof {
            assert forall|t2: Seq<u8>|
                bytes_ok(t2) && i + spec_quoted(t2).len() <= s@.len() && s@.subrange(
                    i as int,
                    i + spec_quoted(t2).len(),
                ) == spec_quoted(t2) implies false by {
                let e = i + 1 + t2.len();
                assert(s@[e as int] == spec_quoted(t2)[1 + t2.len() as int]);
                assert(s@[e as int] == 34);
            }
        }
        return None;
    }
    proof {
        assert(s@.subrange(i as int, j + 1) =~= spec_quoted(t@));
        assert forall|t2: Seq<u8>|
            bytes_ok(t2) && i + spec_quoted(t2).len() <= s@.len() && s@.subrange(
                i as int,
                i + spec_quoted(t2).len(),
            ) == spec_quoted(t2) implies t@ == t2 by {
            lemma_quoted_unique(s@, i as int, t@, t2);
        }
    }
    Some((t, j + 1))
}

/// Reads a five-digit coordinate starting at `i`.
fn parse_d5(s: &Vec<u8>, i: usize) -> (r: Option<(u64, usize)>)
    requires
        i <= s@.len(),
    ensures
        r matches Some(p) ==> ({
            &&& p.1 == i + 5 <= s@.len()
            &&& p.0 < COORD_WIRE_LIMIT
            &&& s@.subrange(i as int, i + 5) == spec_d5(p.0)
        }),
        forall|n: u64|
            n < COORD_WIRE_LIMIT && i + 5 <= s@.len() && s@.subrange(i as int, i + 5)
                == #[trigger] spec_d5(n) ==> (r matches Some(p) && p.0 == n),
{
    if i >= s.len() || s.len() - i < 5 {
        proof {
            assert forall|n: u64|
                n < COORD_WIRE_LIMIT && i + 5 <= s@.len() && s@.subrange(i as int, i + 5)
                    == spec_d5(n) implies false by {}
        }
        return None;
    }
    let b0 = s[i];
    let b1 = s[i + 1];
    let b2 = s[i + 2];
    let b3 = s[i + 3];
    let b4 = s[i + 4];
    if b0 < 48 || b0 > 57 || b1 < 48 || b1 > 57 || b2 < 48 || b2 > 57 || b3 < 48 || b3 > 57 || b4
        < 48 || b4 > 57 {
        proof {
            assert forall|n: u64|
                n < COORD_WIRE_LIMIT && i + 5 <= s@.len() && s@.subrange(i as int, i + 5)
                    == spec_d5(n) implies false by {
                lemma_d5_value(n);
                assert(s@[i as int] == spec_d5(n)[0]);
                assert(s@[i + 1] == spec_d5(n)[1]);
                assert(s@[i + 2] == spec_d5(n)[2]);
                assert(s@[i + 3] == spec_d5(n)[3]);
                assert(s@[i + 4] == spec_d5(n)[4]);
            }
        }
        return None;
    }
    let n: u64 = (b0 - 48) as u64 * 10000 + (b1 - 48) as u64 * 1000 + (b2 - 48) as u64 * 100 + (b3
        - 48) as u64 * 10 + (b4 - 48) as u64;
    proof {
        lemma_d5_digits(
            b0 as int - 48,
            b1 as int - 48,
            b2 as int - 48,
            b3 as int - 48,
            b4 as int - 48,
        );
        assert(s@.subrange(i as int, i + 5) =~= spec_d5(n));
        assert forall|m: u64|
            m < COORD_WIRE_LIMIT && i + 5 <= s@.len() && s@.subrange(i as int, i + 5) == spec_d5(
                m,
            ) implies n == m by {
            lemma_d5_value(m);
            assert(spec_d5(m)[0] == s@[i as int]);
            assert(spec_d5(m)[1] == s@[i + 1]);
            assert(spec_d5(m)[2] == s@[i + 2]);
            assert(spec_d5(m)[3] == s@[i + 3]);
            assert(spec_d5(m)[4] == s@[i + 4]);
        }
    }
    Some((n, i + 5))
}

/// Reads one extra value starting at `i`: `null`, `true`, `false` or a
/// quoted string, told apart by their first byte.
fn parse_value(s: &Vec<u8>, i: usize) -> (r: Option<(ExtraValue, usize)>)
    requires
        i <= s@.len(),
    ensures
        r matches Some(p) ==> ({
            &&& value_ok(p.0@)
            &&& p.1 == i + spec_enc_value(p.0@).len()
            &&& p.1 <= s@.len()
            &&& s@.subrange(i as int, p.1 as int) == spec_enc_value(p.0@)
        }),
        forall|v: ExtraValueV|
            value_ok(v) && i + spec_enc_value(v).len() <= s@.len() && s@.subrange(
                i as int,
                i + spec_enc_value(v).len(),
            ) == #[trigger] spec_enc_value(v) ==> (r matches Some(p) && p.0@ == v),
{
    if i >= s.len() {
        return None;
    }
    let b = s[i];
    if b == 34 {
        match scan_quoted(s, i) {
            Some((t, j)) => {
                proof {
                    assert forall|v: ExtraValueV|
                        value_ok(v) && i + spec_enc_value(v).len() <= s@.len() && s@.subrange(
                            i as int,
                            i + spec_enc_value(v).len(),
                        ) == spec_enc_value(v) implies v == ExtraValueV::Text(t@) by {
                        match v {
                            ExtraValueV::Text(t2) => {
                                lemma_quoted_unique(s@, i as int, t@, t2);
                            },
                            ExtraValueV::Null => {
                                assert(s@[i as int] == spec_enc_value(v)[0]);
                            },
                            ExtraValueV::Bool(bb) => {
                                assert(s@[i as int] == spec_enc_value(v)[0]);
                            },
                        }
                    }
                }
                Some((ExtraValue::Text(t), j))
            },
            None => {
                proof {
                    assert forall|v: ExtraValueV|
                        value_ok(v) && i + spec_enc_value(v).len() <= s@.len() && s@.subrange(
                            i as int,
                            i + spec_enc_value(v).len(),
                        ) == spec_enc_value(v) implies false by {
                        match v {
                            ExtraValueV::Text(t2) => {},
                            ExtraValueV::Null => {
                                assert(s@[i as int] == spec_enc_value(v)[0]);
                            },
                            ExtraValueV::Bool(bb) => {
                                assert(s@[i as int] == spec_enc_value(v)[0]);
                            },
                        }
                    }
                }
                None
            },
        }
    } else if b == 110 {
        if s.len() - i >= 4 && s[i + 1] == 117 && s[i + 2] == 108 && s[i + 3] == 108 {
            proof {
                assert(s@.subrange(i as int, i + 4) =~= spec_enc_value(ExtraValueV::Null));
                assert forall|v: ExtraValueV|
                    value_ok(v) && i + spec_enc_value(v).len() <= s@.len() && s@.subrange(
                        i as int,
                        i + spec_enc_value(v).len(),
                    ) == spec_enc_value(v) implies v == ExtraValueV::Null by {
                    assert(s@[i as int] == spec_enc_value(v)[0]);
                    match v {
                        ExtraValueV::Null => {},
                        ExtraValueV::Text(t2) => {
                            assert(false);
                        },
                        ExtraValueV::Bool(bb) => {
                            assert(false);
                        },
                    }
                }
            }
            Some((ExtraValue::Null, i + 4))
        } else {
            proof {
                assert forall|v: ExtraValueV|
                    value_ok(v) && i + spec_enc_value(v).len() <= s@.len() && s@.subrange(
                        i as int,
                        i + spec_enc_value(v).len(),
                    ) == spec_enc_value(v) implies false by {
                    assert(s@[i as int] == spec_enc_value(v)[0]);
                    match v {
                        ExtraValueV::Null => {
                            assert(s@[i + 1] == spec_enc_value(v)[1]);
                            assert(s@[i + 2] == spec_enc_value(v)[2]);
                            assert(s@[i + 3] == spec_enc_value(v)[3]);
                        },
                        _ => {},
                    }
                }
            }
            None
        }
    } else if b == 116 {
        if s.len() - i >= 4 && s[i + 1] == 114 && s[i + 2] == 117 && s[i + 3] == 101 {
            proof {
                assert(s@.subrange(i as int, i + 4) =~= spec_enc_value(ExtraValueV::Bool(true)));
                assert forall|v: ExtraValueV|
                    value_ok(v) && i + spec_enc_value(v).len() <= s@.len() && s@.subrange(
                        i as int,
                        i + spec_enc_value(v).len(),
                    ) == spec_enc_value(v) implies v == ExtraValueV::Bool(true) by {
                    assert(s@[i as int] == spec_enc_value(v)[0]);
                    match v {
                        ExtraValueV::Bool(bb) => {
                            if !bb {
                                assert(s@[i + 1] == spec_enc_value(v)[1]);
                            }
                        },
                        _ => {
                            assert(false);
                        },
                    }
                }
            }
            Some((ExtraValue::Bool(true), i + 4))
        } else {
            proof {
                assert forall|v: ExtraValueV|
                    value_ok(v) && i + spec_enc_value(v).len() <= s@.len() && s@.subrange(
                        i as int,
                        i + spec_enc_value(v).len(),
                    ) == spec_enc_value(v) implies false by {
                    assert(s@[i as int] == spec_enc_value(v)[0]);
                    match v {
                        ExtraValueV::Bool(bb) => {
                            assert(s@[i + 1] == spec_enc_value(v)[1]);
                            assert(s@[i + 2] == spec_enc_value(v)[2]);
                            assert(s@[i + 3] == spec_enc_value(v)[3]);
                        },
                        _ => {},
                    }
                }
            }
            None
        }
    } else if b == 102 {
        if s.len() - i >= 5 && s[i + 1] == 97 && s[i + 2] == 108 && s[i + 3] == 115 && s[i + 4]
            == 101 {
            proof {
                assert(s@.subrange(i as int, i + 5) =~= spec_enc_value(ExtraValueV::Bool(false)));
                assert forall|v: ExtraValueV|
                    value_ok(v) && i + spec_enc_value(v).len() <= s@.len() && s@.subrange(
                        i as int,
                        i + spec_enc_value(v).len(),
                    ) == spec_enc_value(v) implies v == ExtraValueV::Bool(false) by {
                    assert(s@[i as int] == spec_enc_value(v)[0]);
                    match v {
                        ExtraValueV::Bool(bb) => {
                            if bb {
                                assert(s@[i + 1] == spec_enc_value(v)[1]);
                            }
                        },
                        _ => {
                            assert(false);
                        },
                    }
                }
            }
            Some((ExtraValue::Bool(false), i + 5))
        } else {
            proof {
                assert forall|v: ExtraValueV|
                    value_ok(v) && i + spec_enc_value(v).len() <= s@.len() && s@.subrange(
                        i as int,
                        i + spec_enc_value(v).len(),
                    ) == spec_enc_value(v) implies false by {
                    assert(s@[i as int] == spec_enc_value(v)[0]);
                    match v {
                        ExtraValueV::Bool(bb) => {
                            assert(s@[i + 1] == spec_enc_value(v)[1]);
                            assert(s@[i + 2] == spec_enc_value(v)[2]);
                            assert(s@[i + 3] == spec_enc_value(v)[3]);
                            assert(s@[i + 4] == spec_enc_value(v)[4]);
                        },
                        _ => {},
                    }
                }
            }
            None
        }
    } else {
        proof {
            assert forall|v: ExtraValueV|
                value_ok(v) && i + spec_enc_value(v).len() <= s@.len() && s@.subrange(
                    i as int,
                    i + spec_enc_value(v).len(),
                ) == spec_enc_value(v) implies false by {
                assert(s@[i as int] == spec_enc_value(v)[0]);
            }
        }
        None
    }
}

/// Encoding splits at any pair boundary.
proof fn lemma_enc_extra_split(ps: Seq<(Seq<u8>, ExtraValueV)>, k: int)
    requires
        0 <= k <= ps.len(),
    ensures
        spec_enc_extra(ps) == spec_enc_extra(ps.take(k)) + spec_enc_extra(ps.skip(k)),
    decreases k,
{
    if k == 0 {
        assert(ps.take(0) =~= Seq::<(Seq<u8>, ExtraValueV)>::empty());
        assert(ps.skip(0) =~= ps);
        assert(spec_enc_extra(Seq::<(Seq<u8>, ExtraValueV)>::empty()) + spec_enc_extra(ps) =~= spec_enc_extra(ps));
    } else {
        let rest = ps.drop_first();
        lemma_enc_extra_split(rest, k - 1);
        assert(ps.take(k)[0] == ps[0]);
        assert(ps.take(k).drop_first() =~= rest.take(k - 1));
        assert(ps.skip(k) =~= rest.skip(k - 1));
        assert(spec_enc_extra(ps.take(k)) == spec_enc_pair(ps[0]) + spec_enc_extra(rest.take(k - 1)));
        assert(spec_enc_pair(ps[0]) + (spec_enc_extra(rest.take(k - 1)) + spec_enc_extra(rest.skip(k - 1)))
            =~= (spec_enc_pair(ps[0]) + spec_enc_extra(rest.take(k - 1))) + spec_enc_extra(rest.skip(k - 1)));
    }
}

/// The tail of a buffer that holds an encoded extra list keeps holding
/// the un-parsed pairs.
proof fn lemma_tail_structure(
    s: Seq<u8>,
    i: int,
    pos: int,
    ps: Seq<(Seq<u8>, ExtraValueV)>,
    k: int,
)
    requires
        0 <= i <= pos <= s.len(),
        0 <= k <= ps.len(),
        s.subrange(i, s.len() as int) == spec_enc_extra(ps) + seq![125u8],
        s.subrange(i, pos) == spec_enc_extra(ps.take(k)),
    ensures
        s.subrange(pos, s.len() as int) == spec_enc_extra(ps.skip(k)) + seq![125u8],
{
    lemma_enc_extra_split(ps, k);
    assert(pos - i == spec_enc_extra(ps.take(k)).len());
    assert(s.subrange(pos, s.len() as int) =~= s.subrange(i, s.len() as int).skip(pos - i));
    assert((spec_enc_extra(ps.take(k)) + spec_enc_extra(ps.skip(k)) + seq![125u8]).skip(pos - i)
        =~= spec_enc_extra(ps.skip(k)) + seq![125u8]);
    assert(spec_enc_extra(ps) + seq![125u8] == spec_enc_extra(ps.take(k)) + spec_enc_extra(
        ps.skip(k),
    ) + seq![125u8]);
}

/// A non-empty remaining extra list starts with its first pair.
proof fn lemma_head_pair(s: Seq<u8>, pos: int, ps: Seq<(Seq<u8>, ExtraValueV)>, k: int)
    requires
        0 <= pos <= s.len(),
        0 <= k < ps.len(),
        s.subrange(pos, s.len() as int) == spec_enc_extra(ps.skip(k)) + seq![125u8],
    ensures
        ({
            let kv = ps[k];
            let ql = spec_quoted(kv.0).len() as int;
            let vl = spec_enc_value(kv.1).len() as int;
            &&& pos + 1 + ql + 1 + vl + 1 <= s.len()
            &&& s[pos] == 44
            &&& s.subrange(pos + 1, pos + 1 + ql) == spec_quoted(kv.0)
            &&& s[pos + 1 + ql] == 58
            &&& s.subrange(pos + 2 + ql, pos + 2 + ql + vl) == spec_enc_value(kv.1)
            &&& s.subrange(pos + 2 + ql + vl, s.len() as int) == spec_enc_extra(ps.skip(k + 1))
                + seq![125u8]
        }),
{
    let kv = ps[k];
    let ql = spec_quoted(kv.0).len() as int;
    let vl = spec_enc_value(kv.1).len() as int;
    assert(ps.skip(k)[0] == ps[k]);
    assert(ps.skip(k).drop_first() =~= ps.skip(k + 1));
    assert(spec_enc_extra(ps.skip(k)) == spec_enc_pair(kv) + spec_enc_extra(ps.skip(k + 1)));
    let tail = spec_enc_pair(kv) + spec_enc_extra(ps.skip(k + 1)) + seq![125u8];
    assert(s.subrange(pos, s.len() as int) == tail) by {
        assert(spec_enc_pair(kv) + spec_enc_extra(ps.skip(k + 1)) + seq![125u8] =~= (
        spec_enc_pair(kv) + spec_enc_extra(ps.skip(k + 1))) + seq![125u8]);
    }
    assert(spec_enc_pair(kv).len() == 2 + ql + vl);
    assert(s.len() - pos == tail.len());
    assert(s[pos] == s.subrange(pos, s.len() as int)[0]);
    assert(tail[0] == 44);
    assert(s.subrange(pos + 1, pos + 1 + ql) =~= s.subrange(pos, s.len() as int).subrange(
        1,
        1 + ql,
    ));
    assert(tail.subrange(1, 1 + ql) =~= spec_quoted(kv.0));
    assert(s[pos + 1 + ql] == s.subrange(pos, s.len() as int)[1 + ql]);
    assert(tail[1 + ql] == 58);
    assert(s.subrange(pos + 2 + ql, pos + 2 + ql + vl) =~= s.subrange(pos, s.len() as int)
        .subrange(2 + ql, 2 + ql + vl));
    assert(tail.subrange(2 + ql, 2 + ql + vl) =~= spec_enc_value(kv.1));
    assert(s.subrange(pos + 2 + ql + vl, s.len() as int) =~= s.subrange(pos, s.len() as int)
        .subrange(2 + ql + vl, tail.len() as int));
    assert(tail.subrange(2 + ql + vl, tail.len() as int) =~= spec_enc_extra(ps.skip(k + 1))
        + seq![125u8]);
}

/// Reads the extra pairs and the closing brace: pairs as long as a comma
/// follows, then the brace must end the buffer.
#[verifier::rlimit(80)]
fn parse_extras(s: &Vec<u8>, i: usize) -> (r: Option<(Vec<(Vec<u8>, ExtraValue)>, usize)>)
    requires
        i <= s@.len(),
    ensures
        r matches Some(p) ==> ({
            &&& p.1 == s@.len()
            &&& pairs_ok(spec_extra_view(p.0@))
            &&& s@.subrange(i as int, s@.len() as int) == spec_enc_extra(spec_extra_view(p.0@))
                + seq![125u8]
        }),
        forall|ps: Seq<(Seq<u8>, ExtraValueV)>|
            pairs_ok(ps) && s@.subrange(i as int, s@.len() as int) == #[trigger] spec_enc_extra(ps)
                + seq![125u8] ==> (r matches Some(p) && spec_extra_view(p.0@) == ps),
{
    let mut out: Vec<(Vec<u8>, ExtraValue)> = Vec::new();
    let mut pos: usize = i;
    proof {
        assert(spec_extra_view(out@) =~= Seq::<(Seq<u8>, ExtraValueV)>::empty());
        assert(s@.subrange(i as int, i as int) =~= spec_enc_extra(spec_extra_view(out@)));
    }
    while pos < s.len() && s[pos] == 44
        invariant
            i <= pos <= s@.len(),
            pairs_ok(spec_extra_view(out@)),
            s@.subrange(i as int, pos as int) == spec_enc_extra(spec_extra_view(out@)),
            forall|ps: Seq<(Seq<u8>, ExtraValueV)>|
                pairs_ok(ps) && s@.subrange(i as int, s@.len() as int) == #[trigger] spec_enc_extra(
                    ps,
                ) + seq![125u8] ==> out@.len() <= ps.len() && spec_extra_view(out@) == ps.take(
                    out@.len() as int,
                ),
        decreases s@.len() - pos,
    {
        let ghost k = out@.len() as int;
        proof {
            assert forall|ps: Seq<(Seq<u8>, ExtraValueV)>|
                pairs_ok(ps) && s@.subrange(i as int, s@.len() as int) == #[trigger] spec_enc_extra(
                    ps,
                ) + seq![125u8] implies k < ps.len() && s@.subrange(pos as int, s@.len() as int)
                == spec_enc_extra(ps.skip(k)) + seq![125u8] by {
                lemma_tail_structure(s@, i as int, pos as int, ps, k);
                if k == ps.len() {
                    assert(ps.skip(k) =~= Seq::<(Seq<u8>, ExtraValueV)>::empty());
                    assert(s@[pos as int] == s@.subrange(pos as int, s@.len() as int)[0]);
                }
            }
        }
        let kq = match scan_quoted(s, pos + 1) {
            Some(kq) => kq,
            None => {
                proof {
                    assert forall|ps: Seq<(Seq<u8>, ExtraValueV)>|
                        pairs_ok(ps) && s@.subrange(i as int, s@.len() as int)
                            == #[trigger] spec_enc_extra(ps) + seq![125u8] implies false by {
                        lemma_head_pair(s@, pos as int, ps, k);
                    }
                }
                return None;
            },
        };
        let (key, j) = kq;
        if !(j < s.len() && s[j] == 58) {
            proof {
                assert forall|ps: Seq<(Seq<u8>, ExtraValueV)>|
                    pairs_ok(ps) && s@.subrange(i as int, s@.len() as int)
                        == #[trigger] spec_enc_extra(ps) + seq![125u8] implies false by {
                    lemma_head_pair(s@, pos as int, ps, k);
                    lemma_quoted_unique(s@, pos + 1, key@, ps[k].0);
                }
            }
            return None;
        }
        let pv = match parse_value(s, j + 1) {
            Some(pv) => pv,
            None => {
                proof {
                    assert forall|ps: Seq<(Seq<u8>, ExtraValueV)>|
                        pairs_ok(ps) && s@.subrange(i as int, s@.len() as int)
                            == #[trigger] spec_enc_extra(ps) + seq![125u8] implies false by {
                        lemma_head_pair(s@, pos as int, ps, k);
                        lemma_quoted_unique(s@, pos + 1, key@, ps[k].0);
                    }
                }
                return None;
            },
        };
        let (val, vj) = pv;
        let ghost old_out = out@;
        out.push((key, val));
        proof {
            assert(spec_extra_view(out@) =~= spec_extra_view(old_out).push((key@, val@)));
            lemma_enc_extra_push(spec_extra_view(old_out), (key@, val@));
            assert(s@.subrange(pos as int, vj as int) =~= seq![44u8] + spec_quoted(key@)
                + seq![58u8] + spec_enc_value(val@));
            assert(spec_enc_pair((key@, val@)) == seq![44u8] + spec_quoted(key@) + seq![58u8]
                + spec_enc_value(val@));
            assert(s@.subrange(i as int, vj as int) =~= s@.subrange(i as int, pos as int)
                + s@.subrange(pos as int, vj as int));
            assert(s@.subrange(i as int, vj as int) == spec_enc_extra(spec_extra_view(out@)));
            assert forall|ps: Seq<(Seq<u8>, ExtraValueV)>|
                pairs_ok(ps) && s@.subrange(i as int, s@.len() as int) == #[trigger] spec_enc_extra(
                    ps,
                ) + seq![125u8] implies out@.len() <= ps.len() && spec_extra_view(out@) == ps.take(
                    out@.len() as int,
                ) by {
                lemma_head_pair(s@, pos as int, ps, k);
                lemma_quoted_unique(s@, pos + 1, key@, ps[k].0);
                assert(val@ == ps[k].1);
                assert(spec_extra_view(old_out) == ps.take(k));
                assert(spec_extra_view(out@) =~= ps.take(k + 1));
            }
        }
        pos = vj;
    }
    let ghost k = out@.len() as int;
    if pos < s.len() && s[pos] == 125 && pos + 1 == s.len() {
        proof {
            assert(s@.subrange(i as int, s@.len() as int) =~= s@.subrange(i as int, pos as int)
                + seq![125u8]);
            assert forall|ps: Seq<(Seq<u8>, ExtraValueV)>|
                pairs_ok(ps) && s@.subrange(i as int, s@.len() as int) == #[trigger] spec_enc_extra(
                    ps,
                ) + seq![125u8] implies spec_extra_view(out@) == ps by {
                lemma_tail_structure(s@, i as int, pos as int, ps, k);
                if k < ps.len() {
                    lemma_head_pair(s@, pos as int, ps, k);
                }
                assert(ps.take(k) =~= ps);
            }
        }
        Some((out, pos + 1))
    } else {
        proof {
            assert forall|ps: Seq<(Seq<u8>, ExtraValueV)>|
                pairs_ok(ps) && s@.subrange(i as int, s@.len() as int) == #[trigger] spec_enc_extra(
                    ps,
                ) + seq![125u8] implies false by {
                lemma_tail_structure(s@, i as int, pos as int, ps, k);
                if k < ps.len() {
                    lemma_head_pair(s@, pos as int, ps, k);
                } else {
                    assert(ps.skip(k) =~= Seq::<(Seq<u8>, ExtraValueV)>::empty());
                    assert(s@[pos as int] == s@.subrange(pos as int, s@.len() as int)[0]);
                    assert(s@.len() - pos == 1);
                }
            }
        }
        None
    }
}

/// Where each field of a report sits inside its encoding: the literal
/// bytes at their (symbolic) offsets, and the field segments between.
#[verifier::rlimit(100)]
proof fn lemma_enc_structure(qv: PacketV)
    ensures
        ({
            let e = spec_enc(qv);
            let lid = qv.id.len() as int;
            let lc = qv.color.len() as int;
            &&& e.len() == 40 + lid + lc + spec_enc_extra(qv.extra).len()
            &&& e[0] == 123
            &&& e[1] == 34
            &&& e[2] == 105
            &&& e[3] == 100
            &&& e[4] == 34
            &&& e[5] == 58
            &&& e.subrange(6, 8 + lid) == spec_quoted(qv.id)
            &&& e[8 + lid] == 44
            &&& e[9 + lid] == 34
            &&& e[10 + lid] == 99
            &&& e[11 + lid] == 111
            &&& e[12 + lid] == 108
            &&& e[13 + lid] == 111
            &&& e[14 + lid] == 114
            &&& e[15 + lid] == 34
            &&& e[16 + lid] == 58
            &&& e.subrange(17 + lid, 19 + lid + lc) == spec_quoted(qv.color)
            &&& e[19 + lid + lc] == 44
            &&& e[20 + lid + lc] == 34
            &&& e[21 + lid + lc] == 120
            &&& e[22 + lid + lc] == 34
            &&& e[23 + lid + lc] == 58
            &&& e.subrange(24 + lid + lc, 29 + lid + lc) == spec_d5(qv.x_per_myria)
            &&& e[29 + lid + lc] == 44
            &&& e[30 + lid + lc] == 34
            &&& e[31 + lid + lc] == 121
            &&& e[32 + lid + lc] == 34
            &&& e[33 + lid + lc] == 58
            &&& e.subrange(34 + lid + lc, 39 + lid + lc) == spec_d5(qv.y_per_myria)
            &&& e.subrange(39 + lid + lc, e.len() as int) == spec_enc_extra(qv.extra)
                + seq![125u8]
        }),
{
    let e = spec_enc(qv);
    let lid = qv.id.len() as int;
    let lc = qv.color.len() as int;
    assert(e.subrange(6, 8 + lid) =~= spec_quoted(qv.id));
    assert(e.subrange(17 + lid, 19 + lid + lc) =~= spec_quoted(qv.color));
    assert(e.subrange(24 + lid + lc, 29 + lid + lc) =~= spec_d5(qv.x_per_myria));
    assert(e.subrange(34 + lid + lc, 39 + lid + lc) =~= spec_d5(qv.y_per_myria));
    assert(e.subrange(39 + lid + lc, e.len() as int) =~= spec_enc_extra(qv.extra) + seq![125u8]);
}

/// Reads the opening of a report: brace, identity and color.
#[verifier::rlimit(100)]
fn parse_names(s: &Vec<u8>) -> (r: Option<(Vec<u8>, Vec<u8>, usize)>)
    ensures
        r matches Some(h) ==> ({
            &&& bytes_ok(h.0@)
            &&& bytes_ok(h.1@)
            &&& h.2 <= s@.len()
            &&& h.2 == 19 + h.0@.len() + h.1@.len()
            &&& s@.subrange(0, h.2 as int) == spec_enc_names(h.0@, h.1@)
        }),
        forall|qv: PacketV|
            wf_packet(qv) && s@ == #[trigger] spec_enc(qv) ==> (r matches Some(h) && h.0@ == qv.id
                && h.1@ == qv.color),
{
    if !(s.len() >= 6 && s[0] == 123 && s[1] == 34 && s[2] == 105 && s[3] == 100 && s[4] == 34
        && s[5] == 58) {
        proof {
            assert forall|qv: PacketV| wf_packet(qv) && s@ == spec_enc(qv) implies false by {
                lemma_enc_structure(qv);
            }
        }
        return None;
    }
    let idr = match scan_quoted(s, 6) {
        Some(x) => x,
        None => {
            proof {
                assert forall|qv: PacketV| wf_packet(qv) && s@ == spec_enc(qv) implies false by {
                    lemma_enc_structure(qv);
                    assert(s@.subrange(6, 6 + spec_quoted(qv.id).len() as int) == spec_quoted(
                        qv.id,
                    ));
                }
            }
            return None;
        },
    };
    let (id, j1) = idr;
    if !(s.len() - j1 >= 9 && s[j1] == 44 && s[j1 + 1] == 34 && s[j1 + 2] == 99 && s[j1 + 3]
        == 111 && s[j1 + 4] == 108 && s[j1 + 5] == 111 && s[j1 + 6] == 114 && s[j1 + 7] == 34 && s[
        j1 + 8] == 58) {
        proof {
            assert forall|qv: PacketV| wf_packet(qv) && s@ == spec_enc(qv) implies false by {
                lemma_enc_structure(qv);
                assert(s@.subrange(6, 6 + spec_quoted(qv.id).len() as int) == spec_quoted(qv.id));
                assert(id@ == qv.id);
            }
        }
        return None;
    }
    let cr = match scan_quoted(s, j1 + 9) {
        Some(x) => x,
        None => {
            proof {
                assert forall|qv: PacketV| wf_packet(qv) && s@ == spec_enc(qv) implies false by {
                    lemma_enc_structure(qv);
                    assert(s@.subrange(6, 6 + spec_quoted(qv.id).len() as int) == spec_quoted(
                        qv.id,
                    ));
                    assert(id@ == qv.id);
                    assert(s@.subrange(j1 + 9, j1 + 9 + spec_quoted(qv.color).len() as int)
                        == spec_quoted(qv.color));
                }
            }
            return None;
        },
    };
    let (color, j2) = cr;
    proof {
        assert(s@.subrange(0, 6) =~= seq![123u8] + spec_key_id());
        assert(s@.subrange(j1 as int, j1 + 9) =~= seq![44u8] + spec_key_color());
        assert(s@.subrange(0, j2 as int) =~= spec_enc_names(id@, color@));
        assert forall|qv: PacketV|
            wf_packet(qv) && s@ == spec_enc(qv) implies id@ == qv.id && color@ == qv.color by {
            lemma_enc_structure(qv);
            assert(s@.subrange(6, 6 + spec_quoted(qv.id).len() as int) == spec_quoted(qv.id));
            assert(id@ == qv.id);
            assert(s@.subrange(j1 + 9, j1 + 9 + spec_quoted(qv.color).len() as int)
                == spec_quoted(qv.color));
            assert(color@ == qv.color);
        }
    }
    Some((id, color, j2))
}

/// Reads the fixed head of a report: brace, identity, color, coordinates.
#[verifier::rlimit(100)]
fn parse_header(s: &Vec<u8>) -> (r: Option<(Vec<u8>, Vec<u8>, u64, u64, usize)>)
    ensures
        r matches Some(h) ==> ({
            &&& bytes_ok(h.0@)
            &&& bytes_ok(h.1@)
            &&& h.2 < COORD_WIRE_LIMIT
            &&& h.3 < COORD_WIRE_LIMIT
            &&& h.4 <= s@.len()
            &&& h.4 == 39 + h.0@.len() + h.1@.len()
            &&& s@.subrange(0, h.4 as int) == spec_enc_head(h.0@, h.1@, h.2, h.3)
        }),
        forall|qv: PacketV|
            wf_packet(qv) && s@ == #[trigger] spec_enc(qv) ==> (r matches Some(h) && h.0@ == qv.id
                && h.1@ == qv.color && h.2 == qv.x_per_myria && h.3 == qv.y_per_myria),
{
    let nm = match parse_names(s) {
        Some(x) => x,
        None => {
            return None;
        },
    };
    let (id, color, j2) = nm;
    if !(s.len() - j2 >= 5 && s[j2] == 44 && s[j2 + 1] == 34 && s[j2 + 2] == 120 && s[j2 + 3]
        == 34 && s[j2 + 4] == 58) {
        proof {
            assert forall|qv: PacketV| wf_packet(qv) && s@ == spec_enc(qv) implies false by {
                lemma_enc_structure(qv);
            }
        }
        return None;
    }
    let xr = match parse_d5(s, j2 + 5) {
        Some(x) => x,
        None => {
            proof {
                assert forall|qv: PacketV| wf_packet(qv) && s@ == spec_enc(qv) implies false by {
                    lemma_enc_structure(qv);
                    assert(s@.subrange(j2 + 5, j2 + 5 + 5) == spec_d5(qv.x_per_myria));
                }
            }
            return None;
        },
    };
    let (x, j3) = xr;
    if !(s.len() - j3 >= 5 && s[j3] == 44 && s[j3 + 1] == 34 && s[j3 + 2] == 121 && s[j3 + 3]
        == 34 && s[j3 + 4] == 58) {
        proof {
            assert forall|qv: PacketV| wf_packet(qv) && s@ == spec_enc(qv) implies false by {
                lemma_enc_structure(qv);
            }
        }
        return None;
    }
    let yr = match parse_d5(s, j3 + 5) {
        Some(x) => x,
        None => {
            proof {
                assert forall|qv: PacketV| wf_packet(qv) && s@ == spec_enc(qv) implies false by {
                    lemma_enc_structure(qv);
                    assert(s@.subrange(j3 + 5, j3 + 5 + 5) == spec_d5(qv.y_per_myria));
                }
            }
            return None;
        },
    };
    let (y, j4) = yr;
    proof {
        assert(s@.subrange(j2 as int, j2 + 5) =~= seq![44u8] + spec_key_x());
        assert(s@.subrange(j3 as int, j3 + 5) =~= seq![44u8] + spec_key_y());
        assert(s@.subrange(0, j4 as int) =~= spec_enc_head(id@, color@, x, y));
        assert forall|qv: PacketV|
            wf_packet(qv) && s@ == spec_enc(qv) implies x == qv.x_per_myria && y
            == qv.y_per_myria by {
            lemma_enc_structure(qv);
            assert(s@.subrange(j2 + 5, j2 + 5 + 5) == spec_d5(qv.x_per_myria));
            assert(s@.subrange(j3 + 5, j3 + 5 + 5) == spec_d5(qv.y_per_myria));
        }
    }
    Some((id, color, x, y, j4))
}

/// Deserializes wire bytes back into a report. Exactly the encodings of
/// well-formed reports are accepted, and decoding recovers the encoded
/// report: together with `encode_packet` this is the round trip.
#[verifier::rlimit(60)]
pub fn decode_packet(s: &Vec<u8>) -> (r: Option<Packet>)
    ensures
        r matches Some(p) ==> wf_packet(p@) && s@ == spec_enc(p@),
        forall|qv: PacketV|
            wf_packet(qv) && s@ == #[trigger] spec_enc(qv) ==> (r matches Some(p) && p@ == qv),
{
    let h = match parse_header(s) {
        Some(h) => h,
        None => {
            return None;
        },
    };
    let (id, color, x, y, j4) = h;
    let er = match parse_extras(s, j4) {
        Some(e) => e,
        None => {
            proof {
                assert forall|qv: PacketV| wf_packet(qv) && s@ == spec_enc(qv) implies false by {
                    lemma_enc_structure(qv);
                    assert(j4 == 39 + qv.id.len() + qv.color.len());
                    assert(s@.subrange(j4 as int, s@.len() as int) == spec_enc_extra(qv.extra)
                        + seq![125u8]);
                }
            }
            return None;
        },
    };
    let (extra, _j5) = er;
    let p = Packet { id, color, x_per_myria: x, y_per_myria: y, extra };
    proof {
        assert(s@ =~= s@.subrange(0, j4 as int) + s@.subrange(j4 as int, s@.len() as int));
        assert(s@ =~= spec_enc(p@));
        assert forall|qv: PacketV| wf_packet(qv) && s@ == spec_enc(qv) implies p@ == qv by {
            lemma_enc_structure(qv);
            assert(j4 == 39 + qv.id.len() + qv.color.len());
            assert(s@.subrange(j4 as int, s@.len() as int) == spec_enc_extra(qv.extra)
                + seq![125u8]);
            assert(spec_extra_view(extra@) == qv.extra);
            assert(p@ =~= qv);
        }
    }
    Some(p)
}

/// A fresh copy of a byte string.
pub fn clone_bytes(v: &Vec<u8>) -> (r: Vec<u8>)
    ensures
        r@ == v@,
{
    let mut out: Vec<u8> = Vec::new();
    let mut i: usize = 0;
    while i < v.len()
        invariant
            i <= v@.len(),
            out@ == v@.take(i as int),
        decreases v@.len() - i,
    {
        out.push(v[i]);
        proof {
            assert(v@.take(i + 1) =~= v@.take(i as int).push(v@[i as int]));
        }
        i = i + 1;
    }
    proof {
        assert(v@.take(v@.len() as int) =~= v@);
    }
    out
}

/// Byte-for-byte equality of two strings.
pub fn bytes_eq(a: &Vec<u8>, b: &Vec<u8>) -> (r: bool)
    ensures
        r <==> a@ =~= b@,
{
    if a.len() != b.len() {
        return false;
    }
    let mut i: usize = 0;
    while i < a.len()
        invariant
            i <= a@.len(),
            a@.len() == b@.len(),
            forall|j: int| 0 <= j < i ==> a@[j] == b@[j],
        decreases a@.len() - i,
    {
        if a[i] != b[i] {
            return false;
        }
        i = i + 1;
    }
    proof {
        assert(a@ =~= b@);
    }
    true
}

} // verus!
