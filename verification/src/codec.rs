//! The byte codec for stored values: length-prefixed, little-endian, with
//! string payloads in UTF-8 and every count carried as a base-128
//! variable-length integer. Each encoder comes with a decoder and a proof
//! that decoding an encoding yields the encoded value.

use vstd::prelude::*;

use vstd::bytes::{
    lemma_auto_spec_u64_to_from_le_bytes, spec_u64_from_le_bytes, spec_u64_to_le_bytes,
    u64_from_le_bytes, u64_to_le_bytes,
};
use vstd::utf8::{decode_utf8, encode_utf8, encode_utf8_decode_utf8, encode_utf8_valid_utf8, valid_utf8};

use crate::arith::{lemma_mul_exceeds, lemma_mul_within};
use crate::kv::KvCodec;
use crate::metadata::{
    lemma_tag_values_view, opt_string_view, tag_value_view, tag_values_view, AlbumId, ArtworkRef,
    ArtworkRefV, TagDelta, TagDeltaV, TagMap, TagValue, TagValueV, TrackId, TrackIdV,
    TrackMetadata, TrackMetadataV,
};

verus! {

broadcast use vstd::std_specs::vec::group_vec_axioms, vstd::seq::axiom_seq_index_decreases;

/// Appends the bytes of `b` to `a`.
pub fn push_bytes(a: &mut Vec<u8>, b: &Vec<u8>)
    ensures
        final(a)@ == old(a)@ + b@,
{
    let mut i: usize = 0;
    while i < b.len()
        invariant
            i <= b@.len(),
            a@ == old(a)@ + b@.subrange(0, i as int),
        decreases b@.len() - i,
    {
        let c = b[i];
        a.push(c);
        i = i + 1;
        proof {
            assert(a@ =~= old(a)@ + b@.subrange(0, i as int));
        }
    }
    proof {
        assert(a@ =~= old(a)@ + b@);
    }
}

/// A number of any size as base-128 digits, least significant first, the
/// high bit marking a continuation.
pub open spec fn enc_nat(n: nat) -> Seq<u8>
    decreases n,
{
    if n < 128 {
        seq![n as u8]
    } else {
        seq![(n % 128 + 128) as u8] + enc_nat(n / 128)
    }
}

/// Reads a base-128 number at `i`: the value and the position after it.
pub open spec fn dec_nat(bytes: Seq<u8>, i: int) -> Option<(nat, int)>
    decreases bytes.len() - i,
{
    if i < 0 || i >= bytes.len() {
        None
    } else if bytes[i] < 128 {
        Some((bytes[i] as nat, i + 1))
    } else {
        match dec_nat(bytes, i + 1) {
            None => None,
            Some((m, j)) => Some((((bytes[i] - 128) + 128 * m) as nat, j)),
        }
    }
}

/// Decoding an encoded number from wherever it stands yields the number
/// and stops right after it.
pub proof fn lemma_dec_enc_nat(n: nat, bytes: Seq<u8>, i: int)
    requires
        0 <= i,
        bytes.len() >= i + enc_nat(n).len(),
        bytes.subrange(i, i + enc_nat(n).len()) == enc_nat(n),
    ensures
        dec_nat(bytes, i) == Some((n, i + enc_nat(n).len())),
    decreases n,
{
    let e = enc_nat(n);
    if n < 128 {
        assert(bytes[i] == e[0]);
    } else {
        vstd::arithmetic::div_mod::lemma_mod_bound(n as int, 128);
        let e2 = enc_nat(n / 128);
        let hd = seq![(n % 128 + 128) as u8];
        lemma_split2(bytes, i, hd, e2);
        assert(bytes[i] == bytes.subrange(i, i + 1)[0]);
        lemma_dec_enc_nat(n / 128, bytes, i + 1);
        vstd::arithmetic::div_mod::lemma_fundamental_div_mod(n as int, 128);
    }
}

/// Writes `x` as base-128 digits.
pub fn enc_nat_exec(x: u64) -> (r: Vec<u8>)
    ensures
        r@ == enc_nat(x as nat),
    decreases x,
{
    if x < 128 {
        let mut r: Vec<u8> = Vec::new();
        r.push(x as u8);
        proof {
            assert(r@ =~= enc_nat(x as nat));
        }
        r
    } else {
        let mut r: Vec<u8> = Vec::new();
        r.push((x % 128 + 128) as u8);
        let rest = enc_nat_exec(x / 128);
        push_bytes(&mut r, &rest);
        proof {
            assert(r@ =~= enc_nat(x as nat));
        }
        r
    }
}

/// Reads a base-128 number: the value if it fits a `u64`, and where it
/// ended.
pub fn dec_nat_exec(bytes: &Vec<u8>, i: usize) -> (r: Option<(u64, usize)>)
    ensures
        match dec_nat(bytes@, i as int) {
            None => r is None,
            Some((n, j)) => if n <= u64::MAX {
                r == Some((n as u64, j as usize)) && i < j <= bytes@.len()
            } else {
                r is None
            },
        },
    decreases bytes@.len() - i,
{
    proof {
        lemma_dec_nat_bounds(bytes@, i as int);
    }
    if i >= bytes.len() {
        return None;
    }
    let b = bytes[i];
    if b < 128 {
        Some((b as u64, i + 1))
    } else {
        match dec_nat_exec(bytes, i + 1) {
            None => None,
            Some((m, j)) => {
                let lo: u64 = (b - 128) as u64;
                if m > (u64::MAX - lo) / 128 {
                    proof {
                        lemma_mul_exceeds(m as int, 128, u64::MAX - lo);
                    }
                    None
                } else {
                    proof {
                        lemma_mul_within(m as int, 128, u64::MAX - lo);
                    }
                    Some((lo + 128 * m, j))
                }
            },
        }
    }
}

/// Where reading a number succeeds, it ends past where it began and inside
/// the bytes.
pub proof fn lemma_dec_nat_bounds(bytes: Seq<u8>, i: int)
    ensures
        match dec_nat(bytes, i) {
            Some((n, j)) => i < j <= bytes.len(),
            None => true,
        },
    decreases bytes.len() - i,
{
    if 0 <= i < bytes.len() && bytes[i] >= 128 {
        lemma_dec_nat_bounds(bytes, i + 1);
    }
}

/// A fixed eight-byte little-endian `u64`.
pub open spec fn enc_u64(x: u64) -> Seq<u8> {
    spec_u64_to_le_bytes(x)
}

/// Reads an eight-byte little-endian `u64` at `i`.
pub open spec fn dec_u64(bytes: Seq<u8>, i: int) -> Option<(u64, int)> {
    if 0 <= i && i + 8 <= bytes.len() {
        Some((spec_u64_from_le_bytes(bytes.subrange(i, i + 8)), i + 8))
    } else {
        None
    }
}

/// Decoding an encoded `u64` from wherever it stands yields it back.
pub proof fn lemma_dec_enc_u64(x: u64, bytes: Seq<u8>, i: int)
    requires
        0 <= i,
        bytes.len() >= i + 8,
        bytes.subrange(i, i + 8) == enc_u64(x),
    ensures
        dec_u64(bytes, i) == Some((x, i + 8)),
{
    lemma_auto_spec_u64_to_from_le_bytes();
}

/// Reads an eight-byte little-endian `u64`.
pub fn dec_u64_exec(bytes: &Vec<u8>, i: usize) -> (r: Option<(u64, usize)>)
    ensures
        match r {
            Some(p) => dec_u64(bytes@, i as int) == Some((p.0, p.1 as int)),
            None => dec_u64(bytes@, i as int) is None,
        },
{
    if i <= bytes.len() && bytes.len() - i >= 8 {
        let s = &bytes.as_slice()[i..i + 8];
        let x = u64_from_le_bytes(s);
        Some((x, i + 8))
    } else {
        None
    }
}

/// A string as its UTF-8 bytes behind their count.
pub open spec fn enc_string(s: Seq<char>) -> Seq<u8> {
    enc_nat(encode_utf8(s).len()) + encode_utf8(s)
}

/// Reads a string at `i`: its byte count, then that many bytes of valid
/// UTF-8.
pub open spec fn dec_string(bytes: Seq<u8>, i: int) -> Option<(Seq<char>, int)> {
    match dec_nat(bytes, i) {
        None => None,
        Some((n, j)) => if j + n <= bytes.len() && valid_utf8(bytes.subrange(j, j + n as int)) {
            Some((decode_utf8(bytes.subrange(j, j + n as int)), j + n as int))
        } else {
            None
        },
    }
}

/// Decoding an encoded string from wherever it stands yields it back.
pub proof fn lemma_dec_enc_string(s: Seq<char>, bytes: Seq<u8>, i: int)
    requires
        0 <= i,
        bytes.len() >= i + enc_string(s).len(),
        bytes.subrange(i, i + enc_string(s).len()) == enc_string(s),
    ensures
        dec_string(bytes, i) == Some((s, i + enc_string(s).len())),
{
    let u = encode_utf8(s);
    let ln = enc_nat(u.len());
    lemma_split2(bytes, i, ln, u);
    lemma_dec_enc_nat(u.len(), bytes, i);
    encode_utf8_valid_utf8(s);
    encode_utf8_decode_utf8(s);
}

/// Relies on `str::from_utf8`: it accepts exactly the byte sequences that
/// are valid UTF-8, and the accepted string consists of exactly those
/// bytes.
#[verifier::external_body]
fn utf8_to_string(v: &[u8]) -> (r: Option<String>)
    ensures
        match r {
            Some(s) => valid_utf8(v@) && encode_utf8(s@) == v@,
            None => !valid_utf8(v@),
        },
{
    match std::str::from_utf8(v) {
        Ok(s) => Some(s.to_owned()),
        Err(_) => None,
    }
}

/// Writes a string as its byte count and UTF-8 bytes.
pub fn enc_string_exec(s: &String) -> (r: Vec<u8>)
    ensures
        r@ == enc_string(s@),
{
    let bv = s.as_str().as_bytes_vec();
    let mut r = enc_nat_exec(bv.len() as u64);
    push_bytes(&mut r, &bv);
    r
}

/// Reads a string.
pub fn dec_string_exec(bytes: &Vec<u8>, i: usize) -> (r: Option<(String, usize)>)
    ensures
        match r {
            Some(p) => dec_string(bytes@, i as int) == Some((p.0@, p.1 as int)),
            None => dec_string(bytes@, i as int) is None,
        },
{
    let blen = bytes.len();
    match dec_nat_exec(bytes, i) {
        None => {
            proof {
                if dec_nat(bytes@, i as int) is Some {
                    let (n, j) = dec_nat(bytes@, i as int)->Some_0;
                    lemma_dec_nat_bounds(bytes@, i as int);
                    assert(n > u64::MAX);
                    assert(bytes@.len() == blen as int);
                    assert(usize::MAX as nat <= u64::MAX as nat);
                    assert(j + n > bytes@.len());
                }
            }
            None
        },
        Some((n, j)) => {
            if n <= (bytes.len() - j) as u64 {
                let nn = n as usize;
                let s = &bytes.as_slice()[j..j + nn];
                proof {
                    assert(s@ =~= bytes@.subrange(j as int, j as int + n as int));
                }
                match utf8_to_string(s) {
                    Some(st) => {
                        proof {
                            encode_utf8_decode_utf8(st@);
                        }
                        Some((st, j + nn))
                    },
                    None => None,
                }
            } else {
                None
            }
        },
    }
}

/// One tag value as bytes: a tag byte, then the payload; lists carry
/// their element count and then the elements.
pub open spec fn enc_value(v: TagValueV) -> Seq<u8>
    decreases v,
{
    match v {
        TagValueV::Text(s) => seq![0u8] + enc_string(s),
        TagValueV::Number(n) => seq![1u8] + enc_u64(n as u64),
        TagValueV::FloatBits(b) => seq![2u8] + enc_u64(b),
        TagValueV::Bool(b) => seq![3u8] + seq![if b { 1u8 } else { 0u8 }],
        TagValueV::List(l) => seq![4u8] + enc_nat(l.len()) + enc_values(l),
    }
}

/// A sequence of tag values as bytes, in order.
pub open spec fn enc_values(l: Seq<TagValueV>) -> Seq<u8>
    decreases l,
    via enc_values_decreases
{
    if l.len() == 0 {
        Seq::empty()
    } else {
        enc_values(l.drop_last()) + enc_value(l.last())
    }
}

#[via_fn]
proof fn enc_values_decreases(l: Seq<TagValueV>) {
    if l.len() > 0 {
        assert(decreases_to!(l => l.last()));
        assert(l.drop_last() =~= l.subrange(0, l.len() - 1));
        vstd::seq::axiom_seq_subrange_decreases(l, 0, l.len() - 1);
        assert(decreases_to!(l => l.drop_last()));
    }
}

/// Reads one tag value at `i`.
pub open spec fn dec_value(bytes: Seq<u8>, i: int) -> Option<(TagValueV, int)>
    decreases bytes.len() - i, 0nat,
{
    if i < 0 || i >= bytes.len() {
        None
    } else {
        let tag = bytes[i];
        if tag == 0 {
            match dec_string(bytes, i + 1) {
                None => None,
                Some((s, j)) => Some((TagValueV::Text(s), j)),
            }
        } else if tag == 1 {
            match dec_u64(bytes, i + 1) {
                None => None,
                Some((x, j)) => Some((TagValueV::Number(x as i64), j)),
            }
        } else if tag == 2 {
            match dec_u64(bytes, i + 1) {
                None => None,
                Some((x, j)) => Some((TagValueV::FloatBits(x), j)),
            }
        } else if tag == 3 {
            if i + 1 < bytes.len() && (bytes[i + 1] == 0 || bytes[i + 1] == 1) {
                Some((TagValueV::Bool(bytes[i + 1] == 1), i + 2))
            } else {
                None
            }
        } else if tag == 4 {
            match dec_nat(bytes, i + 1) {
                None => None,
                Some((n, j)) => if j > i && j <= bytes.len() {
                    match dec_values(bytes, j, n) {
                        None => None,
                        Some((l, j2)) => Some((TagValueV::List(l), j2)),
                    }
                } else {
                    None
                },
            }
        } else {
            None
        }
    }
}

/// Reads `n` tag values at `i`, each beginning after the one before.
pub open spec fn dec_values(bytes: Seq<u8>, i: int, n: nat) -> Option<(Seq<TagValueV>, int)>
    decreases bytes.len() - i, n + 1,
{
    if i < 0 || i > bytes.len() {
        None
    } else if n == 0 {
        Some((Seq::empty(), i))
    } else {
        match dec_value(bytes, i) {
            None => None,
            Some((v, j)) => if j <= i || j > bytes.len() {
                None
            } else {
                match dec_values(bytes, j, (n - 1) as nat) {
                    None => None,
                    Some((l, j2)) => Some((seq![v] + l, j2)),
                }
            },
        }
    }
}

/// Where reading a value succeeds, it ends past where it began and inside
/// the bytes.
pub proof fn lemma_dec_value_bounds(bytes: Seq<u8>, i: int)
    ensures
        match dec_value(bytes, i) {
            Some((v, j)) => i < j <= bytes.len(),
            None => true,
        },
    decreases bytes.len() - i, 0nat,
{
    if 0 <= i < bytes.len() {
        let tag = bytes[i];
        if tag == 0 {
            lemma_dec_string_bounds(bytes, i + 1);
        } else if tag == 4 {
            lemma_dec_nat_bounds(bytes, i + 1);
            match dec_nat(bytes, i + 1) {
                None => {},
                Some((n, j)) => {
                    if j > i && j <= bytes.len() {
                        lemma_dec_values_bounds(bytes, j, n);
                    }
                },
            }
        }
    }
}

/// Where reading a string succeeds, it ends past where it began and
/// inside the bytes.
pub proof fn lemma_dec_string_bounds(bytes: Seq<u8>, i: int)
    ensures
        match dec_string(bytes, i) {
            Some((s, j)) => i < j <= bytes.len(),
            None => true,
        },
{
    lemma_dec_nat_bounds(bytes, i);
}

/// Where reading values succeeds, it does not move backwards and stays
/// inside the bytes.
pub proof fn lemma_dec_values_bounds(bytes: Seq<u8>, i: int, n: nat)
    ensures
        match dec_values(bytes, i, n) {
            Some((l, j)) => i <= j <= bytes.len() && l.len() == n,
            None => true,
        },
    decreases bytes.len() - i, n + 1,
{
    if 0 <= i <= bytes.len() && n > 0 {
        lemma_dec_value_bounds(bytes, i);
        match dec_value(bytes, i) {
            None => {},
            Some((v, j)) => {
                if i < j <= bytes.len() {
                    lemma_dec_values_bounds(bytes, j, (n - 1) as nat);
                }
            },
        }
    }
}

/// Decoding an encoded tag value from wherever it stands yields it back.
pub proof fn lemma_dec_enc_value(v: TagValueV, bytes: Seq<u8>, i: int)
    requires
        0 <= i,
        bytes.len() >= i + enc_value(v).len(),
        bytes.subrange(i, i + enc_value(v).len()) == enc_value(v),
    ensures
        dec_value(bytes, i) == Some((v, i + enc_value(v).len())),
    decreases v, 0nat,
{
    let e = enc_value(v);
    match v {
        TagValueV::Text(s) => {
            lemma_split2(bytes, i, seq![0u8], enc_string(s));
            assert(bytes[i] == bytes.subrange(i, i + 1)[0]);
            lemma_dec_enc_string(s, bytes, i + 1);
        },
        TagValueV::Number(n) => {
            lemma_split2(bytes, i, seq![1u8], enc_u64(n as u64));
            assert(bytes[i] == bytes.subrange(i, i + 1)[0]);
            assert(enc_u64(n as u64).len() == 8) by {
                lemma_auto_spec_u64_to_from_le_bytes();
            }
            lemma_dec_enc_u64(n as u64, bytes, i + 1);
            assert((n as u64) as i64 == n) by (bit_vector);
        },
        TagValueV::FloatBits(b) => {
            lemma_split2(bytes, i, seq![2u8], enc_u64(b));
            assert(bytes[i] == bytes.subrange(i, i + 1)[0]);
            assert(enc_u64(b).len() == 8) by {
                lemma_auto_spec_u64_to_from_le_bytes();
            }
            lemma_dec_enc_u64(b, bytes, i + 1);
        },
        TagValueV::Bool(b) => {
            lemma_split2(bytes, i, seq![3u8], seq![if b { 1u8 } else { 0u8 }]);
            assert(bytes[i] == bytes.subrange(i, i + 1)[0]);
            assert(bytes[i + 1] == bytes.subrange(i + 1, i + 2)[0]);
        },
        TagValueV::List(l) => {
            let ln = enc_nat(l.len());
            let ev = enc_values(l);
            assert(e =~= seq![4u8] + (ln + ev));
            lemma_split2(bytes, i, seq![4u8], ln + ev);
            assert(bytes[i] == bytes.subrange(i, i + 1)[0]);
            lemma_split2(bytes, i + 1, ln, ev);
            lemma_dec_enc_nat(l.len(), bytes, i + 1);
            let j = i + 1 + ln.len() as int;
            lemma_dec_enc_values(l, bytes, j);
        },
    }
}

/// Decoding encoded tag values from wherever they stand yields them back.
pub proof fn lemma_dec_enc_values(l: Seq<TagValueV>, bytes: Seq<u8>, i: int)
    requires
        0 <= i,
        bytes.len() >= i + enc_values(l).len(),
        bytes.subrange(i, i + enc_values(l).len()) == enc_values(l),
    ensures
        dec_values(bytes, i, l.len()) == Some((l, i + enc_values(l).len())),
    decreases l, 1nat,
{
    if l.len() == 0 {
    } else {
        let first = l[0];
        let rest = l.subrange(1, l.len() as int);
        lemma_enc_values_head(l);
        let ef = enc_value(first);
        let er = enc_values(rest);
        lemma_split2(bytes, i, ef, er);
        proof_decreases_helper(l, first);
        lemma_dec_enc_value_for_first(first, bytes, i);
        lemma_enc_value_nonempty(first);
        let j = i + ef.len() as int;
        lemma_dec_enc_values_for_rest(l, rest, bytes, j);
        assert(seq![first] + rest =~= l);
    }
}

/// The encoding of a nonempty sequence starts with its first element's
/// encoding.
proof fn lemma_enc_values_head(l: Seq<TagValueV>)
    requires
        l.len() > 0,
    ensures
        enc_values(l) == enc_value(l[0]) + enc_values(l.subrange(1, l.len() as int)),
    decreases l.len(),
{
    if l.len() == 1 {
        assert(l.drop_last() =~= Seq::<TagValueV>::empty());
        assert(l.subrange(1, l.len() as int) =~= Seq::<TagValueV>::empty());
        assert(enc_values(l) =~= enc_value(l[0]) + enc_values(l.subrange(1, l.len() as int)));
    } else {
        let d = l.drop_last();
        lemma_enc_values_head(d);
        assert(d[0] == l[0]);
        assert(d.subrange(1, d.len() as int) =~= l.subrange(1, l.len() as int).drop_last());
        assert(l.subrange(1, l.len() as int).last() == l.last());
        assert(enc_values(l) == enc_values(d) + enc_value(l.last()));
        assert(enc_values(l.subrange(1, l.len() as int)) == enc_values(
            l.subrange(1, l.len() as int).drop_last(),
        ) + enc_value(l.last()));
        assert(enc_values(l) =~= enc_value(l[0]) + enc_values(l.subrange(1, l.len() as int)));
    }
}

/// An encoded value is never empty: it starts with its tag byte.
proof fn lemma_enc_value_nonempty(v: TagValueV)
    ensures
        enc_value(v).len() >= 1,
{
}

proof fn proof_decreases_helper(l: Seq<TagValueV>, first: TagValueV)
    requires
        l.len() > 0,
        first == l[0],
    ensures
        decreases_to!(l => first),
{
    assert(decreases_to!(l => l[0]));
}

/// The first element round trip, phrased to fit the structural measure.
proof fn lemma_dec_enc_value_for_first(v: TagValueV, bytes: Seq<u8>, i: int)
    requires
        0 <= i,
        bytes.len() >= i + enc_value(v).len(),
        bytes.subrange(i, i + enc_value(v).len()) == enc_value(v),
    ensures
        dec_value(bytes, i) == Some((v, i + enc_value(v).len())),
    decreases v, 3nat,
{
    lemma_dec_enc_value(v, bytes, i);
}

/// The remaining elements round trip, phrased to fit the structural
/// measure.
proof fn lemma_dec_enc_values_for_rest(
    l: Seq<TagValueV>,
    rest: Seq<TagValueV>,
    bytes: Seq<u8>,
    i: int,
)
    requires
        l.len() > 0,
        rest == l.subrange(1, l.len() as int),
        0 <= i,
        bytes.len() >= i + enc_values(rest).len(),
        bytes.subrange(i, i + enc_values(rest).len()) == enc_values(rest),
    ensures
        dec_values(bytes, i, rest.len()) == Some((rest, i + enc_values(rest).len())),
    decreases l, 0nat,
{
    assert(rest =~= l.subrange(1, l.len() as int));
    vstd::seq::axiom_seq_subrange_decreases(l, 1, l.len() as int);
    lemma_dec_enc_values(rest, bytes, i);
}

/// A window inside a window, shifted to absolute positions.
proof fn lemma_sub_sub(bytes: Seq<u8>, i: int, off1: int, off2: int, len: int)
    requires
        0 <= i,
        0 <= off1 <= off2 <= len,
        i + len <= bytes.len(),
    ensures
        bytes.subrange(i + off1, i + off2) =~= bytes.subrange(i, i + len).subrange(off1, off2),
{
}

/// Where a window holds a concatenation, its two halves hold the parts.
proof fn lemma_split2(bytes: Seq<u8>, i: int, a: Seq<u8>, b: Seq<u8>)
    requires
        0 <= i,
        i + a.len() + b.len() <= bytes.len(),
        bytes.subrange(i, i + a.len() + b.len()) == a + b,
    ensures
        bytes.subrange(i, i + a.len() as int) == a,
        bytes.subrange(i + a.len(), i + a.len() + b.len()) == b,
{
    let l = a.len() as int + b.len() as int;
    lemma_sub_sub(bytes, i, 0, a.len() as int, l);
    lemma_sub_sub(bytes, i, a.len() as int, l, l);
    assert((a + b).subrange(0, a.len() as int) =~= a);
    assert((a + b).subrange(a.len() as int, l) =~= b);
}

/// Writes one tag value.
pub fn enc_value_exec(v: &TagValue) -> (r: Vec<u8>)
    ensures
        r@ == enc_value(v@),
    decreases *v,
{
    match v {
        TagValue::Text(s) => {
            let mut r: Vec<u8> = Vec::new();
            r.push(0u8);
            let sb = enc_string_exec(s);
            push_bytes(&mut r, &sb);
            proof {
                assert(r@ =~= enc_value(v@));
            }
            r
        },
        TagValue::Number(n) => {
            let mut r: Vec<u8> = Vec::new();
            r.push(1u8);
            let nb = u64_to_le_bytes(*n as u64);
            push_bytes(&mut r, &nb);
            proof {
                assert(r@ =~= enc_value(v@));
            }
            r
        },
        TagValue::FloatBits(b) => {
            let mut r: Vec<u8> = Vec::new();
            r.push(2u8);
            let nb = u64_to_le_bytes(*b);
            push_bytes(&mut r, &nb);
            proof {
                assert(r@ =~= enc_value(v@));
            }
            r
        },
        TagValue::Bool(b) => {
            let mut r: Vec<u8> = Vec::new();
            r.push(3u8);
            r.push(if *b { 1u8 } else { 0u8 });
            proof {
                assert(r@ =~= enc_value(v@));
            }
            r
        },
        TagValue::List(l) => {
            let ghost lv = tag_values_view(l@);
            proof {
                lemma_tag_values_view(l@);
            }
            let mut r: Vec<u8> = Vec::new();
            r.push(4u8);
            let cb = enc_nat_exec(l.len() as u64);
            push_bytes(&mut r, &cb);
            let ghost header = r@;
            let mut i: usize = 0;
            proof {
                assert(enc_values(lv.subrange(0, 0)) =~= Seq::<u8>::empty());
                assert(r@ =~= header + enc_values(lv.subrange(0, 0)));
            }
            while i < l.len()
                invariant
                    *v == TagValue::List(*l),
                    lv == tag_values_view(l@),
                    lv.len() == l@.len(),
                    forall|k: int| 0 <= k < l@.len() ==> lv[k] == tag_value_view(l@[k]),
                    i <= l@.len(),
                    header == seq![4u8] + enc_nat(l@.len() as nat),
                    r@ == header + enc_values(lv.subrange(0, i as int)),
                decreases l@.len() - i,
            {
                proof {
                    assert(decreases_to!((*v)->List_0 => l@));
                    assert(decreases_to!(l@ => l@[i as int]));
                }
                let eb = enc_value_exec(&l[i]);
                push_bytes(&mut r, &eb);
                i = i + 1;
                proof {
                    let pre = lv.subrange(0, i - 1);
                    let cur = lv.subrange(0, i as int);
                    assert(cur.drop_last() =~= pre);
                    assert(cur.last() == lv[i - 1]);
                    assert(enc_values(cur) == enc_values(pre) + enc_value(lv[i - 1]));
                    assert(r@ =~= header + enc_values(cur));
                }
            }
            proof {
                assert(lv.subrange(0, lv.len() as int) =~= lv);
                assert(r@ =~= enc_value(v@));
            }
            r
        },
    }
}

/// Where reading values succeeds, there was one byte or more for each.
pub proof fn lemma_dec_values_count(bytes: Seq<u8>, i: int, n: nat)
    requires
        0 <= i <= bytes.len(),
    ensures
        dec_values(bytes, i, n) is Some ==> n <= (bytes.len() - i) as nat,
    decreases bytes.len() - i, n + 1,
{
    if n > 0 && dec_values(bytes, i, n) is Some {
        match dec_value(bytes, i) {
            None => {},
            Some((v, j)) => {
                if i < j <= bytes.len() {
                    lemma_dec_values_count(bytes, j, (n - 1) as nat);
                }
            },
        }
    }
}

/// Reads one tag value.
pub fn dec_value_exec(bytes: &Vec<u8>, i: usize) -> (r: Option<(TagValue, usize)>)
    ensures
        match r {
            Some(p) => dec_value(bytes@, i as int) == Some((p.0@, p.1 as int)),
            None => dec_value(bytes@, i as int) is None,
        },
    decreases bytes@.len() - i, 0nat,
{
    if i >= bytes.len() {
        return None;
    }
    let tag = bytes[i];
    if tag == 0 {
        match dec_string_exec(bytes, i + 1) {
            Some((st, j)) => Some((TagValue::Text(st), j)),
            None => None,
        }
    } else if tag == 1 {
        match dec_u64_exec(bytes, i + 1) {
            Some((x, j)) => {
                let res = Some((TagValue::Number(x as i64), j));
                proof {
                    assert((x as i64) as u64 == x) by (bit_vector);
                }
                res
            },
            None => None,
        }
    } else if tag == 2 {
        match dec_u64_exec(bytes, i + 1) {
            Some((x, j)) => Some((TagValue::FloatBits(x), j)),
            None => None,
        }
    } else if tag == 3 {
        if i + 1 < bytes.len() && (bytes[i + 1] == 0 || bytes[i + 1] == 1) {
            Some((TagValue::Bool(bytes[i + 1] == 1), i + 2))
        } else {
            None
        }
    } else if tag == 4 {
        let blen = bytes.len();
        match dec_nat_exec(bytes, i + 1) {
            None => {
                proof {
                    if dec_nat(bytes@, i as int + 1) is Some {
                        let (n, j) = dec_nat(bytes@, i as int + 1)->Some_0;
                        lemma_dec_nat_bounds(bytes@, i as int + 1);
                        assert(n > u64::MAX);
                        assert(bytes@.len() == blen as int);
                        assert(usize::MAX as nat <= u64::MAX as nat);
                        lemma_dec_values_count(bytes@, j, n);
                    }
                }
                None
            },
            Some((n, j)) => {
                if n > (bytes.len() - j) as u64 {
                    proof {
                        lemma_dec_values_count(bytes@, j as int, n as nat);
                    }
                    None
                } else {
                    match dec_values_exec(bytes, j, n as usize) {
                        None => None,
                        Some((vs, j2)) => Some((TagValue::List(vs), j2)),
                    }
                }
            },
        }
    } else {
        None
    }
}

/// Reads `n` tag values.
pub fn dec_values_exec(bytes: &Vec<u8>, i: usize, n: usize) -> (r: Option<(Vec<TagValue>, usize)>)
    ensures
        match r {
            Some(p) => dec_values(bytes@, i as int, n as nat) == Some(
                (tag_values_view(p.0@), p.1 as int),
            ),
            None => dec_values(bytes@, i as int, n as nat) is None,
        },
    decreases bytes@.len() - i, n as nat + 1,
{
    if i > bytes.len() {
        return None;
    }
    if n == 0 {
        let r: Vec<TagValue> = Vec::new();
        proof {
            assert(tag_values_view(r@) =~= Seq::<TagValueV>::empty());
        }
        return Some((r, i));
    }
    match dec_value_exec(bytes, i) {
        None => None,
        Some((v, j)) => {
            if j <= i || j > bytes.len() {
                None
            } else {
                match dec_values_exec(bytes, j, n - 1) {
                    None => None,
                    Some((vs, j2)) => {
                        let mut vs = vs;
                        let ghost oldvs = vs@;
                        vs.insert(0, v);
                        proof {
                            lemma_tag_values_view(vs@);
                            lemma_tag_values_view(oldvs);
                            assert(tag_values_view(vs@) =~= seq![v@] + tag_values_view(oldvs));
                        }
                        Some((vs, j2))
                    },
                }
            }
        },
    }
}

/// One stored pair: the name, then the value.
pub open spec fn enc_pair(p: (Seq<char>, TagValueV)) -> Seq<u8> {
    enc_string(p.0) + enc_value(p.1)
}

/// A sequence of stored pairs, in order.
pub open spec fn enc_pairs(ps: Seq<(Seq<char>, TagValueV)>) -> Seq<u8>
    decreases ps.len(),
{
    if ps.len() == 0 {
        Seq::empty()
    } else {
        enc_pairs(ps.drop_last()) + enc_pair(ps.last())
    }
}

/// Reads `n` pairs at `i`.
pub open spec fn dec_pairs(bytes: Seq<u8>, i: int, n: nat) -> Option<
    (Seq<(Seq<char>, TagValueV)>, int),
>
    decreases bytes.len() - i, n,
{
    if i < 0 || i > bytes.len() {
        None
    } else if n == 0 {
        Some((Seq::empty(), i))
    } else {
        match dec_string(bytes, i) {
            None => None,
            Some((k, j)) => if j <= i || j > bytes.len() {
                None
            } else {
                match dec_value(bytes, j) {
                    None => None,
                    Some((v, j2)) => if j2 <= j || j2 > bytes.len() {
                        None
                    } else {
                        match dec_pairs(bytes, j2, (n - 1) as nat) {
                            None => None,
                            Some((ps, j3)) => Some((seq![(k, v)] + ps, j3)),
                        }
                    },
                }
            },
        }
    }
}

/// The encoding of a nonempty pair sequence starts with its first pair.
proof fn lemma_enc_pairs_head(ps: Seq<(Seq<char>, TagValueV)>)
    requires
        ps.len() > 0,
    ensures
        enc_pairs(ps) == enc_pair(ps[0]) + enc_pairs(ps.subrange(1, ps.len() as int)),
    decreases ps.len(),
{
    if ps.len() == 1 {
        assert(ps.drop_last() =~= Seq::<(Seq<char>, TagValueV)>::empty());
        assert(ps.subrange(1, ps.len() as int) =~= Seq::<(Seq<char>, TagValueV)>::empty());
        assert(enc_pairs(ps) =~= enc_pair(ps[0]) + enc_pairs(ps.subrange(1, ps.len() as int)));
    } else {
        let d = ps.drop_last();
        lemma_enc_pairs_head(d);
        assert(d[0] == ps[0]);
        assert(d.subrange(1, d.len() as int) =~= ps.subrange(1, ps.len() as int).drop_last());
        assert(ps.subrange(1, ps.len() as int).last() == ps.last());
        assert(enc_pairs(ps) =~= enc_pair(ps[0]) + enc_pairs(ps.subrange(1, ps.len() as int)));
    }
}

/// Decoding encoded pairs from wherever they stand yields them back.
pub proof fn lemma_dec_enc_pairs(ps: Seq<(Seq<char>, TagValueV)>, bytes: Seq<u8>, i: int)
    requires
        0 <= i,
        bytes.len() >= i + enc_pairs(ps).len(),
        bytes.subrange(i, i + enc_pairs(ps).len()) == enc_pairs(ps),
    ensures
        dec_pairs(bytes, i, ps.len()) == Some((ps, i + enc_pairs(ps).len())),
    decreases ps.len(),
{
    if ps.len() > 0 {
        let first = ps[0];
        let rest = ps.subrange(1, ps.len() as int);
        lemma_enc_pairs_head(ps);
        let ek = enc_string(first.0);
        let ev = enc_value(first.1);
        let er = enc_pairs(rest);
        assert(enc_pairs(ps) =~= ek + (ev + er));
        lemma_split2(bytes, i, ek, ev + er);
        lemma_dec_enc_string(first.0, bytes, i);
        let j = i + ek.len() as int;
        lemma_split2(bytes, j, ev, er);
        lemma_dec_enc_value(first.1, bytes, j);
        let j2 = j + ev.len() as int;
        lemma_dec_enc_pairs(rest, bytes, j2);
        assert(seq![(first.0, first.1)] + rest =~= ps);
        assert(enc_string(first.0).len() >= 1);
        lemma_enc_value_nonempty(first.1);
    }
}

/// Where reading pairs succeeds, there was one byte or more for each.
pub proof fn lemma_dec_pairs_count(bytes: Seq<u8>, i: int, n: nat)
    requires
        0 <= i <= bytes.len(),
    ensures
        dec_pairs(bytes, i, n) is Some ==> n <= (bytes.len() - i) as nat,
    decreases bytes.len() - i, n,
{
    if n > 0 && dec_pairs(bytes, i, n) is Some {
        match dec_string(bytes, i) {
            None => {},
            Some((k, j)) => {
                if i < j <= bytes.len() {
                    match dec_value(bytes, j) {
                        None => {},
                        Some((v, j2)) => {
                            if j < j2 <= bytes.len() {
                                lemma_dec_pairs_count(bytes, j2, (n - 1) as nat);
                            }
                        },
                    }
                }
            },
        }
    }
}

/// Writes the pairs of a tag map, in order.
pub fn enc_pairs_exec(m: &Vec<(String, TagValue)>) -> (r: Vec<u8>)
    ensures
        r@ == enc_pairs(pairs_view(m@)),
{
    let ghost pv = pairs_view(m@);
    let mut r: Vec<u8> = Vec::new();
    let mut i: usize = 0;
    proof {
        assert(pv.subrange(0, 0) =~= Seq::<(Seq<char>, TagValueV)>::empty());
        assert(r@ =~= enc_pairs(pv.subrange(0, 0)));
    }
    while i < m.len()
        invariant
            pv == pairs_view(m@),
            pv.len() == m@.len(),
            i <= m@.len(),
            r@ == enc_pairs(pv.subrange(0, i as int)),
        decreases m@.len() - i,
    {
        let kb = enc_string_exec(&m[i].0);
        push_bytes(&mut r, &kb);
        let vb = enc_value_exec(&m[i].1);
        push_bytes(&mut r, &vb);
        i = i + 1;
        proof {
            let pre = pv.subrange(0, i - 1);
            let cur = pv.subrange(0, i as int);
            assert(cur.drop_last() =~= pre);
            assert(cur.last() == pv[i - 1]);
            assert(r@ =~= enc_pairs(cur));
        }
    }
    proof {
        assert(pv.subrange(0, pv.len() as int) =~= pv);
    }
    r
}

/// The (name, value) views of stored entries.
pub open spec fn pairs_view(m: Seq<(String, TagValue)>) -> Seq<(Seq<char>, TagValueV)> {
    Seq::new(m.len(), |i: int| (m[i].0@, m[i].1@))
}

/// Reads `n` pairs.
pub fn dec_pairs_exec(bytes: &Vec<u8>, i: usize, n: usize) -> (r: Option<
    (Vec<(String, TagValue)>, usize),
>)
    ensures
        match r {
            Some(p) => dec_pairs(bytes@, i as int, n as nat) == Some(
                (pairs_view(p.0@), p.1 as int),
            ),
            None => dec_pairs(bytes@, i as int, n as nat) is None,
        },
    decreases bytes@.len() - i, n as nat,
{
    if i > bytes.len() {
        return None;
    }
    if n == 0 {
        let r: Vec<(String, TagValue)> = Vec::new();
        proof {
            assert(pairs_view(r@) =~= Seq::<(Seq<char>, TagValueV)>::empty());
        }
        return Some((r, i));
    }
    match dec_string_exec(bytes, i) {
        None => None,
        Some((k, j)) => {
            if j <= i || j > bytes.len() {
                None
            } else {
                match dec_value_exec(bytes, j) {
                    None => None,
                    Some((v, j2)) => {
                        if j2 <= j || j2 > bytes.len() {
                            None
                        } else {
                            match dec_pairs_exec(bytes, j2, n - 1) {
                                None => None,
                                Some((ps, j3)) => {
                                    let mut ps = ps;
                                    let ghost oldps = ps@;
                                    ps.insert(0, (k, v));
                                    proof {
                                        assert(pairs_view(ps@) =~= seq![(k@, v@)] + pairs_view(
                                            oldps,
                                        ));
                                    }
                                    Some((ps, j3))
                                },
                            }
                        }
                    },
                }
            }
        },
    }
}

/// A sequence of strings, in order.
pub open spec fn enc_strs(ss: Seq<Seq<char>>) -> Seq<u8>
    decreases ss.len(),
{
    if ss.len() == 0 {
        Seq::empty()
    } else {
        enc_strs(ss.drop_last()) + enc_string(ss.last())
    }
}

/// Reads `n` strings at `i`.
pub open spec fn dec_strs(bytes: Seq<u8>, i: int, n: nat) -> Option<(Seq<Seq<char>>, int)>
    decreases bytes.len() - i, n,
{
    if i < 0 || i > bytes.len() {
        None
    } else if n == 0 {
        Some((Seq::empty(), i))
    } else {
        match dec_string(bytes, i) {
            None => None,
            Some((k, j)) => if j <= i || j > bytes.len() {
                None
            } else {
                match dec_strs(bytes, j, (n - 1) as nat) {
                    None => None,
                    Some((ss, j2)) => Some((seq![k] + ss, j2)),
                }
            },
        }
    }
}

/// The encoding of a nonempty string sequence starts with its first
/// string.
proof fn lemma_enc_strs_head(ss: Seq<Seq<char>>)
    requires
        ss.len() > 0,
    ensures
        enc_strs(ss) == enc_string(ss[0]) + enc_strs(ss.subrange(1, ss.len() as int)),
    decreases ss.len(),
{
    if ss.len() == 1 {
        assert(ss.drop_last() =~= Seq::<Seq<char>>::empty());
        assert(ss.subrange(1, ss.len() as int) =~= Seq::<Seq<char>>::empty());
        assert(enc_strs(ss) =~= enc_string(ss[0]) + enc_strs(ss.subrange(1, ss.len() as int)));
    } else {
        let d = ss.drop_last();
        lemma_enc_strs_head(d);
        assert(d[0] == ss[0]);
        assert(d.subrange(1, d.len() as int) =~= ss.subrange(1, ss.len() as int).drop_last());
        assert(ss.subrange(1, ss.len() as int).last() == ss.last());
        assert(enc_strs(ss) =~= enc_string(ss[0]) + enc_strs(ss.subrange(1, ss.len() as int)));
    }
}

/// Decoding encoded strings from wherever they stand yields them back.
pub proof fn lemma_dec_enc_strs(ss: Seq<Seq<char>>, bytes: Seq<u8>, i: int)
    requires
        0 <= i,
        bytes.len() >= i + enc_strs(ss).len(),
        bytes.subrange(i, i + enc_strs(ss).len()) == enc_strs(ss),
    ensures
        dec_strs(bytes, i, ss.len()) == Some((ss, i + enc_strs(ss).len())),
    decreases ss.len(),
{
    if ss.len() > 0 {
        let first = ss[0];
        let rest = ss.subrange(1, ss.len() as int);
        lemma_enc_strs_head(ss);
        let ek = enc_string(first);
        let er = enc_strs(rest);
        lemma_split2(bytes, i, ek, er);
        lemma_dec_enc_string(first, bytes, i);
        let j = i + ek.len() as int;
        lemma_dec_enc_strs(rest, bytes, j);
        assert(seq![first] + rest =~= ss);
        assert(enc_string(first).len() >= 1);
    }
}

/// Where reading strings succeeds, there was one byte or more for each.
pub proof fn lemma_dec_strs_count(bytes: Seq<u8>, i: int, n: nat)
    requires
        0 <= i <= bytes.len(),
    ensures
        dec_strs(bytes, i, n) is Some ==> n <= (bytes.len() - i) as nat,
    decreases bytes.len() - i, n,
{
    if n > 0 && dec_strs(bytes, i, n) is Some {
        match dec_string(bytes, i) {
            None => {},
            Some((k, j)) => {
                if i < j <= bytes.len() {
                    lemma_dec_strs_count(bytes, j, (n - 1) as nat);
                }
            },
        }
    }
}

/// The string views of stored names.
pub open spec fn strs_view(ss: Seq<String>) -> Seq<Seq<char>> {
    Seq::new(ss.len(), |i: int| ss[i]@)
}

/// Writes the strings, in order.
pub fn enc_strs_exec(ss: &Vec<String>) -> (r: Vec<u8>)
    ensures
        r@ == enc_strs(strs_view(ss@)),
{
    let ghost sv = strs_view(ss@);
    let mut r: Vec<u8> = Vec::new();
    let mut i: usize = 0;
    proof {
        assert(sv.subrange(0, 0) =~= Seq::<Seq<char>>::empty());
        assert(r@ =~= enc_strs(sv.subrange(0, 0)));
    }
    while i < ss.len()
        invariant
            sv == strs_view(ss@),
            sv.len() == ss@.len(),
            i <= ss@.len(),
            r@ == enc_strs(sv.subrange(0, i as int)),
        decreases ss@.len() - i,
    {
        let kb = enc_string_exec(&ss[i]);
        push_bytes(&mut r, &kb);
        i = i + 1;
        proof {
            let pre = sv.subrange(0, i - 1);
            let cur = sv.subrange(0, i as int);
            assert(cur.drop_last() =~= pre);
            assert(cur.last() == sv[i - 1]);
            assert(r@ =~= enc_strs(cur));
        }
    }
    proof {
        assert(sv.subrange(0, sv.len() as int) =~= sv);
    }
    r
}

/// Reads `n` strings.
pub fn dec_strs_exec(bytes: &Vec<u8>, i: usize, n: usize) -> (r: Option<(Vec<String>, usize)>)
    ensures
        match r {
            Some(p) => dec_strs(bytes@, i as int, n as nat) == Some((strs_view(p.0@), p.1 as int)),
            None => dec_strs(bytes@, i as int, n as nat) is None,
        },
    decreases bytes@.len() - i, n as nat,
{
    if i > bytes.len() {
        return None;
    }
    if n == 0 {
        let r: Vec<String> = Vec::new();
        proof {
            assert(strs_view(r@) =~= Seq::<Seq<char>>::empty());
        }
        return Some((r, i));
    }
    match dec_string_exec(bytes, i) {
        None => None,
        Some((k, j)) => {
            if j <= i || j > bytes.len() {
                None
            } else {
                match dec_strs_exec(bytes, j, n - 1) {
                    None => None,
                    Some((ss, j2)) => {
                        let mut ss = ss;
                        let ghost oldss = ss@;
                        ss.insert(0, k);
                        proof {
                            assert(strs_view(ss@) =~= seq![k@] + strs_view(oldss));
                        }
                        Some((ss, j2))
                    },
                }
            }
        },
    }
}

impl KvCodec for TagDelta {
    /// The set pairs behind their count, then the removed names behind
    /// theirs.
    open spec fn spec_encode(&self) -> Seq<u8> {
        enc_nat(self@.set.len()) + enc_pairs(self@.set) + enc_nat(self@.remove.len()) + enc_strs(
            self@.remove,
        )
    }

    open spec fn spec_decode(bytes: Seq<u8>) -> Option<TagDeltaV> {
        match dec_nat(bytes, 0) {
            None => None,
            Some((n1, i1)) => if i1 <= 0 || i1 > bytes.len() {
                None
            } else {
                match dec_pairs(bytes, i1, n1) {
                    None => None,
                    Some((set, i2)) => match dec_nat(bytes, i2) {
                        None => None,
                        Some((n2, i3)) => if i3 <= i2 || i3 > bytes.len() {
                            None
                        } else {
                            match dec_strs(bytes, i3, n2) {
                                None => None,
                                Some((remove, i4)) => if i4 == bytes.len() {
                                    Some(TagDeltaV { set, remove })
                                } else {
                                    None
                                },
                            }
                        },
                    },
                }
            },
        }
    }

    proof fn lemma_round_trip(&self) {
        let bytes = self.spec_encode();
        let a = enc_nat(self@.set.len());
        let b = enc_pairs(self@.set);
        let c = enc_nat(self@.remove.len());
        let d = enc_strs(self@.remove);
        let p1 = a;
        let p2 = p1 + b;
        let p3 = p2 + c;
        assert(bytes.subrange(0, bytes.len() as int) =~= bytes);
        lemma_split2(bytes, 0, p3, d);
        lemma_split2(bytes, 0, p2, c);
        lemma_split2(bytes, 0, p1, b);
        lemma_dec_enc_nat(self@.set.len(), bytes, 0);
        lemma_dec_enc_pairs(self@.set, bytes, p1.len() as int);
        lemma_dec_enc_nat(self@.remove.len(), bytes, p2.len() as int);
        lemma_dec_enc_strs(self@.remove, bytes, p3.len() as int);
    }

    fn encode(&self) -> (r: Vec<u8>) {
        let mut r = enc_nat_exec(self.set.0.len() as u64);
        let pb = enc_pairs_exec(&self.set.0);
        push_bytes(&mut r, &pb);
        let cb = enc_nat_exec(self.remove.len() as u64);
        push_bytes(&mut r, &cb);
        let sb = enc_strs_exec(&self.remove);
        push_bytes(&mut r, &sb);
        proof {
            assert(pairs_view(self.set.0@) =~= self@.set);
            assert(strs_view(self.remove@) =~= self@.remove);
            assert(r@ =~= self.spec_encode());
        }
        r
    }

    fn decode(bytes: &Vec<u8>) -> (r: Option<TagDelta>) {
        let blen = bytes.len();
        let (n1, i1) = match dec_nat_exec(bytes, 0) {
            None => {
                proof {
                    if dec_nat(bytes@, 0) is Some {
                        let (n, j) = dec_nat(bytes@, 0)->Some_0;
                        lemma_dec_nat_bounds(bytes@, 0);
                        assert(bytes@.len() == blen as int);
                        assert(usize::MAX as nat <= u64::MAX as nat);
                        lemma_dec_pairs_count(bytes@, j, n);
                    }
                }
                return None;
            },
            Some(p) => p,
        };
        if n1 > (blen - i1) as u64 {
            proof {
                lemma_dec_pairs_count(bytes@, i1 as int, n1 as nat);
            }
            return None;
        }
        let (set_entries, i2) = match dec_pairs_exec(bytes, i1, n1 as usize) {
            None => {
                return None;
            },
            Some(p) => p,
        };
        proof {
            lemma_dec_pairs_bounds(bytes@, i1 as int, n1 as nat);
        }
        let (n2, i3) = match dec_nat_exec(bytes, i2) {
            None => {
                proof {
                    if dec_nat(bytes@, i2 as int) is Some {
                        let (n, j) = dec_nat(bytes@, i2 as int)->Some_0;
                        lemma_dec_nat_bounds(bytes@, i2 as int);
                        assert(bytes@.len() == blen as int);
                        assert(usize::MAX as nat <= u64::MAX as nat);
                        lemma_dec_strs_count(bytes@, j, n);
                    }
                }
                return None;
            },
            Some(p) => p,
        };
        if n2 > (blen - i3) as u64 {
            proof {
                lemma_dec_strs_count(bytes@, i3 as int, n2 as nat);
            }
            return None;
        }
        let (remove, i4) = match dec_strs_exec(bytes, i3, n2 as usize) {
            None => {
                return None;
            },
            Some(p) => p,
        };
        if i4 != blen {
            return None;
        }
        let d = TagDelta { set: TagMap(set_entries), remove };
        proof {
            assert(d@.set =~= pairs_view(set_entries@));
            assert(d@.remove =~= strs_view(remove@));
        }
        Some(d)
    }
}

/// Where reading pairs succeeds, it does not move backwards and stays
/// inside the bytes.
pub proof fn lemma_dec_pairs_bounds(bytes: Seq<u8>, i: int, n: nat)
    ensures
        match dec_pairs(bytes, i, n) {
            Some((ps, j)) => i <= j <= bytes.len() && ps.len() == n,
            None => true,
        },
    decreases bytes.len() - i, n,
{
    if 0 <= i <= bytes.len() && n > 0 {
        match dec_string(bytes, i) {
            None => {},
            Some((k, j)) => {
                if i < j <= bytes.len() {
                    match dec_value(bytes, j) {
                        None => {},
                        Some((v, j2)) => {
                            if j < j2 <= bytes.len() {
                                lemma_dec_pairs_bounds(bytes, j2, (n - 1) as nat);
                            }
                        },
                    }
                }
            },
        }
    }
}

impl KvCodec for u64 {
    /// Eight little-endian bytes.
    open spec fn spec_encode(&self) -> Seq<u8> {
        spec_u64_to_le_bytes(*self)
    }

    open spec fn spec_decode(bytes: Seq<u8>) -> Option<u64> {
        if bytes.len() == 8 {
            Some(spec_u64_from_le_bytes(bytes))
        } else {
            None
        }
    }

    proof fn lemma_round_trip(&self) {
        lemma_auto_spec_u64_to_from_le_bytes();
    }

    fn encode(&self) -> (r: Vec<u8>) {
        u64_to_le_bytes(*self)
    }

    fn decode(bytes: &Vec<u8>) -> (r: Option<u64>) {
        if bytes.len() == 8 {
            let x = u64_from_le_bytes(bytes.as_slice());
            proof {
                assert(bytes@.subrange(0, 8) =~= bytes@);
            }
            Some(x)
        } else {
            None
        }
    }
}

/// A single byte.
pub open spec fn dec_u8(bytes: Seq<u8>, i: int) -> Option<(u8, int)> {
    if 0 <= i && i < bytes.len() {
        Some((bytes[i], i + 1))
    } else {
        None
    }
}

/// An optional string: an absence byte, or a presence byte and the
/// string.
pub open spec fn enc_opt_string(o: Option<Seq<char>>) -> Seq<u8> {
    match o {
        None => seq![0u8],
        Some(s) => seq![1u8] + enc_string(s),
    }
}

/// Reads an optional string at `i`.
pub open spec fn dec_opt_string(bytes: Seq<u8>, i: int) -> Option<(Option<Seq<char>>, int)> {
    match dec_u8(bytes, i) {
        None => None,
        Some((tag, j)) => if tag == 0 {
            Some((None, j))
        } else if tag == 1 {
            match dec_string(bytes, j) {
                None => None,
                Some((st, j2)) => Some((Some(st), j2)),
            }
        } else {
            None
        },
    }
}

/// Decoding an encoded optional string from wherever it stands yields it
/// back.
pub proof fn lemma_dec_enc_opt_string(o: Option<Seq<char>>, bytes: Seq<u8>, i: int)
    requires
        0 <= i,
        bytes.len() >= i + enc_opt_string(o).len(),
        bytes.subrange(i, i + enc_opt_string(o).len()) == enc_opt_string(o),
    ensures
        dec_opt_string(bytes, i) == Some((o, i + enc_opt_string(o).len())),
{
    match o {
        None => {
            assert(bytes[i] == bytes.subrange(i, i + 1)[0]);
        },
        Some(st) => {
            lemma_split2(bytes, i, seq![1u8], enc_string(st));
            assert(bytes[i] == bytes.subrange(i, i + 1)[0]);
            lemma_dec_enc_string(st, bytes, i + 1);
        },
    }
}

/// Writes an optional string.
pub fn enc_opt_string_exec(o: &Option<String>) -> (r: Vec<u8>)
    ensures
        r@ == enc_opt_string(opt_string_view(*o)),
{
    match o {
        None => {
            let mut r: Vec<u8> = Vec::new();
            r.push(0u8);
            proof {
                assert(r@ =~= enc_opt_string(None));
            }
            r
        },
        Some(st) => {
            let mut r: Vec<u8> = Vec::new();
            r.push(1u8);
            let sb = enc_string_exec(st);
            push_bytes(&mut r, &sb);
            proof {
                assert(r@ =~= enc_opt_string(Some(st@)));
            }
            r
        },
    }
}

/// Reads an optional string.
pub fn dec_opt_string_exec(bytes: &Vec<u8>, i: usize) -> (r: Option<(Option<String>, usize)>)
    ensures
        match r {
            Some(p) => dec_opt_string(bytes@, i as int) == Some(
                (opt_string_view(p.0), p.1 as int),
            ),
            None => dec_opt_string(bytes@, i as int) is None,
        },
{
    if i >= bytes.len() {
        return None;
    }
    let tag = bytes[i];
    if tag == 0 {
        Some((None, i + 1))
    } else if tag == 1 {
        match dec_string_exec(bytes, i + 1) {
            None => None,
            Some((st, j)) => Some((Some(st), j)),
        }
    } else {
        None
    }
}

/// A track identifier: the album text, the disc byte, the index.
pub open spec fn enc_track_id(id: TrackIdV) -> Seq<u8> {
    enc_string(id.album) + seq![id.disc] + enc_u64(id.index as u64)
}

/// Reads a track identifier at `i`.
pub open spec fn dec_track_id(bytes: Seq<u8>, i: int) -> Option<(TrackIdV, int)> {
    match dec_string(bytes, i) {
        None => None,
        Some((album, j)) => match dec_u8(bytes, j) {
            None => None,
            Some((disc, j2)) => match dec_u64(bytes, j2) {
                None => None,
                Some((index, j3)) => if index <= u32::MAX as u64 {
                    Some((TrackIdV { album, disc, index: index as u32 }, j3))
                } else {
                    None
                },
            },
        },
    }
}

/// Decoding an encoded track identifier from wherever it stands yields it
/// back.
pub proof fn lemma_dec_enc_track_id(id: TrackIdV, bytes: Seq<u8>, i: int)
    requires
        0 <= i,
        bytes.len() >= i + enc_track_id(id).len(),
        bytes.subrange(i, i + enc_track_id(id).len()) == enc_track_id(id),
    ensures
        dec_track_id(bytes, i) == Some((id, i + enc_track_id(id).len())),
{
    let ea = enc_string(id.album);
    let eu = enc_u64(id.index as u64);
    assert(enc_u64(id.index as u64).len() == 8) by {
        lemma_auto_spec_u64_to_from_le_bytes();
    }
    assert(enc_track_id(id) =~= ea + (seq![id.disc] + eu));
    lemma_split2(bytes, i, ea, seq![id.disc] + eu);
    lemma_dec_enc_string(id.album, bytes, i);
    let j = i + ea.len() as int;
    lemma_split2(bytes, j, seq![id.disc], eu);
    assert(bytes[j] == bytes.subrange(j, j + 1)[0]);
    lemma_dec_enc_u64(id.index as u64, bytes, j + 1);
}

/// Writes a track identifier.
pub fn enc_track_id_exec(id: &TrackId) -> (r: Vec<u8>)
    ensures
        r@ == enc_track_id(id@),
{
    let mut r = enc_string_exec(&id.album.0);
    r.push(id.disc);
    let ib = u64_to_le_bytes(id.index as u64);
    push_bytes(&mut r, &ib);
    proof {
        assert(r@ =~= enc_track_id(id@));
    }
    r
}

/// Reads a track identifier.
pub fn dec_track_id_exec(bytes: &Vec<u8>, i: usize) -> (r: Option<(TrackId, usize)>)
    ensures
        match r {
            Some(p) => dec_track_id(bytes@, i as int) == Some((p.0@, p.1 as int)),
            None => dec_track_id(bytes@, i as int) is None,
        },
{
    let (album, j) = match dec_string_exec(bytes, i) {
        None => {
            return None;
        },
        Some(p) => p,
    };
    if j >= bytes.len() {
        return None;
    }
    let disc = bytes[j];
    let (index, j3) = match dec_u64_exec(bytes, j + 1) {
        None => {
            return None;
        },
        Some(p) => p,
    };
    if index <= u32::MAX as u64 {
        Some((TrackId { album: AlbumId(album), disc, index: index as u32 }, j3))
    } else {
        None
    }
}

/// An artwork reference: the hash, the media type, the size.
pub open spec fn enc_artwork(a: ArtworkRefV) -> Seq<u8> {
    enc_string(a.hash) + enc_string(a.mime) + enc_u64(a.size)
}

/// Reads an artwork reference at `i`.
pub open spec fn dec_artwork(bytes: Seq<u8>, i: int) -> Option<(ArtworkRefV, int)> {
    match dec_string(bytes, i) {
        None => None,
        Some((hash, j)) => match dec_string(bytes, j) {
            None => None,
            Some((mime, j2)) => match dec_u64(bytes, j2) {
                None => None,
                Some((size, j3)) => Some((ArtworkRefV { hash, mime, size }, j3)),
            },
        },
    }
}

/// An optional artwork reference behind a presence byte.
pub open spec fn enc_opt_artwork(o: Option<ArtworkRefV>) -> Seq<u8> {
    match o {
        None => seq![0u8],
        Some(a) => seq![1u8] + enc_artwork(a),
    }
}

/// Reads an optional artwork reference at `i`.
pub open spec fn dec_opt_artwork(bytes: Seq<u8>, i: int) -> Option<(Option<ArtworkRefV>, int)> {
    match dec_u8(bytes, i) {
        None => None,
        Some((tag, j)) => if tag == 0 {
            Some((None, j))
        } else if tag == 1 {
            match dec_artwork(bytes, j) {
                None => None,
                Some((a, j2)) => Some((Some(a), j2)),
            }
        } else {
            None
        },
    }
}

/// Decoding an encoded optional artwork reference from wherever it stands
/// yields it back.
pub proof fn lemma_dec_enc_opt_artwork(o: Option<ArtworkRefV>, bytes: Seq<u8>, i: int)
    requires
        0 <= i,
        bytes.len() >= i + enc_opt_artwork(o).len(),
        bytes.subrange(i, i + enc_opt_artwork(o).len()) == enc_opt_artwork(o),
    ensures
        dec_opt_artwork(bytes, i) == Some((o, i + enc_opt_artwork(o).len())),
{
    match o {
        None => {
            assert(bytes[i] == bytes.subrange(i, i + 1)[0]);
        },
        Some(a) => {
            let eh = enc_string(a.hash);
            let em = enc_string(a.mime);
            let eu = enc_u64(a.size);
            assert(enc_u64(a.size).len() == 8) by {
                lemma_auto_spec_u64_to_from_le_bytes();
            }
            assert(enc_opt_artwork(o) =~= seq![1u8] + (eh + (em + eu)));
            lemma_split2(bytes, i, seq![1u8], eh + (em + eu));
            assert(bytes[i] == bytes.subrange(i, i + 1)[0]);
            lemma_split2(bytes, i + 1, eh, em + eu);
            lemma_dec_enc_string(a.hash, bytes, i + 1);
            let j = i + 1 + eh.len() as int;
            lemma_split2(bytes, j, em, eu);
            lemma_dec_enc_string(a.mime, bytes, j);
            lemma_dec_enc_u64(a.size, bytes, j + em.len() as int);
        },
    }
}

/// Writes an optional artwork reference.
pub fn enc_opt_artwork_exec(o: &Option<ArtworkRef>) -> (r: Vec<u8>)
    ensures
        r@ == enc_opt_artwork(crate::metadata::opt_artwork_view(*o)),
{
    match o {
        None => {
            let mut r: Vec<u8> = Vec::new();
            r.push(0u8);
            proof {
                assert(r@ =~= enc_opt_artwork(None));
            }
            r
        },
        Some(a) => {
            let mut r: Vec<u8> = Vec::new();
            r.push(1u8);
            let hb = enc_string_exec(&a.hash);
            push_bytes(&mut r, &hb);
            let mb = enc_string_exec(&a.mime);
            push_bytes(&mut r, &mb);
            let sb = u64_to_le_bytes(a.size);
            push_bytes(&mut r, &sb);
            proof {
                assert(r@ =~= enc_opt_artwork(Some(a@)));
            }
            r
        },
    }
}

/// Reads an optional artwork reference.
pub fn dec_opt_artwork_exec(bytes: &Vec<u8>, i: usize) -> (r: Option<(Option<ArtworkRef>, usize)>)
    ensures
        match r {
            Some(p) => dec_opt_artwork(bytes@, i as int) == Some(
                (crate::metadata::opt_artwork_view(p.0), p.1 as int),
            ),
            None => dec_opt_artwork(bytes@, i as int) is None,
        },
{
    if i >= bytes.len() {
        return None;
    }
    let tag = bytes[i];
    if tag == 0 {
        return Some((None, i + 1));
    }
    if tag != 1 {
        return None;
    }
    let (hash, j) = match dec_string_exec(bytes, i + 1) {
        None => {
            return None;
        },
        Some(p) => p,
    };
    let (mime, j2) = match dec_string_exec(bytes, j) {
        None => {
            return None;
        },
        Some(p) => p,
    };
    let (size, j3) = match dec_u64_exec(bytes, j2) {
        None => {
            return None;
        },
        Some(p) => p,
    };
    Some((Some(ArtworkRef { hash, mime, size }), j3))
}

impl KvCodec for TrackMetadata {
    /// The identifier, the presented strings, the duration, the tag pairs
    /// behind their count, and the artwork reference, in order.
    open spec fn spec_encode(&self) -> Seq<u8> {
        enc_track_id(self@.id) + enc_string(self@.title) + enc_string(self@.artist)
            + enc_opt_string(self@.album_artist) + enc_u64(self@.duration_ms) + enc_nat(
            self@.tags.len(),
        ) + enc_pairs(self@.tags) + enc_opt_artwork(self@.artwork)
    }

    open spec fn spec_decode(bytes: Seq<u8>) -> Option<TrackMetadataV> {
        match dec_track_id(bytes, 0) {
            None => None,
            Some((id, i1)) => match dec_string(bytes, i1) {
                None => None,
                Some((title, i2)) => match dec_string(bytes, i2) {
                    None => None,
                    Some((artist, i3)) => match dec_opt_string(bytes, i3) {
                        None => None,
                        Some((album_artist, i4)) => match dec_u64(bytes, i4) {
                            None => None,
                            Some((duration_ms, i5)) => match dec_nat(bytes, i5) {
                                None => None,
                                Some((n, i6)) => if i6 <= i5 || i6 > bytes.len() {
                                    None
                                } else {
                                    match dec_pairs(bytes, i6, n) {
                                        None => None,
                                        Some((tags, i7)) => match dec_opt_artwork(bytes, i7) {
                                            None => None,
                                            Some((artwork, i8)) => if i8 == bytes.len() {
                                                Some(
                                                    TrackMetadataV {
                                                        id,
                                                        title,
                                                        artist,
                                                        album_artist,
                                                        duration_ms,
                                                        tags,
                                                        artwork,
                                                    },
                                                )
                                            } else {
                                                None
                                            },
                                        },
                                    }
                                },
                            },
                        },
                    },
                },
            },
        }
    }

    proof fn lemma_round_trip(&self) {
        let bytes = self.spec_encode();
        let a = enc_track_id(self@.id);
        let b = enc_string(self@.title);
        let c = enc_string(self@.artist);
        let d = enc_opt_string(self@.album_artist);
        let e = enc_u64(self@.duration_ms);
        let f = enc_nat(self@.tags.len());
        let g = enc_pairs(self@.tags);
        let h = enc_opt_artwork(self@.artwork);
        assert(enc_u64(self@.duration_ms).len() == 8) by {
            lemma_auto_spec_u64_to_from_le_bytes();
        }
        let p1 = a;
        let p2 = p1 + b;
        let p3 = p2 + c;
        let p4 = p3 + d;
        let p5 = p4 + e;
        let p6 = p5 + f;
        let p7 = p6 + g;
        assert(bytes.subrange(0, bytes.len() as int) =~= bytes);
        lemma_split2(bytes, 0, p7, h);
        lemma_split2(bytes, 0, p6, g);
        lemma_split2(bytes, 0, p5, f);
        lemma_split2(bytes, 0, p4, e);
        lemma_split2(bytes, 0, p3, d);
        lemma_split2(bytes, 0, p2, c);
        lemma_split2(bytes, 0, p1, b);
        lemma_dec_enc_track_id(self@.id, bytes, 0);
        lemma_dec_enc_string(self@.title, bytes, p1.len() as int);
        lemma_dec_enc_string(self@.artist, bytes, p2.len() as int);
        lemma_dec_enc_opt_string(self@.album_artist, bytes, p3.len() as int);
        lemma_dec_enc_u64(self@.duration_ms, bytes, p4.len() as int);
        lemma_dec_enc_nat(self@.tags.len(), bytes, p5.len() as int);
        lemma_dec_enc_pairs(self@.tags, bytes, p6.len() as int);
        lemma_dec_enc_opt_artwork(self@.artwork, bytes, p7.len() as int);
    }

    fn encode(&self) -> (r: Vec<u8>) {
        let mut r = enc_track_id_exec(&self.id);
        let tb = enc_string_exec(&self.title);
        push_bytes(&mut r, &tb);
        let ab = enc_string_exec(&self.artist);
        push_bytes(&mut r, &ab);
        let aab = enc_opt_string_exec(&self.album_artist);
        push_bytes(&mut r, &aab);
        let db = u64_to_le_bytes(self.duration_ms);
        push_bytes(&mut r, &db);
        let cb = enc_nat_exec(self.tags.0.len() as u64);
        push_bytes(&mut r, &cb);
        let pb = enc_pairs_exec(&self.tags.0);
        push_bytes(&mut r, &pb);
        let wb = enc_opt_artwork_exec(&self.artwork);
        push_bytes(&mut r, &wb);
        proof {
            assert(pairs_view_of(self) =~= self@.tags);
            assert(r@ =~= self.spec_encode());
        }
        r
    }

    fn decode(bytes: &Vec<u8>) -> (r: Option<TrackMetadata>) {
        let blen = bytes.len();
        let (id, i1) = match dec_track_id_exec(bytes, 0) {
            None => {
                return None;
            },
            Some(p) => p,
        };
        let (title, i2) = match dec_string_exec(bytes, i1) {
            None => {
                return None;
            },
            Some(p) => p,
        };
        let (artist, i3) = match dec_string_exec(bytes, i2) {
            None => {
                return None;
            },
            Some(p) => p,
        };
        let (album_artist, i4) = match dec_opt_string_exec(bytes, i3) {
            None => {
                return None;
            },
            Some(p) => p,
        };
        let (duration_ms, i5) = match dec_u64_exec(bytes, i4) {
            None => {
                return None;
            },
            Some(p) => p,
        };
        let (n, i6) = match dec_nat_exec(bytes, i5) {
            None => {
                proof {
                    if dec_nat(bytes@, i5 as int) is Some {
                        let (nn, jj) = dec_nat(bytes@, i5 as int)->Some_0;
                        lemma_dec_nat_bounds(bytes@, i5 as int);
                        assert(nn > u64::MAX);
                        assert(bytes@.len() == blen as int);
                        assert(usize::MAX as nat <= u64::MAX as nat);
                        lemma_dec_pairs_count(bytes@, jj, nn);
                    }
                }
                return None;
            },
            Some(p) => p,
        };
        if n > (blen - i6) as u64 {
            proof {
                lemma_dec_pairs_count(bytes@, i6 as int, n as nat);
            }
            return None;
        }
        let (tags, i7) = match dec_pairs_exec(bytes, i6, n as usize) {
            None => {
                return None;
            },
            Some(p) => p,
        };
        let (artwork, i8) = match dec_opt_artwork_exec(bytes, i7) {
            None => {
                return None;
            },
            Some(p) => p,
        };
        if i8 != blen {
            return None;
        }
        let m = TrackMetadata {
            id,
            title,
            artist,
            album_artist,
            duration_ms,
            tags: TagMap(tags),
            artwork,
        };
        proof {
            assert(m@.tags =~= pairs_view(m.tags.0@));
        }
        Some(m)
    }
}

/// The pair views of a metadata value's tag entries.
pub open spec fn pairs_view_of(m: &TrackMetadata) -> Seq<(Seq<char>, TagValueV)> {
    pairs_view(m.tags.0@)
}

} // verus!
