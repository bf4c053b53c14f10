//! Byte layouts of a block: the tuple that is hashed while mining, and the
//! full record that the store keeps.  Both follow bincode's default layout
//! (fixed-width little-endian integers, a string as its UTF-8 length in eight
//! bytes followed by its UTF-8 bytes), and both are produced by bincode.
use vstd::prelude::*;
use vstd::utf8::{decode_utf8, encode_utf8};

verus! {

/// The `n` low bytes of `v`, least significant first.
pub open spec fn le_bytes(v: nat, n: nat) -> Seq<u8>
    decreases n,
{
    if n == 0 {
        Seq::empty()
    } else {
        seq![(v % 256) as u8] + le_bytes(v / 256, (n - 1) as nat)
    }
}

/// A string field: its UTF-8 length as eight bytes, then its UTF-8 bytes.
pub open spec fn str_field(s: Seq<char>) -> Seq<u8> {
    le_bytes(encode_utf8(s).len(), 8) + encode_utf8(s)
}

/// A signed 32-bit field in two's complement.
pub open spec fn i32_field(x: i32) -> Seq<u8> {
    le_bytes((if x >= 0 { x as int } else { x as int + 0x1_0000_0000 }) as nat, 4)
}

/// The bytes that are hashed: (previous hash, payload, timestamp, difficulty, nonce).
pub open spec fn hash_input_layout(
    prev_hash: Seq<char>,
    payload: Seq<char>,
    timestamp: u128,
    difficulty: usize,
    nonce: i32,
) -> Seq<u8> {
    str_field(prev_hash) + str_field(payload) + le_bytes(timestamp as nat, 16) + le_bytes(
        difficulty as nat,
        8,
    ) + i32_field(nonce)
}

/// The stored record: (timestamp, payload, previous hash, hash, height, nonce).
pub open spec fn record_layout(
    timestamp: u128,
    payload: Seq<char>,
    prev_hash: Seq<char>,
    hash: Seq<char>,
    height: usize,
    nonce: i32,
) -> Seq<u8> {
    le_bytes(timestamp as nat, 16) + str_field(payload) + str_field(prev_hash) + str_field(hash)
        + le_bytes(height as nat, 8) + i32_field(nonce)
}

/// `256` to the power `n`: the values that `n` bytes can hold.
pub open spec fn byte_range(n: nat) -> nat
    decreases n,
{
    if n == 0 {
        1
    } else {
        256 * byte_range((n - 1) as nat)
    }
}

proof fn lemma_le_bytes_len(v: nat, n: nat)
    ensures
        le_bytes(v, n).len() == n,
    decreases n,
{
    if n > 0 {
        lemma_le_bytes_len(v / 256, (n - 1) as nat);
    }
}

proof fn lemma_le_bytes_injective(a: nat, b: nat, n: nat)
    requires
        le_bytes(a, n) == le_bytes(b, n),
        a < byte_range(n),
        b < byte_range(n),
    ensures
        a == b,
    decreases n,
{
    if n > 0 {
        let m = (n - 1) as nat;
        let r = byte_range(m);
        lemma_le_bytes_len(a / 256, m);
        lemma_le_bytes_len(b / 256, m);
        assert(le_bytes(a, n)[0] == le_bytes(b, n)[0]);
        assert(le_bytes(a, n)[0] == (a % 256) as u8);
        assert(le_bytes(b, n)[0] == (b % 256) as u8);
        assert(a % 256 == b % 256);
        assert(le_bytes(a / 256, m) =~= le_bytes(a, n).skip(1));
        assert(le_bytes(b / 256, m) =~= le_bytes(b, n).skip(1));
        assert(a / 256 < r) by (nonlinear_arith)
            requires
                a < 256 * r,
        ;
        assert(b / 256 < r) by (nonlinear_arith)
            requires
                b < 256 * r,
        ;
        lemma_le_bytes_injective(a / 256, b / 256, m);
        assert(a == 256 * (a / 256) + a % 256) by (nonlinear_arith);
        assert(b == 256 * (b / 256) + b % 256) by (nonlinear_arith);
    }
}

proof fn lemma_byte_ranges()
    ensures
        byte_range(4) == 0x1_0000_0000,
        byte_range(8) == 0x1_0000_0000_0000_0000,
        byte_range(16) == 0x1_0000_0000_0000_0000_0000_0000_0000_0000,
{
    reveal_with_fuel(byte_range, 17);
}

proof fn lemma_split_concat(a1: Seq<u8>, r1: Seq<u8>, a2: Seq<u8>, r2: Seq<u8>)
    requires
        a1 + r1 == a2 + r2,
        a1.len() == a2.len(),
    ensures
        a1 == a2,
        r1 == r2,
{
    assert(a1 =~= (a1 + r1).take(a1.len() as int));
    assert(a2 =~= (a2 + r2).take(a2.len() as int));
    assert(r1 =~= (a1 + r1).skip(a1.len() as int));
    assert(r2 =~= (a2 + r2).skip(a2.len() as int));
}

/// The UTF-8 byte length of a string fits in the eight bytes of its length
/// field, as it does for every string that memory can hold.
pub open spec fn fits_length_field(s: Seq<char>) -> bool {
    encode_utf8(s).len() < 0x1_0000_0000_0000_0000
}

proof fn lemma_str_field_peel(s: Seq<char>, r1: Seq<u8>, t: Seq<char>, r2: Seq<u8>)
    requires
        str_field(s) + r1 == str_field(t) + r2,
        fits_length_field(s),
        fits_length_field(t),
    ensures
        s == t,
        r1 == r2,
{
    broadcast use vstd::utf8::encode_utf8_decode_utf8;

    let es = encode_utf8(s);
    let et = encode_utf8(t);
    lemma_le_bytes_len(es.len(), 8);
    lemma_le_bytes_len(et.len(), 8);
    lemma_byte_ranges();
    assert(str_field(s) + r1 =~= le_bytes(es.len(), 8) + (es + r1));
    assert(str_field(t) + r2 =~= le_bytes(et.len(), 8) + (et + r2));
    lemma_split_concat(le_bytes(es.len(), 8), es + r1, le_bytes(et.len(), 8), et + r2);
    lemma_le_bytes_injective(es.len(), et.len(), 8);
    lemma_split_concat(es, r1, et, r2);
    assert(decode_utf8(es) == s);
    assert(decode_utf8(et) == t);
}

/// Equal hashed bytes come only from equal fields: the layout that is hashed
/// binds the previous hash, the payload, the timestamp and the nonce.
pub proof fn lemma_hash_input_injective(
    prev_a: Seq<char>,
    payload_a: Seq<char>,
    timestamp_a: u128,
    nonce_a: i32,
    prev_b: Seq<char>,
    payload_b: Seq<char>,
    timestamp_b: u128,
    nonce_b: i32,
    difficulty: usize,
)
    requires
        fits_length_field(prev_a),
        fits_length_field(payload_a),
        fits_length_field(prev_b),
        fits_length_field(payload_b),
        hash_input_layout(prev_a, payload_a, timestamp_a, difficulty, nonce_a) == hash_input_layout(
            prev_b,
            payload_b,
            timestamp_b,
            difficulty,
            nonce_b,
        ),
    ensures
        prev_a == prev_b,
        payload_a == payload_b,
        timestamp_a == timestamp_b,
        nonce_a == nonce_b,
{
    let tail_a = le_bytes(difficulty as nat, 8) + i32_field(nonce_a);
    let tail_b = le_bytes(difficulty as nat, 8) + i32_field(nonce_b);
    let ts_a = le_bytes(timestamp_a as nat, 16);
    let ts_b = le_bytes(timestamp_b as nat, 16);
    assert(hash_input_layout(prev_a, payload_a, timestamp_a, difficulty, nonce_a) =~= str_field(prev_a)
        + (str_field(payload_a) + (ts_a + tail_a)));
    assert(hash_input_layout(prev_b, payload_b, timestamp_b, difficulty, nonce_b) =~= str_field(prev_b)
        + (str_field(payload_b) + (ts_b + tail_b)));
    lemma_str_field_peel(prev_a, str_field(payload_a) + (ts_a + tail_a), prev_b, str_field(payload_b) + (ts_b + tail_b));
    lemma_str_field_peel(payload_a, ts_a + tail_a, payload_b, ts_b + tail_b);
    lemma_le_bytes_len(timestamp_a as nat, 16);
    lemma_le_bytes_len(timestamp_b as nat, 16);
    lemma_le_bytes_len(difficulty as nat, 8);
    lemma_split_concat(ts_a, tail_a, ts_b, tail_b);
    lemma_byte_ranges();
    lemma_le_bytes_injective(timestamp_a as nat, timestamp_b as nat, 16);
    lemma_split_concat(le_bytes(difficulty as nat, 8), i32_field(nonce_a), le_bytes(difficulty as nat, 8), i32_field(nonce_b));
    let ua = (if nonce_a >= 0 { nonce_a as int } else { nonce_a as int + 0x1_0000_0000 }) as nat;
    let ub = (if nonce_b >= 0 { nonce_b as int } else { nonce_b as int + 0x1_0000_0000 }) as nat;
    lemma_le_bytes_injective(ua, ub, 4);
}

proof fn lemma_record_layout_len(
    timestamp: u128,
    payload: Seq<char>,
    prev_hash: Seq<char>,
    hash: Seq<char>,
    height: usize,
    nonce: i32,
)
    ensures
        encode_utf8(payload).len() < record_layout(timestamp, payload, prev_hash, hash, height, nonce).len(),
        encode_utf8(prev_hash).len() < record_layout(timestamp, payload, prev_hash, hash, height, nonce).len(),
        encode_utf8(hash).len() < record_layout(timestamp, payload, prev_hash, hash, height, nonce).len(),
{
    lemma_le_bytes_len(timestamp as nat, 16);
    lemma_le_bytes_len(encode_utf8(payload).len(), 8);
    lemma_le_bytes_len(encode_utf8(prev_hash).len(), 8);
    lemma_le_bytes_len(encode_utf8(hash).len(), 8);
}

/// A record followed by any bytes begins with no other record: the bytes
/// that start a stored record fix every one of its fields.
pub proof fn lemma_record_prefix_unique(
    ts_a: u128,
    payload_a: Seq<char>,
    prev_a: Seq<char>,
    hash_a: Seq<char>,
    height_a: usize,
    nonce_a: i32,
    rest: Seq<u8>,
    ts_b: u128,
    payload_b: Seq<char>,
    prev_b: Seq<char>,
    hash_b: Seq<char>,
    height_b: usize,
    nonce_b: i32,
)
    requires
        record_layout(ts_a, payload_a, prev_a, hash_a, height_a, nonce_a) + rest == record_layout(
            ts_b,
            payload_b,
            prev_b,
            hash_b,
            height_b,
            nonce_b,
        ),
        record_layout(ts_b, payload_b, prev_b, hash_b, height_b, nonce_b).len()
            < 0x1_0000_0000_0000_0000,
    ensures
        ts_a == ts_b,
        payload_a == payload_b,
        prev_a == prev_b,
        hash_a == hash_b,
        height_a == height_b,
        nonce_a == nonce_b,
        rest.len() == 0,
{
    let whole = record_layout(ts_b, payload_b, prev_b, hash_b, height_b, nonce_b);
    lemma_record_layout_len(ts_a, payload_a, prev_a, hash_a, height_a, nonce_a);
    lemma_record_layout_len(ts_b, payload_b, prev_b, hash_b, height_b, nonce_b);
    assert(whole.len() >= record_layout(ts_a, payload_a, prev_a, hash_a, height_a, nonce_a).len());
    let tail_a = le_bytes(height_a as nat, 8) + (i32_field(nonce_a) + rest);
    let tail_b = le_bytes(height_b as nat, 8) + (i32_field(nonce_b) + Seq::<u8>::empty());
    let s3_a = str_field(hash_a) + tail_a;
    let s3_b = str_field(hash_b) + tail_b;
    let s2_a = str_field(prev_a) + s3_a;
    let s2_b = str_field(prev_b) + s3_b;
    let s1_a = str_field(payload_a) + s2_a;
    let s1_b = str_field(payload_b) + s2_b;
    assert(record_layout(ts_a, payload_a, prev_a, hash_a, height_a, nonce_a) + rest
        =~= le_bytes(ts_a as nat, 16) + s1_a);
    assert(whole =~= le_bytes(ts_b as nat, 16) + s1_b);
    lemma_le_bytes_len(ts_a as nat, 16);
    lemma_le_bytes_len(ts_b as nat, 16);
    lemma_split_concat(le_bytes(ts_a as nat, 16), s1_a, le_bytes(ts_b as nat, 16), s1_b);
    lemma_byte_ranges();
    lemma_le_bytes_injective(ts_a as nat, ts_b as nat, 16);
    lemma_str_field_peel(payload_a, s2_a, payload_b, s2_b);
    lemma_str_field_peel(prev_a, s3_a, prev_b, s3_b);
    lemma_str_field_peel(hash_a, tail_a, hash_b, tail_b);
    lemma_le_bytes_len(height_a as nat, 8);
    lemma_le_bytes_len(height_b as nat, 8);
    lemma_split_concat(le_bytes(height_a as nat, 8), i32_field(nonce_a) + rest, le_bytes(height_b as nat, 8), i32_field(nonce_b) + Seq::<u8>::empty());
    lemma_le_bytes_injective(height_a as nat, height_b as nat, 8);
    let ua = (if nonce_a >= 0 { nonce_a as int } else { nonce_a as int + 0x1_0000_0000 }) as nat;
    let ub = (if nonce_b >= 0 { nonce_b as int } else { nonce_b as int + 0x1_0000_0000 }) as nat;
    lemma_le_bytes_len(ua, 4);
    lemma_le_bytes_len(ub, 4);
    lemma_split_concat(i32_field(nonce_a), rest, i32_field(nonce_b), Seq::<u8>::empty());
    lemma_le_bytes_injective(ua, ub, 4);
}

/// Relies on bincode::serialize of a (String, String, u128, usize, i32) tuple:
/// the fields one after the other in the default fixed-width layout.  It
/// writes into a `Vec` with no size limit, so it does not fail.
#[verifier::external_body]
pub(crate) fn encode_hash_input(
    prev_hash: &String,
    payload: &String,
    timestamp: u128,
    difficulty: usize,
    nonce: i32,
) -> (r: Option<Vec<u8>>)
    ensures
        r is Some,
        r matches Some(v) ==> v@ == hash_input_layout(
            prev_hash@,
            payload@,
            timestamp,
            difficulty,
            nonce,
        ),
{
    bincode::serialize(&(prev_hash, payload, timestamp, difficulty, nonce)).ok()
}

/// Relies on bincode::serialize of a (u128, String, String, String, usize, i32)
/// tuple: the fields one after the other in the default fixed-width layout.
/// It writes into a `Vec` with no size limit, so it does not fail.
#[verifier::external_body]
pub(crate) fn encode_record(
    timestamp: u128,
    payload: &String,
    prev_hash: &String,
    hash: &String,
    height: usize,
    nonce: i32,
) -> (r: Option<Vec<u8>>)
    ensures
        r is Some,
        r matches Some(v) ==> v@ == record_layout(
            timestamp,
            payload@,
            prev_hash@,
            hash@,
            height,
            nonce,
        ),
{
    bincode::serialize(&(timestamp, payload, prev_hash, hash, height, nonce)).ok()
}

/// Relies on bincode::deserialize of a (u128, String, String, String, usize, i32)
/// tuple: on success the bytes begin with the record of what it read
/// (trailing bytes are allowed), and it fails only on bytes that begin with
/// no record at all.
#[verifier::external_body]
pub(crate) fn decode_record(bytes: &[u8]) -> (r: Option<(u128, String, String, String, usize, i32)>)
    ensures
        r matches Some(t) ==> record_layout(t.0, t.1@, t.2@, t.3@, t.4, t.5).len() <= bytes@.len(),
        r matches Some(t) ==> record_layout(t.0, t.1@, t.2@, t.3@, t.4, t.5) =~= bytes@.take(
            record_layout(t.0, t.1@, t.2@, t.3@, t.4, t.5).len() as int,
        ),
        r is None ==> forall|ts: u128, pl: Seq<char>, pv: Seq<char>, h: Seq<char>, ht: usize, n: i32|
            bytes@ != #[trigger] record_layout(ts, pl, pv, h, ht, n),
{
    bincode::deserialize::<(u128, String, String, String, usize, i32)>(bytes).ok()
}

} // verus!
