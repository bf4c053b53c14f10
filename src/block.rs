//! A block of the ledger: its fields, the proof-of-work search that fixes its
//! nonce and hash, the check that re-derives that hash, and its stored record.
use vstd::prelude::*;
use vstd::utf8::encode_utf8;
use crypto::digest::Digest;
use crypto::sha2::Sha256;
use std::time::{Duration, SystemTime, SystemTimeError, UNIX_EPOCH};
use crate::encoding::{
    decode_record, encode_hash_input, encode_record, fits_length_field, hash_input_layout,
    lemma_hash_input_injective, lemma_record_prefix_unique, record_layout,
};

verus! {

/// Number of leading `'0'` hex characters that a block's hash must have.
pub const TARGET_HEXT: usize = 4;

/// The payload of the first block of every chain.
pub const GENESIS_PAYLOAD: &'static str = "Primeiro Bloco";

/// Lowercase hex text of the SHA-256 digest of some bytes.
pub uninterp spec fn sha256_hex(data: Seq<u8>) -> Seq<char>;

/// A lowercase hex digit.
pub open spec fn is_lower_hex_digit(c: char) -> bool {
    ('0' <= c && c <= '9') || ('a' <= c && c <= 'f')
}

/// Relies on crypto::sha2::Sha256 (`input`, then `result_str`): the hex text
/// of the 256-bit SHA-256 digest, two lowercase hex digits per byte, which
/// depends on the bytes alone.
#[verifier::external_body]
fn sha256_hex_of(data: &[u8]) -> (r: String)
    ensures
        r@ == sha256_hex(data@),
        r@.len() == 64,
        forall|i: int| 0 <= i < 64 ==> is_lower_hex_digit(#[trigger] r@[i]),
{
    let mut hasher = Sha256::new();
    hasher.input(data);
    hasher.result_str()
}

/// std's instant of the system clock, opaque here.
#[verifier::external_type_specification]
#[verifier::external_body]
pub struct ExSystemTime(SystemTime);

/// std's error for a clock that stands before the instant asked about.
#[verifier::external_type_specification]
#[verifier::external_body]
pub struct ExSystemTimeError(SystemTimeError);

/// Relies on std's SystemTime::now: the current time; nothing is promised of it.
pub assume_specification[ SystemTime::now ]() -> SystemTime;

/// Relies on std's SystemTime::duration_since: the time elapsed since an
/// earlier instant, or an error when that instant is later.
pub assume_specification[ SystemTime::duration_since ](
    t: &SystemTime,
    earlier: SystemTime,
) -> Result<Duration, SystemTimeError>;

/// Relies on std's Duration::as_millis: the whole milliseconds of a duration.
pub assume_specification[ Duration::as_millis ](d: &Duration) -> u128;

/// Relies on std's UNIX_EPOCH constant: the instant 1970-01-01 00:00:00 UTC.
#[verifier::external_body]
fn unix_epoch() -> (r: SystemTime) {
    UNIX_EPOCH
}

/// Milliseconds since the epoch by the system clock, or None when the clock
/// stands before it.
fn millis_since_epoch() -> (r: Option<u128>) {
    match SystemTime::now().duration_since(unix_epoch()) {
        Ok(d) => Some(d.as_millis()),
        Err(_) => None,
    }
}

/// The hash text starts with `TARGET_HEXT` `'0'` characters (bytes 0x30).
pub open spec fn meets_difficulty(hash: Seq<char>) -> bool {
    &&& encode_utf8(hash).len() >= TARGET_HEXT
    &&& forall|i: int| 0 <= i < TARGET_HEXT ==> encode_utf8(hash)[i] == 48u8
}

/// Nonce `n` solves the puzzle for a block with these fields.
pub open spec fn nonce_solves(prev_hash: Seq<char>, payload: Seq<char>, timestamp: u128, n: i32) -> bool {
    meets_difficulty(sha256_hex(hash_input_layout(prev_hash, payload, timestamp, TARGET_HEXT, n)))
}

/// What a block holds, as mathematical values.
pub struct BlockView {
    pub timestamp: u128,
    pub transactions: Seq<char>,
    pub prev_block_hash: Seq<char>,
    pub hash: Seq<char>,
    pub height: usize,
    pub nonce: i32,
}

impl BlockView {
    /// The bytes that are hashed for this block.
    pub open spec fn hash_input(self) -> Seq<u8> {
        hash_input_layout(self.prev_block_hash, self.transactions, self.timestamp, TARGET_HEXT, self.nonce)
    }

    /// The digest re-derived from the block's fields.
    pub open spec fn digest(self) -> Seq<char> {
        sha256_hex(self.hash_input())
    }

    /// The re-derived digest meets the difficulty.
    pub open spec fn proof_of_work_holds(self) -> bool {
        meets_difficulty(self.digest())
    }

    /// The stored hash is the re-derived digest, and it meets the difficulty.
    pub open spec fn is_mined(self) -> bool {
        self.hash == self.digest() && self.proof_of_work_holds()
    }

    /// The bytes under which the store keeps this block.
    pub open spec fn record(self) -> Seq<u8> {
        record_layout(
            self.timestamp,
            self.transactions,
            self.prev_block_hash,
            self.hash,
            self.height,
            self.nonce,
        )
    }
}

/// Why a block could not be made or read.
#[derive(Debug, Clone, Copy, PartialEq, Eq, Structural)]
pub enum BlockError {
    /// The system clock stands before the epoch.
    Clock,
    /// Encoding or decoding the block's fields failed.
    Serialization,
    /// No nonce from 0 up to `i32::MAX` solves the puzzle.
    NonceExhausted,
}

/// One link of the chain.
#[derive(Debug, Clone)]
pub struct Block {
    timestamp: u128,
    transactions: String,
    perv_block_hash: String,
    hash: String,
    height: usize,
    nonce: i32,
}

impl View for Block {
    type V = BlockView;

    closed spec fn view(&self) -> BlockView {
        BlockView {
            timestamp: self.timestamp,
            transactions: self.transactions@,
            prev_block_hash: self.perv_block_hash@,
            hash: self.hash@,
            height: self.height,
            nonce: self.nonce,
        }
    }
}

/// Whether a hash text starts with `TARGET_HEXT` `'0'` characters.
pub fn meets_target(hash: &String) -> (r: bool)
    ensures
        r == meets_difficulty(hash@),
{
    let bytes = hash.as_str().as_bytes();
    if bytes.len() < TARGET_HEXT {
        return false;
    }
    let mut i: usize = 0;
    while i < TARGET_HEXT
        invariant
            bytes@ == encode_utf8(hash@),
            bytes@.len() >= TARGET_HEXT,
            i <= TARGET_HEXT,
            forall|j: int| 0 <= j < i ==> bytes@[j] == 48u8,
        decreases TARGET_HEXT - i,
    {
        if bytes[i] != 48u8 {
            return false;
        }
        i = i + 1;
    }
    true
}

impl Block {
    pub fn get_prev_hash(&self) -> (r: String)
        ensures
            r@ == self@.prev_block_hash,
    {
        self.perv_block_hash.clone()
    }

    pub fn get_hash(&self) -> (r: String)
        ensures
            r@ == self@.hash,
    {
        self.hash.clone()
    }

    pub fn get_transactions(&self) -> (r: String)
        ensures
            r@ == self@.transactions,
    {
        self.transactions.clone()
    }

    pub fn get_timestamp(&self) -> (r: u128)
        ensures
            r == self@.timestamp,
    {
        self.timestamp
    }

    pub fn get_height(&self) -> (r: usize)
        ensures
            r == self@.height,
    {
        self.height
    }

    pub fn get_nonce(&self) -> (r: i32)
        ensures
            r == self@.nonce,
    {
        self.nonce
    }

    /// A block with the given fields, mined or not.
    pub fn from_parts(
        timestamp: u128,
        transactions: String,
        prev_block_hash: String,
        hash: String,
        height: usize,
        nonce: i32,
    ) -> (r: Block)
        ensures
            r@ == (BlockView {
                timestamp,
                transactions: transactions@,
                prev_block_hash: prev_block_hash@,
                hash: hash@,
                height,
                nonce,
            }),
    {
        Block { timestamp, transactions, perv_block_hash: prev_block_hash, hash, height, nonce }
    }

    /// Re-derives the digest from the block's fields.
    pub fn digest(&self) -> (r: String)
        ensures
            r@ == self@.digest(),
            r@.len() == 64,
    {
        match encode_hash_input(
            &self.perv_block_hash,
            &self.transactions,
            self.timestamp,
            TARGET_HEXT,
            self.nonce,
        ) {
            Some(input) => sha256_hex_of(input.as_slice()),
            None => String::new(),
        }
    }

    /// Re-derives the digest from the block's fields and tells whether it is
    /// the stored hash and meets the difficulty.
    pub fn validate(&self) -> (r: Result<bool, BlockError>)
        ensures
            r == Ok::<bool, BlockError>(self@.is_mined()),
    {
        let digest = self.digest();
        let same = digest == self.hash;
        Ok(same && meets_target(&digest))
    }

    /// Mines a block with the given fields: tries the nonces from 0 upward and
    /// keeps the first whose digest meets the difficulty.
    pub fn mine(data: String, prev_block_hash: String, height: usize, timestamp: u128) -> (r: Result<
        Block,
        BlockError,
    >)
        ensures
            r matches Ok(b) ==> {
                &&& b@.is_mined()
                &&& b@.transactions == data@
                &&& b@.prev_block_hash == prev_block_hash@
                &&& b@.timestamp == timestamp
                &&& b@.height == height
                &&& b@.hash.len() == 64
                &&& b@.nonce >= 0
                &&& nonce_solves(prev_block_hash@, data@, timestamp, b@.nonce)
                &&& forall|n: i32|
                    0 <= n < b@.nonce ==> !nonce_solves(prev_block_hash@, data@, timestamp, n)
            },
            r matches Err(e) ==> e == BlockError::NonceExhausted && forall|n: i32|
                0 <= n ==> !nonce_solves(prev_block_hash@, data@, timestamp, n),
            (exists|n: i32| 0 <= n && nonce_solves(prev_block_hash@, data@, timestamp, n)) ==> r is Ok,
    {
        let mut nonce: i32 = 0;
        loop
            invariant
                0 <= nonce,
                forall|n: i32| 0 <= n < nonce ==> !nonce_solves(prev_block_hash@, data@, timestamp, n),
            decreases i32::MAX - nonce,
        {
            let input = match encode_hash_input(&prev_block_hash, &data, timestamp, TARGET_HEXT, nonce) {
                Some(v) => v,
                None => {
                    return Err(BlockError::Serialization);
                },
            };
            let digest = sha256_hex_of(input.as_slice());
            if meets_target(&digest) {
                return Ok(
                    Block {
                        timestamp,
                        transactions: data,
                        perv_block_hash: prev_block_hash,
                        hash: digest,
                        height,
                        nonce,
                    },
                );
            }
            if nonce == i32::MAX {
                return Err(BlockError::NonceExhausted);
            }
            nonce = nonce + 1;
        }
    }

    /// Mines a block stamped with the current time.
    pub fn new_block(data: String, perv_block_hash: String, height: usize) -> (r: Result<Block, BlockError>)
        ensures
            r matches Ok(b) ==> {
                &&& b@.is_mined()
                &&& b@.transactions == data@
                &&& b@.prev_block_hash == perv_block_hash@
                &&& b@.height == height
                &&& b@.hash.len() == 64
                &&& b@.nonce >= 0
                &&& forall|n: i32|
                    0 <= n < b@.nonce ==> !nonce_solves(perv_block_hash@, data@, b@.timestamp, n)
            },
            r matches Err(e) ==> e == BlockError::Clock || e == BlockError::NonceExhausted,
    {
        match millis_since_epoch() {
            None => Err(BlockError::Clock),
            Some(timestamp) => Block::mine(data, perv_block_hash, height, timestamp),
        }
    }

    /// Mines the first block of a chain: the fixed payload, no previous hash,
    /// height 0.
    pub fn new_genesis_block() -> (r: Result<Block, BlockError>)
        ensures
            r matches Ok(b) ==> {
                &&& b@.is_mined()
                &&& b@.transactions == GENESIS_PAYLOAD@
                &&& b@.prev_block_hash.len() == 0
                &&& b@.height == 0
                &&& b@.hash.len() == 64
            },
            r matches Err(e) ==> e == BlockError::Clock || e == BlockError::NonceExhausted,
    {
        Block::new_block(GENESIS_PAYLOAD.to_owned(), String::new(), 0)
    }

    /// The record under which the store keeps this block.
    pub fn to_bytes(&self) -> (r: Result<Vec<u8>, BlockError>)
        ensures
            r is Ok,
            r matches Ok(v) ==> v@ == self@.record(),
    {
        match encode_record(
            self.timestamp,
            &self.transactions,
            &self.perv_block_hash,
            &self.hash,
            self.height,
            self.nonce,
        ) {
            Some(v) => Ok(v),
            None => Err(BlockError::Serialization),
        }
    }

    /// Reads a block from the front of a stored record.  The record of any
    /// block reads back as that block, field for field.
    pub fn from_bytes(bytes: &[u8]) -> (r: Result<Block, BlockError>)
        ensures
            r matches Ok(b) ==> b@.record().len() <= bytes@.len() && b@.record() =~= bytes@.take(
                b@.record().len() as int,
            ),
            r matches Err(e) ==> e == BlockError::Serialization && forall|v: BlockView|
                bytes@ != #[trigger] v.record(),
            forall|v: BlockView| bytes@ == #[trigger] v.record() ==> (r matches Ok(b) && b@ == v),
    {
        let len = bytes.len();
        match decode_record(bytes) {
            Some(t) => {
                let b = Block {
                    timestamp: t.0,
                    transactions: t.1,
                    perv_block_hash: t.2,
                    hash: t.3,
                    height: t.4,
                    nonce: t.5,
                };
                proof {
                    assert(bytes@.len() == len);
                    let n = b@.record().len() as int;
                    assert forall|v: BlockView| bytes@ == #[trigger] v.record() implies b@ == v by {
                        assert(b@.record() + bytes@.skip(n) =~= bytes@);
                        lemma_record_prefix_unique(
                            b@.timestamp,
                            b@.transactions,
                            b@.prev_block_hash,
                            b@.hash,
                            b@.height,
                            b@.nonce,
                            bytes@.skip(n),
                            v.timestamp,
                            v.transactions,
                            v.prev_block_hash,
                            v.hash,
                            v.height,
                            v.nonce,
                        );
                    }
                }
                Ok(b)
            },
            None => Err(BlockError::Serialization),
        }
    }
}

/// Re-deriving the hash of a mined block from its stored fields meets the
/// difficulty, and the stored hash itself meets it.
pub proof fn lemma_mined_block_revalidates(b: BlockView)
    requires
        b.is_mined(),
    ensures
        b.proof_of_work_holds(),
        meets_difficulty(b.hash),
        b.hash == sha256_hex(b.hash_input()),
{
}

/// A mined block with its payload, timestamp, nonce or previous hash changed
/// and its stored hash kept is no longer mined, so `validate` rejects it,
/// unless SHA-256 gives the old and the new hashed bytes the same digest.
pub proof fn lemma_mutated_block_fails_validation(b: BlockView, m: BlockView)
    requires
        b.is_mined(),
        m.hash == b.hash,
        fits_length_field(b.prev_block_hash),
        fits_length_field(b.transactions),
        fits_length_field(m.prev_block_hash),
        fits_length_field(m.transactions),
        m.transactions != b.transactions || m.timestamp != b.timestamp || m.nonce != b.nonce
            || m.prev_block_hash != b.prev_block_hash,
        m.hash_input() != b.hash_input() ==> sha256_hex(m.hash_input()) != sha256_hex(
            b.hash_input(),
        ),
    ensures
        !m.is_mined(),
{
    if m.hash_input() == b.hash_input() {
        lemma_hash_input_injective(
            m.prev_block_hash,
            m.transactions,
            m.timestamp,
            m.nonce,
            b.prev_block_hash,
            b.transactions,
            b.timestamp,
            b.nonce,
            TARGET_HEXT,
        );
    }
}

} // verus!
