//! The ledger: blocks kept in a sled store under their hashes, the key
//! `LAST` holding the hash of the newest block, and a walk from the newest
//! block back through each block's previous hash.
use vstd::prelude::*;
use vstd::utf8::{decode_utf8, encode_utf8, valid_utf8};
use crate::block::{Block, BlockError, BlockView, GENESIS_PAYLOAD};

verus! {

broadcast use vstd::utf8::encode_utf8_decode_utf8, vstd::utf8::decode_utf8_encode_utf8,
    vstd::utf8::encode_utf8_valid_utf8;

/// sled's database handle, opaque here: what it holds is `store_contents`.
#[verifier::external_type_specification]
#[verifier::external_body]
pub struct ExDb(sled::Db);

/// sled's error type, only carried to the point where it becomes `ChainError::Store`.
#[verifier::external_type_specification]
#[verifier::external_body]
pub struct ExSledError(sled::Error);

/// The key-value pairs that a sled store holds.
pub uninterp spec fn store_contents(db: sled::Db) -> Map<Seq<u8>, Seq<u8>>;

/// Relies on sled::open: opens or creates the store at a path.  What it holds
/// depends on the disk, so nothing is promised of it.
#[verifier::external_body]
fn open_store(path: &str) -> (r: Result<sled::Db, sled::Error>) {
    sled::open(path)
}

/// Relies on sled::Config::temporary and Config::open: a store at a
/// generated path under /dev/shm, removed when its last handle is dropped.
/// Nothing is promised of what it holds.
#[verifier::external_body]
fn open_temporary_store() -> (r: Result<sled::Db, sled::Error>) {
    sled::Config::new().temporary(true).open()
}

/// Relies on sled::Tree::get (through the default tree of a Db): the value
/// stored under the key, if any.
#[verifier::external_body]
fn store_get(db: &sled::Db, key: &[u8]) -> (r: Result<Option<Vec<u8>>, sled::Error>)
    ensures
        r matches Ok(found) ==> (found is Some <==> store_contents(*db).contains_key(key@)),
        r matches Ok(Some(v)) ==> v@ == store_contents(*db)[key@],
{
    db.get(key).map(|found| found.map(|v| v.to_vec()))
}

/// Relies on sled::Tree::insert (through the default tree of a Db): on success
/// the key holds the value and every other key is as it was.
#[verifier::external_body]
fn store_insert(db: &mut sled::Db, key: &[u8], value: &[u8]) -> (r: Result<(), sled::Error>)
    ensures
        r is Ok ==> store_contents(*final(db)) == store_contents(*old(db)).insert(key@, value@),
{
    db.insert(key, value).map(|_| ())
}

/// Relies on sled::Tree::flush: writes the dirty buffers to disk; the contents
/// stay as they are.
#[verifier::external_body]
fn store_flush(db: &sled::Db) -> (r: Result<(), sled::Error>) {
    db.flush().map(|_| ())
}

/// Relies on std's String::from_utf8: a string exactly when the bytes are
/// valid UTF-8, holding the characters that they encode.
#[verifier::external_body]
fn string_from_utf8(bytes: Vec<u8>) -> (r: Option<String>)
    ensures
        r is Some <==> valid_utf8(bytes@),
        r matches Some(s) ==> s@ == decode_utf8(bytes@),
{
    String::from_utf8(bytes).ok()
}

/// The key `LAST`, under which the store keeps the hash of the newest block.
pub open spec fn head_key() -> Seq<u8> {
    seq![76u8, 65u8, 83u8, 84u8]
}

/// The key under which a block with this hash is stored.
pub open spec fn key_of(hash: Seq<char>) -> Seq<u8> {
    encode_utf8(hash)
}

/// The first block of a chain.
pub open spec fn is_genesis(g: BlockView) -> bool {
    &&& g.is_mined()
    &&& g.transactions == GENESIS_PAYLOAD@
    &&& g.prev_block_hash.len() == 0
    &&& g.height == 0
}

/// A stored record begins with the record of `v`.
pub open spec fn record_holds(stored: Seq<u8>, v: BlockView) -> bool {
    &&& v.record().len() <= stored.len()
    &&& v.record() =~= stored.take(v.record().len() as int)
}

fn head_key_bytes() -> (r: Vec<u8>)
    ensures
        r@ == head_key(),
{
    let r: Vec<u8> = vec![76u8, 65u8, 83u8, 84u8];
    assert(r@ =~= head_key());
    r
}

/// Why the ledger could not be opened, extended or read.
#[derive(Debug, Clone, Copy, PartialEq, Eq, Structural)]
pub enum ChainError {
    /// The store failed to open, read, write or flush.
    Store,
    /// The stored head is not valid UTF-8.
    Utf8,
    /// A stored record does not decode as a block.
    Serialization,
    /// The store holds no head pointer.
    MissingHead,
    /// The head pointer names a block that the store does not hold.
    MissingBlock,
    /// The newest block already has the largest height.
    HeightOverflow,
    /// Mining the new block failed.
    Mining(BlockError),
}

/// The ledger, backed by a sled store.  It holds the only handle on its
/// store: it opens the store itself, and sled's lock on the store's directory
/// refuses a second open while the handle lives, so nothing but the ledger
/// changes what the store holds.
pub struct Blockchain {
    current_hash: String,
    db: sled::Db,
}

impl Blockchain {
    /// What the store holds.
    pub closed spec fn contents(&self) -> Map<Seq<u8>, Seq<u8>> {
        store_contents(self.db)
    }

    /// The hash of the newest block, as kept in memory.
    pub closed spec fn head(&self) -> Seq<char> {
        self.current_hash@
    }

    /// The store's head pointer is the head kept in memory.
    pub open spec fn wf(&self) -> bool {
        &&& self.contents().contains_key(head_key())
        &&& self.contents()[head_key()] == key_of(self.head())
    }

    /// The hash of the newest block.
    pub fn head_hash(&self) -> (r: String)
        ensures
            r@ == self.head(),
    {
        self.current_hash.clone()
    }

    /// Opens the ledger kept under `data/blocks`.
    pub fn new() -> (r: Result<Blockchain, ChainError>)
        ensures
            r matches Ok(bc) ==> bc.wf(),
    {
        Blockchain::open_or_create("data/blocks")
    }

    /// Opens the ledger kept at `path`, creating it with a genesis block when
    /// the store holds no head pointer.
    pub fn open_or_create(path: &str) -> (r: Result<Blockchain, ChainError>)
        ensures
            r matches Ok(bc) ==> bc.wf(),
    {
        match open_store(path) {
            Err(_) => Err(ChainError::Store),
            Ok(db) => Blockchain::from_store(db),
        }
    }

    /// Opens a ledger on a fresh temporary store, removed when the ledger is
    /// dropped.
    pub fn open_temporary() -> (r: Result<Blockchain, ChainError>)
        ensures
            r matches Ok(bc) ==> bc.wf(),
    {
        match open_temporary_store() {
            Err(_) => Err(ChainError::Store),
            Ok(db) => Blockchain::from_store(db),
        }
    }

    /// Takes a store that it alone holds: resumes from its head pointer, or,
    /// when it has none, mines a genesis block, stores it under its hash and
    /// points the head at it.
    fn from_store(db: sled::Db) -> (r: Result<Blockchain, ChainError>)
        ensures
            r matches Ok(bc) ==> bc.wf(),
            store_contents(db).contains_key(head_key()) ==> (r matches Ok(bc) ==> bc.contents()
                == store_contents(db)),
            !store_contents(db).contains_key(head_key()) ==> (r matches Ok(bc) ==> exists|
                g: BlockView,
            |
                #![trigger is_genesis(g)]
                is_genesis(g) && bc.head() == g.hash && bc.contents() == store_contents(db).insert(
                    key_of(g.hash),
                    g.record(),
                ).insert(head_key(), key_of(g.hash))),
            store_contents(db) == Map::<Seq<u8>, Seq<u8>>::empty() ==> (r matches Ok(bc) ==> exists|
                g: BlockView,
            |
                #![trigger is_genesis(g)]
                is_genesis(g) && bc.head() == g.hash && bc.contents() == Map::<
                    Seq<u8>,
                    Seq<u8>,
                >::empty().insert(key_of(g.hash), g.record()).insert(head_key(), key_of(g.hash))),
            r matches Err(ChainError::Utf8) ==> store_contents(db).contains_key(head_key())
                && !valid_utf8(store_contents(db)[head_key()]),
            store_contents(db).contains_key(head_key()) && !valid_utf8(store_contents(db)[head_key()])
                ==> r is Err,
    {
        let mut db = db;
        let last = head_key_bytes();
        match store_get(&db, last.as_slice()) {
            Err(_) => Err(ChainError::Store),
            Ok(Some(bytes)) => match string_from_utf8(bytes) {
                None => Err(ChainError::Utf8),
                Some(current_hash) => Ok(Blockchain { current_hash, db }),
            },
            Ok(None) => {
                let genesis = match Block::new_genesis_block() {
                    Ok(b) => b,
                    Err(e) => {
                        return Err(ChainError::Mining(e));
                    },
                };
                let record = match genesis.to_bytes() {
                    Ok(v) => v,
                    Err(_) => {
                        return Err(ChainError::Serialization);
                    },
                };
                let hash = genesis.get_hash();
                if store_insert(&mut db, hash.as_str().as_bytes(), record.as_slice()).is_err() {
                    return Err(ChainError::Store);
                }
                if store_insert(&mut db, last.as_slice(), hash.as_str().as_bytes()).is_err() {
                    return Err(ChainError::Store);
                }
                if store_flush(&db).is_err() {
                    return Err(ChainError::Store);
                }
                let bc = Blockchain { current_hash: hash, db };
                assert(is_genesis(genesis@));
                Ok(bc)
            },
        }
    }
}


impl Blockchain {
    /// Appends a block holding `data`: re-reads the head pointer from the
    /// store, reads the block it names, mines a new block on top of it one
    /// height higher, stores the new block under its hash, flushes, and only
    /// then moves the head pointer to it.
    pub fn add_block(&mut self, data: String) -> (r: Result<(), ChainError>)
        ensures
            r is Ok ==> final(self).wf(),
            r is Ok ==> exists|p: BlockView, g: BlockView|
                #![trigger record_holds(old(self).contents()[key_of(g.prev_block_hash)], p), g.record()]
                {
                    &&& old(self).contents().contains_key(head_key())
                    &&& old(self).contents()[head_key()] == key_of(g.prev_block_hash)
                    &&& old(self).contents().contains_key(key_of(g.prev_block_hash))
                    &&& record_holds(old(self).contents()[key_of(g.prev_block_hash)], p)
                    &&& g.is_mined()
                    &&& g.transactions == data@
                    &&& g.height == p.height + 1
                    &&& final(self).head() == g.hash
                    &&& final(self).contents() == old(self).contents().insert(
                        key_of(g.hash),
                        g.record(),
                    ).insert(head_key(), key_of(g.hash))
                },
            r is Err ==> final(self).head() == old(self).head(),
            r matches Err(e) && e != ChainError::Store ==> final(self).contents() == old(
                self,
            ).contents(),
            r matches Err(ChainError::MissingHead) ==> !old(self).contents().contains_key(head_key()),
            !old(self).contents().contains_key(head_key()) ==> r is Err,
            r matches Err(ChainError::Utf8) ==> old(self).contents().contains_key(head_key())
                && !valid_utf8(old(self).contents()[head_key()]),
            r matches Err(ChainError::MissingBlock) ==> old(self).contents().contains_key(head_key())
                && valid_utf8(old(self).contents()[head_key()]) && !old(self).contents().contains_key(
                old(self).contents()[head_key()],
            ),
            r matches Err(ChainError::Serialization) ==> {
                &&& old(self).contents().contains_key(head_key())
                &&& old(self).contents().contains_key(old(self).contents()[head_key()])
                &&& forall|v: BlockView|
                    old(self).contents()[old(self).contents()[head_key()]] != #[trigger] v.record()
            },
            r matches Err(ChainError::HeightOverflow) ==> exists|p: BlockView|
                #[trigger] record_holds(old(self).contents()[old(self).contents()[head_key()]], p)
                    && old(self).contents().contains_key(head_key()) && old(
                    self,
                ).contents().contains_key(old(self).contents()[head_key()]) && p.height == usize::MAX,
            r matches Err(ChainError::Mining(e)) ==> e == BlockError::NonceExhausted || e
                == BlockError::Clock,
    {
        let last = head_key_bytes();
        let head_bytes = match store_get(&self.db, last.as_slice()) {
            Err(_) => {
                return Err(ChainError::Store);
            },
            Ok(None) => {
                return Err(ChainError::MissingHead);
            },
            Ok(Some(v)) => v,
        };
        let prev_hash = match string_from_utf8(head_bytes) {
            None => {
                return Err(ChainError::Utf8);
            },
            Some(s) => s,
        };
        let prev_record = match store_get(&self.db, prev_hash.as_str().as_bytes()) {
            Err(_) => {
                return Err(ChainError::Store);
            },
            Ok(None) => {
                return Err(ChainError::MissingBlock);
            },
            Ok(Some(v)) => v,
        };
        let prev = match Block::from_bytes(prev_record.as_slice()) {
            Err(_) => {
                return Err(ChainError::Serialization);
            },
            Ok(b) => b,
        };
        let prev_height = prev.get_height();
        if prev_height == usize::MAX {
            assert(record_holds(old(self).contents()[old(self).contents()[head_key()]], prev@));
            return Err(ChainError::HeightOverflow);
        }
        let block = match Block::new_block(data, prev_hash, prev_height + 1) {
            Err(e) => {
                return Err(ChainError::Mining(e));
            },
            Ok(b) => b,
        };
        let record = match block.to_bytes() {
            Err(_) => {
                return Err(ChainError::Serialization);
            },
            Ok(v) => v,
        };
        let hash = block.get_hash();
        if store_insert(&mut self.db, hash.as_str().as_bytes(), record.as_slice()).is_err() {
            return Err(ChainError::Store);
        }
        if store_flush(&self.db).is_err() {
            return Err(ChainError::Store);
        }
        if store_insert(&mut self.db, last.as_slice(), hash.as_str().as_bytes()).is_err() {
            return Err(ChainError::Store);
        }
        self.current_hash = hash;
        assert(record_holds(old(self).contents()[key_of(block@.prev_block_hash)], prev@));
        Ok(())
    }

    /// A walk over the stored blocks, from the newest back to the first.
    pub fn iter(&self) -> (r: BlockchainIter)
        ensures
            r.cursor() == self.head(),
            r.chain() == *self,
    {
        BlockchainIter { current_hash: self.current_hash.clone(), bc: self }
    }
}

/// A walk from a block back through the previous hashes.
pub struct BlockchainIter<'a> {
    current_hash: String,
    bc: &'a Blockchain,
}

impl<'a> BlockchainIter<'a> {
    /// The hash of the block that the next step reads.
    pub closed spec fn cursor(&self) -> Seq<char> {
        self.current_hash@
    }

    /// The ledger walked over.
    pub closed spec fn chain(&self) -> Blockchain {
        *self.bc
    }

    /// Reads the block under the cursor and moves the cursor to its previous
    /// hash.  `Ok(None)` is the end of the chain: the store holds nothing
    /// under the cursor (the genesis block's empty previous hash).  A record
    /// that does not decode, or a failing read, is an error, and the cursor
    /// stays.
    pub fn next(&mut self) -> (r: Result<Option<Block>, ChainError>)
        ensures
            final(self).chain() == old(self).chain(),
            r matches Ok(None) ==> !old(self).chain().contents().contains_key(key_of(old(self).cursor()))
                && final(self).cursor() == old(self).cursor(),
            r matches Ok(Some(b)) ==> {
                &&& old(self).chain().contents().contains_key(key_of(old(self).cursor()))
                &&& record_holds(old(self).chain().contents()[key_of(old(self).cursor())], b@)
                &&& final(self).cursor() == b@.prev_block_hash
            },
            r matches Err(e) ==> final(self).cursor() == old(self).cursor() && (e == ChainError::Store
                || (e == ChainError::Serialization && old(self).chain().contents().contains_key(
                key_of(old(self).cursor()),
            ))),
            forall|v: BlockView|
                old(self).chain().contents().contains_key(key_of(old(self).cursor()))
                    && old(self).chain().contents()[key_of(old(self).cursor())] == #[trigger] v.record()
                    ==> (r matches Err(ChainError::Store) || (r matches Ok(Some(b)) && b@ == v)),
    {
        match store_get(&self.bc.db, self.current_hash.as_str().as_bytes()) {
            Err(_) => Err(ChainError::Store),
            Ok(None) => Ok(None),
            Ok(Some(bytes)) => match Block::from_bytes(bytes.as_slice()) {
                Err(_) => Err(ChainError::Serialization),
                Ok(block) => {
                    self.current_hash = block.get_prev_hash();
                    Ok(Some(block))
                },
            },
        }
    }
}

/// A mined block's key is never the head pointer's key: its hash starts with
/// `'0'`, the key with `'L'`.
pub proof fn lemma_block_key_is_not_head_key(g: BlockView)
    requires
        g.is_mined(),
    ensures
        key_of(g.hash) != head_key(),
{
    assert(key_of(g.hash)[0] == 48u8);
    assert(head_key()[0] == 76u8);
}

/// What an append leaves in a store whose head pointer named `old_head`: the
/// head pointer names the new block, the new block's record is kept under its
/// hash, the new block links back to `old_head`, and every other key keeps
/// its value.  Walking from the new head thus reads the new block first and
/// then goes on from the block that was the head before.
pub proof fn lemma_append_links_to_previous_head(
    before: Map<Seq<u8>, Seq<u8>>,
    after: Map<Seq<u8>, Seq<u8>>,
    old_head: Seq<char>,
    g: BlockView,
)
    requires
        before.contains_key(head_key()),
        before[head_key()] == key_of(old_head),
        g.is_mined(),
        before[head_key()] == key_of(g.prev_block_hash),
        after == before.insert(key_of(g.hash), g.record()).insert(head_key(), key_of(g.hash)),
    ensures
        after[head_key()] == key_of(g.hash),
        after.contains_key(key_of(g.hash)),
        after[key_of(g.hash)] == g.record(),
        g.prev_block_hash == old_head,
        forall|k: Seq<u8>|
            k != head_key() && k != key_of(g.hash) ==> (#[trigger] after.contains_key(k)
                == before.contains_key(k) && after[k] == before[k]),
{
    lemma_block_key_is_not_head_key(g);
    assert(decode_utf8(key_of(old_head)) == old_head);
    assert(decode_utf8(key_of(g.prev_block_hash)) == g.prev_block_hash);
}

/// `bs` is what a walk from `head` over the store `c` reads, newest first:
/// each block is mined and stored under its own hash, the first is `head`,
/// each links to the next by its previous hash, and the walk ends at a block
/// with an empty previous hash, under which nothing is stored.
pub open spec fn is_walk(c: Map<Seq<u8>, Seq<u8>>, head: Seq<char>, bs: Seq<BlockView>) -> bool {
    &&& bs.len() > 0
    &&& bs[0].hash == head
    &&& forall|i: int|
        0 <= i < bs.len() ==> {
            &&& (#[trigger] bs[i]).is_mined()
            &&& c.contains_key(key_of(bs[i].hash))
            &&& c[key_of(bs[i].hash)] == bs[i].record()
        }
    &&& forall|i: int| 0 <= i < bs.len() - 1 ==> (#[trigger] bs[i]).prev_block_hash == bs[i + 1].hash
    &&& bs.last().prev_block_hash.len() == 0
    &&& !c.contains_key(key_of(Seq::empty()))
}

proof fn lemma_empty_key(g: BlockView)
    requires
        g.is_mined(),
    ensures
        key_of(Seq::empty()) != key_of(g.hash),
        key_of(Seq::empty()) != head_key(),
{
    assert(encode_utf8(Seq::<char>::empty()) =~= Seq::<u8>::empty());
}

/// The store that a fresh ledger starts with holds a walk of the genesis
/// block alone.
pub proof fn lemma_genesis_walk(c: Map<Seq<u8>, Seq<u8>>, g: BlockView)
    requires
        is_genesis(g),
        c == Map::<Seq<u8>, Seq<u8>>::empty().insert(key_of(g.hash), g.record()).insert(
            head_key(),
            key_of(g.hash),
        ),
    ensures
        is_walk(c, g.hash, seq![g]),
{
    lemma_block_key_is_not_head_key(g);
    lemma_empty_key(g);
    assert(seq![g].last() == g);
    assert(g.prev_block_hash =~= Seq::<char>::empty());
}

/// An append puts the new block in front of the walk: appending `g` to a
/// store that holds a walk `bs` from its head leaves a walk `g, bs...` from
/// the new head.  `g`'s hash must name no block stored before, which fails
/// only on a digest collision.
pub proof fn lemma_append_extends_walk(
    before: Map<Seq<u8>, Seq<u8>>,
    after: Map<Seq<u8>, Seq<u8>>,
    head: Seq<char>,
    bs: Seq<BlockView>,
    g: BlockView,
)
    requires
        is_walk(before, head, bs),
        before.contains_key(head_key()),
        before[head_key()] == key_of(head),
        g.is_mined(),
        before[head_key()] == key_of(g.prev_block_hash),
        !before.contains_key(key_of(g.hash)),
        after == before.insert(key_of(g.hash), g.record()).insert(head_key(), key_of(g.hash)),
    ensures
        is_walk(after, g.hash, seq![g] + bs),
{
    lemma_append_links_to_previous_head(before, after, head, g);
    lemma_empty_key(g);
    let ns = seq![g] + bs;
    assert forall|i: int| 0 <= i < ns.len() implies {
        &&& (#[trigger] ns[i]).is_mined()
        &&& after.contains_key(key_of(ns[i].hash))
        &&& after[key_of(ns[i].hash)] == ns[i].record()
    } by {
        if i > 0 {
            assert(ns[i] == bs[i - 1]);
            lemma_block_key_is_not_head_key(bs[i - 1]);
            assert(before.contains_key(key_of(bs[i - 1].hash)));
            assert(after.contains_key(key_of(bs[i - 1].hash)));
        }
    }
    assert forall|i: int| 0 <= i < ns.len() - 1 implies (#[trigger] ns[i]).prev_block_hash
        == ns[i + 1].hash by {
        if i > 0 {
            assert(ns[i] == bs[i - 1]);
            assert(ns[i + 1] == bs[i]);
        }
    }
    assert(ns.last() == bs.last());
}

/// Three appends on a fresh ledger: a walk from the final head reads the
/// blocks of the third, second and first payload, in that order, each linked
/// to the next by its previous hash, and then the genesis block, where it
/// ends.  Each mined hash must name no block stored before it, which fails
/// only on a digest collision.
pub proof fn lemma_three_appends_walk(
    c0: Map<Seq<u8>, Seq<u8>>,
    c1: Map<Seq<u8>, Seq<u8>>,
    c2: Map<Seq<u8>, Seq<u8>>,
    c3: Map<Seq<u8>, Seq<u8>>,
    g0: BlockView,
    g1: BlockView,
    g2: BlockView,
    g3: BlockView,
)
    requires
        is_genesis(g0),
        c0 == Map::<Seq<u8>, Seq<u8>>::empty().insert(key_of(g0.hash), g0.record()).insert(
            head_key(),
            key_of(g0.hash),
        ),
        g1.is_mined(),
        c0[head_key()] == key_of(g1.prev_block_hash),
        !c0.contains_key(key_of(g1.hash)),
        c1 == c0.insert(key_of(g1.hash), g1.record()).insert(head_key(), key_of(g1.hash)),
        g2.is_mined(),
        c1[head_key()] == key_of(g2.prev_block_hash),
        !c1.contains_key(key_of(g2.hash)),
        c2 == c1.insert(key_of(g2.hash), g2.record()).insert(head_key(), key_of(g2.hash)),
        g3.is_mined(),
        c2[head_key()] == key_of(g3.prev_block_hash),
        !c2.contains_key(key_of(g3.hash)),
        c3 == c2.insert(key_of(g3.hash), g3.record()).insert(head_key(), key_of(g3.hash)),
    ensures
        is_walk(c3, g3.hash, seq![g3, g2, g1, g0]),
{
    lemma_genesis_walk(c0, g0);
    lemma_append_extends_walk(c0, c1, g0.hash, seq![g0], g1);
    assert(seq![g1] + seq![g0] =~= seq![g1, g0]);
    lemma_append_extends_walk(c1, c2, g1.hash, seq![g1, g0], g2);
    assert(seq![g2] + seq![g1, g0] =~= seq![g2, g1, g0]);
    lemma_append_extends_walk(c2, c3, g2.hash, seq![g2, g1, g0], g3);
    assert(seq![g3] + seq![g2, g1, g0] =~= seq![g3, g2, g1, g0]);
}

} // verus!
