use blockchain::{meets_target, Block, BlockError, Blockchain, ChainError, GENESIS_PAYLOAD};

fn scratch_path(name: &str) -> String {
    let nanos = std::time::SystemTime::now()
        .duration_since(std::time::UNIX_EPOCH)
        .unwrap()
        .as_nanos();
    format!("/dev/shm/blockchain_ledger_test_{}_{}", name, nanos)
}

fn walk(bc: &Blockchain) -> Vec<Block> {
    let mut out = Vec::new();
    let mut it = bc.iter();
    for _ in 0..100 {
        match it.next() {
            Ok(Some(b)) => out.push(b),
            Ok(None) => return out,
            Err(e) => panic!("walk failed: {:?}", e),
        }
    }
    panic!("chain does not end");
}

#[test]
fn target_needs_four_leading_zeros() {
    assert!(meets_target(&"0000abcd".to_string()));
    assert!(meets_target(&"0000".to_string()));
    assert!(!meets_target(&"000a0000".to_string()));
    assert!(!meets_target(&"000".to_string()));
    assert!(!meets_target(&"".to_string()));
}

#[test]
fn mined_block_hash_meets_difficulty() {
    let b = Block::new_block("payload".to_string(), "abc".to_string(), 7).unwrap();
    assert!(b.get_hash().starts_with("0000"));
    assert_eq!(b.get_hash().len(), 64);
    assert_eq!(b.get_prev_hash(), "abc");
    assert_eq!(b.get_transactions(), "payload");
    assert_eq!(b.get_height(), 7);
    assert!(b.get_nonce() >= 0);
}

#[test]
fn genesis_block_has_empty_prev_hash_and_height_zero() {
    let g = Block::new_genesis_block().unwrap();
    assert_eq!(g.get_prev_hash(), "");
    assert_eq!(g.get_height(), 0);
    assert_eq!(g.get_transactions(), GENESIS_PAYLOAD);
    assert!(g.get_hash().starts_with("0000"));
}

#[test]
fn mined_block_revalidates() {
    let b = Block::mine("x".to_string(), "prev".to_string(), 1, 1_700_000_000_000).unwrap();
    assert_eq!(b.validate(), Ok(true));
    let again = Block::mine("x".to_string(), "prev".to_string(), 1, 1_700_000_000_000).unwrap();
    assert_eq!(again.get_hash(), b.get_hash());
    assert_eq!(again.get_nonce(), b.get_nonce());
}

#[test]
fn mining_keeps_the_least_nonce() {
    let b = Block::mine("least".to_string(), String::new(), 0, 42).unwrap();
    for n in 0..b.get_nonce() {
        let other = Block::from_parts(42, "least".to_string(), String::new(), String::new(), 0, n);
        assert!(!meets_target(&other.digest()));
    }
}

#[test]
fn mutated_fields_fail_validation() {
    let b = Block::mine("bound".to_string(), "p".to_string(), 3, 1_000).unwrap();
    let hash = b.get_hash();
    let payload = Block::from_parts(1_000, "bounD".to_string(), "p".to_string(), hash.clone(), 3, b.get_nonce());
    let time = Block::from_parts(1_001, "bound".to_string(), "p".to_string(), hash.clone(), 3, b.get_nonce());
    let nonce = Block::from_parts(1_000, "bound".to_string(), "p".to_string(), hash.clone(), 3, b.get_nonce() + 1);
    assert_eq!(payload.validate(), Ok(false));
    assert_eq!(time.validate(), Ok(false));
    assert_eq!(nonce.validate(), Ok(false));
}

#[test]
fn record_layout_is_exact() {
    let b = Block::from_parts(1, "a".to_string(), String::new(), "h".to_string(), 2, -1);
    let mut expected: Vec<u8> = vec![1];
    expected.extend_from_slice(&[0; 15]);
    expected.extend_from_slice(&[1, 0, 0, 0, 0, 0, 0, 0, b'a']);
    expected.extend_from_slice(&[0; 8]);
    expected.extend_from_slice(&[1, 0, 0, 0, 0, 0, 0, 0, b'h']);
    expected.extend_from_slice(&[2, 0, 0, 0, 0, 0, 0, 0]);
    expected.extend_from_slice(&[0xff, 0xff, 0xff, 0xff]);
    assert_eq!(b.to_bytes().unwrap(), expected);
}

#[test]
fn record_round_trip() {
    let b = Block::mine("round trip".to_string(), "q".to_string(), 9, 123_456).unwrap();
    let bytes = b.to_bytes().unwrap();
    let back = Block::from_bytes(&bytes).unwrap();
    assert_eq!(back.get_timestamp(), b.get_timestamp());
    assert_eq!(back.get_transactions(), b.get_transactions());
    assert_eq!(back.get_prev_hash(), b.get_prev_hash());
    assert_eq!(back.get_hash(), b.get_hash());
    assert_eq!(back.get_height(), b.get_height());
    assert_eq!(back.get_nonce(), b.get_nonce());
}

#[test]
fn garbage_record_is_rejected() {
    assert_eq!(Block::from_bytes(&[1, 2, 3]).err(), Some(BlockError::Serialization));
}

#[test]
fn validation_compares_the_stored_hash() {
    let b = Block::mine("bind".to_string(), String::new(), 0, 5).unwrap();
    assert_eq!(b.digest(), b.get_hash());
    let wrong = Block::from_parts(5, "bind".to_string(), String::new(), "0000".to_string(), 0, b.get_nonce());
    assert_eq!(wrong.validate(), Ok(false));
    let other_height = Block::from_parts(5, "bind".to_string(), String::new(), b.get_hash(), 77, b.get_nonce());
    assert_eq!(other_height.validate(), Ok(true));
}

#[test]
fn fresh_store_holds_only_genesis() {
    let path = scratch_path("fresh");
    let bc = Blockchain::open_or_create(&path).unwrap();
    let head = bc.head_hash();
    let blocks = walk(&bc);
    assert_eq!(blocks.len(), 1);
    assert_eq!(blocks[0].get_hash(), head);
    assert_eq!(blocks[0].get_prev_hash(), "");
    assert_eq!(blocks[0].get_height(), 0);
    drop(bc);
    let db = sled::open(&path).unwrap();
    assert_eq!(db.len(), 2);
    assert_eq!(db.get("LAST").unwrap().unwrap().to_vec(), head.as_bytes().to_vec());
}

#[test]
fn test_add_block() {
    let mut bc = Blockchain::open_temporary().unwrap();
    let genesis = bc.head_hash();
    bc.add_block("data 1".to_string()).unwrap();
    bc.add_block("data 2".to_string()).unwrap();
    bc.add_block("data 3".to_string()).unwrap();
    let blocks = walk(&bc);
    for item in blocks.iter() {
        println!("Item {:?}", item)
    }
    let payloads: Vec<String> = blocks.iter().map(|b| b.get_transactions()).collect();
    assert_eq!(payloads, vec!["data 3", "data 2", "data 1", GENESIS_PAYLOAD]);
    assert_eq!(blocks[0].get_hash(), bc.head_hash());
    for i in 0..3 {
        assert_eq!(blocks[i].get_prev_hash(), blocks[i + 1].get_hash());
        assert_eq!(blocks[i].get_height(), 3 - i);
        assert_eq!(blocks[i].validate(), Ok(true));
    }
    assert_eq!(blocks[3].get_hash(), genesis);
}

#[test]
fn reopening_resumes_from_stored_head() {
    let path = scratch_path("reopen");
    let mut first = Blockchain::open_or_create(&path).unwrap();
    first.add_block("kept".to_string()).unwrap();
    let head = first.head_hash();
    drop(first);
    let second = Blockchain::open_or_create(&path).unwrap();
    assert_eq!(second.head_hash(), head);
    let blocks = walk(&second);
    assert_eq!(blocks.len(), 2);
    assert_eq!(blocks[0].get_transactions(), "kept");
}

#[test]
fn invalid_store_path_is_a_store_error() {
    assert_eq!(Blockchain::open_or_create("/dev/null/blocks").err(), Some(ChainError::Store));
}

fn prepared_store(name: &str, entries: Vec<(&str, Vec<u8>)>) -> String {
    let path = scratch_path(name);
    let db = sled::open(&path).unwrap();
    for (k, v) in entries {
        db.insert(k, v).unwrap();
    }
    db.flush().unwrap();
    drop(db);
    path
}

#[test]
fn head_that_is_not_utf8_is_rejected() {
    let path = prepared_store("utf8", vec![("LAST", vec![0xffu8, 0xfe])]);
    assert_eq!(Blockchain::open_or_create(&path).err(), Some(ChainError::Utf8));
}

#[test]
fn head_naming_no_block_is_reported_on_append() {
    let path = prepared_store("missing", vec![("LAST", b"nowhere".to_vec())]);
    let mut bc = Blockchain::open_or_create(&path).unwrap();
    assert_eq!(bc.add_block("x".to_string()), Err(ChainError::MissingBlock));
    assert_eq!(bc.head_hash(), "nowhere");
}

#[test]
fn corrupt_record_is_reported() {
    let path = prepared_store("corrupt", vec![("LAST", b"broken".to_vec()), ("broken", vec![1u8, 2, 3])]);
    let mut bc = Blockchain::open_or_create(&path).unwrap();
    assert_eq!(bc.add_block("x".to_string()), Err(ChainError::Serialization));
    let mut it = bc.iter();
    assert!(matches!(it.next(), Err(ChainError::Serialization)));
}
