//! Unit tests for the machine's components: words, the stack, memory,
//! the cursor, and the commitment caches.
use stackvm::word::{word_add, word_div, word_mod, word_mul, word_sub};
use stackvm::{AccountCommitment, AccountState, BlockhashState, Address, CommitError, Memory,
    OnChainError, RequireError, Stack, Word, PC};

fn w(v: u64) -> Word {
    Word::from_u64(v)
}

#[test]
fn word_roundtrip_u64() {
    let x = w(0xdead_beef_1234_5678);
    assert_eq!(x.as_u64_checked(), Some(0xdead_beef_1234_5678));
    assert!(w(0).is_zero());
    assert!(!w(1).is_zero());
}

#[test]
fn word_arithmetic_wraps() {
    assert_eq!(word_add(&w(2), &w(3)), w(5));
    assert_eq!(word_sub(&w(7), &w(5)), w(2));
    assert_eq!(word_mul(&w(6), &w(7)), w(42));
    assert_eq!(word_div(&w(42), &w(7)), w(6));
    assert_eq!(word_div(&w(42), &w(0)), w(0));
    assert_eq!(word_mod(&w(42), &w(5)), w(2));
    assert_eq!(word_mod(&w(42), &w(0)), w(0));
    // 0 - 1 wraps to the all-ones word.
    let max = word_sub(&w(0), &w(1));
    assert_eq!(max.bytes, [0xffu8; 32]);
    // max + 1 wraps back to zero.
    assert!(word_add(&max, &w(1)).is_zero());
}

#[test]
fn word_comparisons() {
    assert!(w(3).lt_word(&w(5)));
    assert!(!w(5).lt_word(&w(3)));
    assert!(!w(5).lt_word(&w(5)));
    assert!(w(5).eq_word(&w(5)));
    assert!(!w(5).eq_word(&w(6)));
}

#[test]
fn word_address_truncation() {
    let a = w(0x1234).to_address();
    assert_eq!(a, Address::from_u64(0x1234));
    assert_eq!(a.to_word(), w(0x1234));
}

#[test]
fn stack_push_pop_order() {
    let mut s = Stack::new();
    assert_eq!(s.len(), 0);
    s.push(w(1)).unwrap();
    s.push(w(2)).unwrap();
    assert_eq!(s.peek(0).unwrap(), w(2));
    assert_eq!(s.peek(1).unwrap(), w(1));
    assert_eq!(s.pop().unwrap(), w(2));
    assert_eq!(s.pop().unwrap(), w(1));
}

#[test]
fn stack_overflow_and_underflow_do_not_mutate() {
    let mut s = Stack::new();
    for i in 0..1024u64 {
        s.push(w(i)).unwrap();
    }
    assert_eq!(s.push(w(9999)), Err(OnChainError::StackOverflow));
    assert_eq!(s.len(), 1024);
    assert_eq!(s.peek(0).unwrap(), w(1023));

    let mut e = Stack::new();
    assert_eq!(e.pop(), Err(OnChainError::StackUnderflow));
    assert_eq!(e.peek(0), Err(OnChainError::StackUnderflow));
    assert_eq!(e.len(), 0);
}

#[test]
fn memory_grows_by_words_and_zero_fills() {
    let mut m = Memory::new();
    assert_eq!(m.len(), 0);
    m.write_byte(5, 0xaa);
    assert_eq!(m.len(), 32);
    let word = m.read_word(0);
    assert_eq!(word.bytes[5], 0xaa);
    assert_eq!(word.bytes[6], 0x00);
    // Reads beyond the physical size see zeroes and do not grow.
    let far = m.read_word(1000);
    assert!(far.is_zero());
    assert_eq!(m.len(), 32);
}

#[test]
fn memory_word_roundtrip() {
    let mut m = Memory::new();
    let x = w(0x0102030405060708);
    m.write_word(64, &x);
    assert_eq!(m.read_word(64), x);
    assert_eq!(m.len(), 96);
    let bytes = m.read_bytes(64, 32);
    assert_eq!(bytes, x.bytes.to_vec());
}

#[test]
fn cursor_decodes_and_advances() {
    // PUSH2 0x0102, POP, STOP
    let code: Vec<u8> = vec![0x61, 0x01, 0x02, 0x50, 0x00];
    let mut pc = PC::new(&code);
    assert_eq!(pc.position(), 0);
    assert!(!pc.is_end());
    match pc.read().unwrap() {
        stackvm::Instruction::Push(n, word) => {
            assert_eq!(n, 2);
            assert_eq!(word, w(0x0102));
        },
        other => panic!("decoded {:?}", other),
    }
    assert_eq!(pc.position(), 3);
    assert!(matches!(pc.read().unwrap(), stackvm::Instruction::Pop));
    assert!(matches!(pc.read().unwrap(), stackvm::Instruction::Stop));
    assert!(pc.is_end());
}

#[test]
fn cursor_rejects_undecodable_byte() {
    let code: Vec<u8> = vec![0xfe];
    let pc = PC::new(&code);
    assert_eq!(pc.peek(), Err(OnChainError::InvalidOpcode));
}

#[test]
fn truncated_push_pads_with_zeroes() {
    // PUSH4 with only two immediate bytes available.
    let code: Vec<u8> = vec![0x63, 0xab, 0xcd];
    let pc = PC::new(&code);
    match pc.peek().unwrap() {
        stackvm::Instruction::Push(n, word) => {
            assert_eq!(n, 4);
            assert_eq!(word, w(0xabcd0000));
        },
        other => panic!("decoded {:?}", other),
    }
}

#[test]
fn push_immediate_byte_is_never_a_destination() {
    // PUSH1 0x5b, JUMPDEST: offset 1 carries the marker's value but is
    // immediate data; offset 2 is a real marker.
    let code: Vec<u8> = vec![0x60, 0x5b, 0x5b];
    let pc = PC::new(&code);
    assert!(!pc.is_valid(1));
    assert!(pc.is_valid(2));
    assert!(!pc.is_valid(0));
    assert!(!pc.is_valid(3));
}

#[test]
fn account_commit_conflicts_are_refused() {
    let mut cache = AccountState::new();
    let addr = Address::from_u64(7);
    cache
        .commit(AccountCommitment::Full {
            address: addr,
            balance: w(100),
            nonce: w(1),
            code: vec![0x60],
        })
        .unwrap();
    assert_eq!(cache.balance(&addr).unwrap(), w(100));
    assert_eq!(cache.existence(&addr).unwrap(), true);
    // A second full commitment for the same account conflicts.
    let again = cache.commit(AccountCommitment::Full {
        address: addr,
        balance: w(200),
        nonce: w(2),
        code: vec![],
    });
    assert_eq!(again, Err(CommitError::AlreadyCommitted));
    // The first fact is unchanged.
    assert_eq!(cache.balance(&addr).unwrap(), w(100));
}

#[test]
fn account_reads_require_commitment_first() {
    let cache = AccountState::new();
    let addr = Address::from_u64(9);
    assert_eq!(cache.balance(&addr), Err(RequireError::Account(addr)));
    assert_eq!(
        cache.storage_read(&addr, &w(3)),
        Err(RequireError::AccountStorage(addr, w(3)))
    );
}

#[test]
fn nonexistent_account_reads_as_empty() {
    let mut cache = AccountState::new();
    let addr = Address::from_u64(11);
    cache.commit(AccountCommitment::Nonexist(addr)).unwrap();
    assert_eq!(cache.balance(&addr).unwrap(), w(0));
    assert_eq!(cache.existence(&addr).unwrap(), false);
    assert_eq!(cache.storage_read(&addr, &w(42)).unwrap(), w(0));
}

#[test]
fn storage_write_needs_a_readable_slot() {
    let mut cache = AccountState::new();
    let addr = Address::from_u64(13);
    assert_eq!(
        cache.storage_write(&addr, &w(1), w(5)),
        Err(RequireError::AccountStorage(addr, w(1)))
    );
    cache
        .commit(AccountCommitment::Storage { address: addr, index: w(1), value: w(0) })
        .unwrap();
    cache.storage_write(&addr, &w(1), w(5)).unwrap();
    assert_eq!(cache.storage_read(&addr, &w(1)).unwrap(), w(5));
    // The committed original cannot be supplied twice.
    let again = cache.commit(AccountCommitment::Storage {
        address: addr,
        index: w(1),
        value: w(9),
    });
    assert_eq!(again, Err(CommitError::AlreadyCommitted));
}

#[test]
fn blockhash_commit_and_conflict() {
    let mut cache = BlockhashState::new();
    assert_eq!(cache.get(&w(5)), Err(RequireError::Blockhash(w(5))));
    cache.commit(w(5), w(0xabc)).unwrap();
    assert_eq!(cache.get(&w(5)).unwrap(), w(0xabc));
    assert_eq!(cache.commit(w(5), w(0xdef)), Err(CommitError::AlreadyCommitted));
    assert_eq!(cache.get(&w(5)).unwrap(), w(0xabc));
}
