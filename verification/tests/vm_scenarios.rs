//! End-to-end scenarios for the stepping state machine: control flow, gas
//! exhaustion, the commit-and-retry protocol, precompiled dispatch, and
//! sub-machine invocation.
use stackvm::{AccountCommitment, Address, Context, DefaultPatch, EmbeddedPatch, HeaderParams,
    Machine, MachineStatus, OnChainError, NotSupportedError, RequireError, Word};

fn w(v: u64) -> Word {
    Word::from_u64(v)
}

fn ctx_at(address: u64, code: Vec<u8>, data: Vec<u8>, gas: u64) -> Context {
    Context {
        address: Address::from_u64(address),
        caller: Address::from_u64(0x200),
        value: w(0),
        data,
        code,
        gas_limit: gas,
        origin: Address::from_u64(0x200),
        gas_price: w(1),
    }
}

fn header() -> HeaderParams {
    HeaderParams {
        beneficiary: Address::from_u64(0x300),
        timestamp: w(100),
        number: w(42),
        difficulty: w(1000),
        gas_limit: w(8_000_000),
    }
}

fn machine(code: Vec<u8>, gas: u64) -> Machine<DefaultPatch> {
    Machine::new(ctx_at(0x100, code, Vec::new(), gas), header(), 0)
}

fn run_to_exit(m: &mut Machine<DefaultPatch>) -> MachineStatus {
    loop {
        match m.status() {
            MachineStatus::Running => m.step().expect("no requirement expected"),
            other => return other,
        }
    }
}

#[test]
fn stop_exits_ok() {
    let mut m = machine(vec![0x00], 100);
    assert!(matches!(run_to_exit(&mut m), MachineStatus::ExitedOk));
}

#[test]
fn empty_code_exits_ok() {
    let mut m = machine(vec![], 100);
    assert!(matches!(run_to_exit(&mut m), MachineStatus::ExitedOk));
}

#[test]
fn invalid_opcode_exits_err() {
    let mut m = machine(vec![0xfe], 100);
    assert!(matches!(
        run_to_exit(&mut m),
        MachineStatus::ExitedErr(OnChainError::InvalidOpcode)
    ));
}

#[test]
fn addition_on_the_stack() {
    let mut m = machine(vec![0x60, 0x02, 0x60, 0x03, 0x01, 0x00], 100);
    assert!(matches!(run_to_exit(&mut m), MachineStatus::ExitedOk));
    assert_eq!(m.state().stack.peek(0).unwrap(), w(5));
}

#[test]
fn subtraction_takes_top_minus_second() {
    let mut m = machine(vec![0x60, 0x02, 0x60, 0x07, 0x03, 0x00], 100);
    assert!(matches!(run_to_exit(&mut m), MachineStatus::ExitedOk));
    assert_eq!(m.state().stack.peek(0).unwrap(), w(5));
}

#[test]
fn dup_and_swap() {
    let mut m = machine(vec![0x60, 0x01, 0x60, 0x02, 0x81, 0x00], 100);
    run_to_exit(&mut m);
    assert_eq!(m.state().stack.peek(0).unwrap(), w(1));
    assert_eq!(m.state().stack.len(), 3);

    let mut m2 = machine(vec![0x60, 0x01, 0x60, 0x02, 0x90, 0x00], 100);
    run_to_exit(&mut m2);
    assert_eq!(m2.state().stack.peek(0).unwrap(), w(1));
    assert_eq!(m2.state().stack.peek(1).unwrap(), w(2));
}

#[test]
fn jump_to_marker_is_taken() {
    let mut m = machine(vec![0x60, 0x04, 0x56, 0xfe, 0x5b, 0x00], 100);
    assert!(matches!(run_to_exit(&mut m), MachineStatus::ExitedOk));
}

#[test]
fn jump_to_non_marker_fails() {
    let mut m = machine(vec![0x60, 0x01, 0x56], 100);
    assert!(matches!(
        run_to_exit(&mut m),
        MachineStatus::ExitedErr(OnChainError::BadJumpDest)
    ));
}

#[test]
fn jump_into_push_immediate_fails_even_on_marker_value() {
    // Offset 4 holds the marker's byte value, but as immediate data of
    // the push at offset 3.
    let mut m = machine(vec![0x60, 0x04, 0x56, 0x60, 0x5b, 0x00], 100);
    assert!(matches!(
        run_to_exit(&mut m),
        MachineStatus::ExitedErr(OnChainError::BadJumpDest)
    ));
}

#[test]
fn conditional_jump_taken_and_not_taken() {
    // Condition one: jumps over the invalid byte.
    let mut taken = machine(vec![0x60, 0x01, 0x60, 0x07, 0x57, 0xfe, 0xfe, 0x5b, 0x00], 100);
    assert!(matches!(run_to_exit(&mut taken), MachineStatus::ExitedOk));
    // Condition zero: falls through into the invalid byte.
    let mut skipped = machine(vec![0x60, 0x00, 0x60, 0x07, 0x57, 0xfe, 0xfe, 0x5b, 0x00], 100);
    assert!(matches!(
        run_to_exit(&mut skipped),
        MachineStatus::ExitedErr(OnChainError::InvalidOpcode)
    ));
}

#[test]
fn out_of_gas_leaves_the_effect_unexecuted() {
    // PUSH1 1, PUSH1 0, MSTORE with gas for the pushes only.
    let mut m = machine(vec![0x60, 0x01, 0x60, 0x00, 0x52, 0x00], 7);
    let status = run_to_exit(&mut m);
    assert!(matches!(status, MachineStatus::ExitedErr(OnChainError::EmptyGas)));
    // The store never ran: memory untouched, operands still stacked.
    assert_eq!(m.state().memory.len(), 0);
    assert_eq!(m.state().stack.len(), 2);
    assert_eq!(m.state().used_gas, 6);
}

#[test]
fn balance_requires_commitment_then_reads_it() {
    let mut m = machine(vec![0x60, 0x05, 0x31, 0x00], 100);
    m.step().unwrap();
    // The balance fact is missing: the step signals it and changes nothing.
    let used_before = m.state().used_gas;
    let err = m.step().unwrap_err();
    assert_eq!(err, RequireError::Account(Address::from_u64(5)));
    assert!(matches!(m.status(), MachineStatus::Running));
    assert_eq!(m.state().used_gas, used_before);
    assert_eq!(m.state().stack.len(), 1);
    assert_eq!(m.state().stack.peek(0).unwrap(), w(5));
    // Committing the fact lets the retry proceed to the exact value.
    m.commit_account(AccountCommitment::Full {
        address: Address::from_u64(5),
        balance: w(1234),
        nonce: w(0),
        code: vec![],
    })
    .unwrap();
    m.step().unwrap();
    assert_eq!(m.state().stack.peek(0).unwrap(), w(1234));
    assert!(matches!(run_to_exit(&mut m), MachineStatus::ExitedOk));
}

#[test]
fn replay_after_commit_matches_a_prepared_run() {
    // Run with commit-on-demand.
    let mut a = machine(vec![0x60, 0x05, 0x31, 0x00], 100);
    a.step().unwrap();
    a.step().unwrap_err();
    a.commit_account(AccountCommitment::Full {
        address: Address::from_u64(5),
        balance: w(77),
        nonce: w(0),
        code: vec![],
    })
    .unwrap();
    let status_a = run_to_exit(&mut a);
    // Run with the fact present from the start.
    let mut b = machine(vec![0x60, 0x05, 0x31, 0x00], 100);
    b.commit_account(AccountCommitment::Full {
        address: Address::from_u64(5),
        balance: w(77),
        nonce: w(0),
        code: vec![],
    })
    .unwrap();
    let status_b = run_to_exit(&mut b);
    assert!(matches!(status_a, MachineStatus::ExitedOk));
    assert!(matches!(status_b, MachineStatus::ExitedOk));
    assert_eq!(a.state().stack.peek(0).unwrap(), b.state().stack.peek(0).unwrap());
    assert_eq!(a.state().used_gas, b.state().used_gas);
}

#[test]
fn counting_loop_completes_with_enough_gas() {
    // Decrement a counter of three until zero.
    let code = vec![0x60, 0x03, 0x5b, 0x60, 0x01, 0x90, 0x03, 0x80, 0x60, 0x02, 0x57, 0x00];
    let mut m = machine(code, 100);
    assert!(matches!(run_to_exit(&mut m), MachineStatus::ExitedOk));
    assert_eq!(m.state().stack.peek(0).unwrap(), w(0));
}

#[test]
fn counting_loop_runs_out_of_gas_partway() {
    let code = vec![0x60, 0x03, 0x5b, 0x60, 0x01, 0x90, 0x03, 0x80, 0x60, 0x02, 0x57, 0x00];
    let mut m = machine(code, 60);
    assert!(matches!(
        run_to_exit(&mut m),
        MachineStatus::ExitedErr(OnChainError::EmptyGas)
    ));
    assert!(m.state().used_gas <= 60);
}

#[test]
fn precompiled_identity_bypasses_the_cursor() {
    let context = ctx_at(4, vec![0xfe], vec![9, 8, 7], 100);
    let mut m: Machine<DefaultPatch> = Machine::new(context, header(), 0);
    m.step().unwrap();
    assert!(matches!(m.status(), MachineStatus::ExitedOk));
    assert_eq!(m.state().out, vec![9, 8, 7]);
    assert_eq!(m.state().used_gas, 18);
}

#[test]
fn disabled_instruction_exits_not_supported() {
    let code = vec![0x60, 0x00, 0x60, 0x00, 0x60, 0x00, 0xf0];
    let context = ctx_at(0x100, code, Vec::new(), 50000);
    let mut m: Machine<EmbeddedPatch> = Machine::new(context, header(), 0);
    loop {
        match m.status() {
            MachineStatus::Running => m.step().unwrap(),
            MachineStatus::ExitedNotSupported(e) => {
                assert_eq!(e, NotSupportedError::OpcodeDisabled);
                break;
            },
            other => panic!("unexpected status {:?}", matches!(other, MachineStatus::ExitedOk)),
        }
    }
}

#[test]
fn derive_snapshots_the_parent() {
    let mut parent = machine(vec![0x00], 100);
    parent
        .commit_account(AccountCommitment::Full {
            address: Address::from_u64(5),
            balance: w(1234),
            nonce: w(0),
            code: vec![],
        })
        .unwrap();
    let child = parent.derive(ctx_at(0x400, vec![0x00], Vec::new(), 50));
    assert_eq!(child.state().depth, 1);
    assert_eq!(child.state().stack.len(), 0);
    assert_eq!(child.state().memory.len(), 0);
    assert_eq!(child.state().used_gas, 0);
    // The committed facts were copied by value.
    assert_eq!(
        child.state().account_state.balance(&Address::from_u64(5)).unwrap(),
        w(1234)
    );
    // A later parent commitment does not reach the child.
    parent
        .commit_account(AccountCommitment::Nonexist(Address::from_u64(6)))
        .unwrap();
    assert_eq!(
        child.state().account_state.balance(&Address::from_u64(6)),
        Err(RequireError::Account(Address::from_u64(6)))
    );
    assert_eq!(
        parent.state().account_state.balance(&Address::from_u64(6)).unwrap(),
        w(0)
    );
}

#[test]
fn memory_cost_matches_the_formula_at_the_baseline() {
    // One word touched: cost one, memory gas three.
    let mut m = machine(vec![0x60, 0x2a, 0x60, 0x00, 0x52, 0x00], 100);
    assert!(matches!(run_to_exit(&mut m), MachineStatus::ExitedOk));
    assert_eq!(m.state().memory_cost, 1);
    assert_eq!(m.state().memory_gas(), 3);
    assert_eq!(m.state().total_used_gas(), 12);
}

#[test]
fn memory_cost_is_quadratic_for_far_offsets() {
    // MLOAD at offset 1,000,000: 31,251 words.
    let mut m = machine(vec![0x62, 0x0f, 0x42, 0x40, 0x51, 0x00], 3_000_000);
    assert!(matches!(run_to_exit(&mut m), MachineStatus::ExitedOk));
    assert_eq!(m.state().memory_cost, 31251);
    // 3 * 31251 + 31251 * 31251 / 512
    assert_eq!(m.state().memory_gas(), 93753 + 31251u64 * 31251 / 512);
    assert_eq!(m.state().memory_gas(), 2001223);
}

#[test]
fn memory_cost_never_decreases() {
    let code = vec![0x60, 0x01, 0x60, 0x40, 0x52, 0x60, 0x02, 0x60, 0x00, 0x52, 0x00];
    let mut m = machine(code, 1000);
    assert!(matches!(run_to_exit(&mut m), MachineStatus::ExitedOk));
    // The second store at offset zero does not shrink the cost of three
    // words reached by the first store at offset 64.
    assert_eq!(m.state().memory_cost, 3);
}

#[test]
fn storage_write_clears_and_refunds() {
    let mut m = machine(
        vec![0x60, 0x00, 0x60, 0x01, 0x55, 0x60, 0x01, 0x54, 0x00],
        10000,
    );
    m.commit_account(AccountCommitment::Storage {
        address: Address::from_u64(0x100),
        index: w(1),
        value: w(7),
    })
    .unwrap();
    assert!(matches!(run_to_exit(&mut m), MachineStatus::ExitedOk));
    // Clearing a non-zero slot grants the refund; the read sees the write.
    assert_eq!(m.state().refunded_gas, 15000);
    assert_eq!(m.state().stack.peek(0).unwrap(), w(0));
}

#[test]
fn return_hands_back_memory_contents() {
    let code = vec![0x60, 0x2a, 0x60, 0x00, 0x52, 0x60, 0x20, 0x60, 0x00, 0xf3];
    let mut m = machine(code, 1000);
    assert!(matches!(run_to_exit(&mut m), MachineStatus::ExitedOk));
    assert_eq!(m.state().out.len(), 32);
    assert_eq!(m.state().out, w(42).bytes.to_vec());
}

#[test]
fn blockhash_requires_commitment_then_reads_it() {
    let mut m = machine(vec![0x60, 0x05, 0x40, 0x00], 100);
    m.step().unwrap();
    assert_eq!(m.step().unwrap_err(), RequireError::Blockhash(w(5)));
    m.commit_blockhash(w(5), w(0xabcdef)).unwrap();
    assert!(matches!(run_to_exit(&mut m), MachineStatus::ExitedOk));
    assert_eq!(m.state().stack.peek(0).unwrap(), w(0xabcdef));
}

#[test]
fn log_appends_an_entry() {
    let mut m = machine(vec![0x60, 0x00, 0x60, 0x00, 0xa0, 0x00], 1000);
    assert!(matches!(run_to_exit(&mut m), MachineStatus::ExitedOk));
    assert_eq!(m.state().logs.len(), 1);
    assert_eq!(m.state().logs[0].address, Address::from_u64(0x100));
    assert_eq!(m.state().logs[0].topics.len(), 0);
    assert_eq!(m.state().logs[0].data.len(), 0);
}

#[test]
fn call_invokes_a_sub_machine() {
    // out_len, out_off, in_len, in_off, value, to, gas -- gas on top.
    let code = vec![
        0x60, 0x00, 0x60, 0x00, 0x60, 0x00, 0x60, 0x00, 0x60, 0x00, 0x60, 0x77, 0x60, 0x0a,
        0xf1,
    ];
    let mut m = machine(code, 1000);
    m.commit_account(AccountCommitment::Code {
        address: Address::from_u64(0x77),
        code: vec![0x00],
    })
    .unwrap();
    loop {
        match m.status() {
            MachineStatus::Running => m.step().unwrap(),
            MachineStatus::InvokeCall(child, _range) => {
                assert_eq!(child.address, Address::from_u64(0x77));
                assert_eq!(child.caller, Address::from_u64(0x100));
                assert_eq!(child.code, vec![0x00]);
                assert_eq!(child.gas_limit, 10);
                break;
            },
            _ => panic!("expected a call invocation"),
        }
    }
}

#[test]
fn create_invokes_a_sub_machine() {
    // len, off, value -- value on top.
    let code = vec![0x60, 0x00, 0x60, 0x00, 0x60, 0x00, 0xf0];
    let mut m = machine(code, 50000);
    loop {
        match m.status() {
            MachineStatus::Running => m.step().unwrap(),
            MachineStatus::InvokeCreate(child) => {
                assert_eq!(child.caller, Address::from_u64(0x100));
                assert_eq!(child.value, w(0));
                assert_eq!(child.code.len(), 0);
                break;
            },
            _ => panic!("expected a creation invocation"),
        }
    }
}

#[test]
fn calldataload_pads_past_the_end() {
    let mut data = Vec::new();
    for i in 0..4u8 {
        data.push(i + 1);
    }
    let context = ctx_at(0x100, vec![0x60, 0x02, 0x35, 0x00], data, 100);
    let mut m: Machine<DefaultPatch> = Machine::new(context, header(), 0);
    assert!(matches!(run_to_exit(&mut m), MachineStatus::ExitedOk));
    let top = m.state().stack.peek(0).unwrap();
    // Bytes three and four land at the word's head; the rest is zero.
    assert_eq!(top.bytes[0], 3);
    assert_eq!(top.bytes[1], 4);
    for i in 2..32 {
        assert_eq!(top.bytes[i], 0);
    }
}

#[test]
fn environment_reads_push_frame_values() {
    // ADDRESS, CALLER, NUMBER, TIMESTAMP
    let mut m = machine(vec![0x30, 0x33, 0x43, 0x42, 0x00], 100);
    assert!(matches!(run_to_exit(&mut m), MachineStatus::ExitedOk));
    assert_eq!(m.state().stack.peek(0).unwrap(), w(100));
    assert_eq!(m.state().stack.peek(1).unwrap(), w(42));
    assert_eq!(m.state().stack.peek(2).unwrap(), w(0x200));
    assert_eq!(m.state().stack.peek(3).unwrap(), w(0x100));
}

#[test]
fn comparison_and_flag_words() {
    // 3 < 5, 3 > 5, 5 == 5, ISZERO 0
    let mut m = machine(
        vec![
            0x60, 0x05, 0x60, 0x03, 0x10, 0x60, 0x05, 0x60, 0x03, 0x11, 0x60, 0x05, 0x60, 0x05,
            0x14, 0x60, 0x00, 0x15, 0x00,
        ],
        1000,
    );
    assert!(matches!(run_to_exit(&mut m), MachineStatus::ExitedOk));
    assert_eq!(m.state().stack.peek(0).unwrap(), w(1));
    assert_eq!(m.state().stack.peek(1).unwrap(), w(1));
    assert_eq!(m.state().stack.peek(2).unwrap(), w(0));
    assert_eq!(m.state().stack.peek(3).unwrap(), w(1));
}

#[test]
fn division_and_remainder_by_zero_yield_zero() {
    let mut m = machine(
        vec![0x60, 0x00, 0x60, 0x2a, 0x04, 0x60, 0x00, 0x60, 0x2a, 0x06, 0x00],
        1000,
    );
    assert!(matches!(run_to_exit(&mut m), MachineStatus::ExitedOk));
    assert_eq!(m.state().stack.peek(0).unwrap(), w(0));
    assert_eq!(m.state().stack.peek(1).unwrap(), w(0));
}

#[test]
fn bitwise_operations_work_per_byte() {
    // 0xf0 AND 0x3c, 0xf0 OR 0x3c, 0xf0 XOR 0x3c
    let mut m = machine(
        vec![
            0x60, 0x3c, 0x60, 0xf0, 0x16, 0x60, 0x3c, 0x60, 0xf0, 0x17, 0x60, 0x3c, 0x60, 0xf0,
            0x18, 0x00,
        ],
        1000,
    );
    assert!(matches!(run_to_exit(&mut m), MachineStatus::ExitedOk));
    assert_eq!(m.state().stack.peek(0).unwrap(), w(0xcc));
    assert_eq!(m.state().stack.peek(1).unwrap(), w(0xfc));
    assert_eq!(m.state().stack.peek(2).unwrap(), w(0x30));
}

#[test]
fn byte_picks_big_endian_positions() {
    // BYTE(31, 0xab) is the low byte; BYTE(0, 0xab) is the high byte.
    let mut m = machine(
        vec![0x60, 0xab, 0x60, 0x1f, 0x1a, 0x60, 0xab, 0x60, 0x00, 0x1a, 0x00],
        1000,
    );
    assert!(matches!(run_to_exit(&mut m), MachineStatus::ExitedOk));
    assert_eq!(m.state().stack.peek(0).unwrap(), w(0));
    assert_eq!(m.state().stack.peek(1).unwrap(), w(0xab));
}

#[test]
fn counters_report_cursor_memory_and_gas() {
    // PC at offset 0, MSIZE before any touch, GAS after the reads.
    let mut m = machine(vec![0x58, 0x59, 0x5a, 0x00], 100);
    assert!(matches!(run_to_exit(&mut m), MachineStatus::ExitedOk));
    // Gas left after three base-cost reads.
    assert_eq!(m.state().stack.peek(0).unwrap(), w(100 - 6));
    assert_eq!(m.state().stack.peek(1).unwrap(), w(0));
    assert_eq!(m.state().stack.peek(2).unwrap(), w(0));
    assert_eq!(m.state().used_gas, 6);
}

#[test]
fn mstore8_writes_the_low_byte() {
    let mut m = machine(vec![0x61, 0xaa, 0xbb, 0x60, 0x05, 0x53, 0x00], 1000);
    assert!(matches!(run_to_exit(&mut m), MachineStatus::ExitedOk));
    assert_eq!(m.state().memory.len(), 32);
    let word = m.state().memory.read_word(0);
    assert_eq!(word.bytes[5], 0xbb);
}
