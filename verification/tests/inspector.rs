use fault_proof::inspector::{CallSummary, StepState, TracingInspector};
use fault_proof::text::{magnitude, push_decimal, push_hex, push_signed_decimal, unsigned_bits};

fn word(n: u64) -> [u8; 32] {
    let mut bytes = [0u8; 32];
    bytes[24..].copy_from_slice(&n.to_be_bytes());
    bytes
}

#[test]
fn new_inspector_has_seen_no_call() {
    let inspector = TracingInspector::new();
    assert_eq!(
        inspector.call_end(0, 0),
        Some(CallSummary { gas_limit: 0, gas_used: 0 })
    );
}

#[test]
fn top_level_call_records_its_gas_limit() {
    let mut inspector = TracingInspector::new();
    assert!(inspector.call(0, 100_000));
    assert_eq!(
        inspector.call_end(0, 30_000),
        Some(CallSummary { gas_limit: 100_000, gas_used: 70_000 })
    );
    assert_eq!(
        inspector.call_end(0, 100_000),
        Some(CallSummary { gas_limit: 100_000, gas_used: 0 })
    );
}

#[test]
fn nested_calls_change_nothing() {
    let mut inspector = TracingInspector::new();
    assert!(inspector.call(0, 100_000));
    assert!(!inspector.call(1, 5));
    assert!(!inspector.call(usize::MAX, 6));
    assert_eq!(inspector.call_end(1, 0), None);
    assert_eq!(
        inspector.call_end(0, 1),
        Some(CallSummary { gas_limit: 100_000, gas_used: 99_999 })
    );
}

#[test]
fn gas_used_never_goes_below_zero() {
    let mut inspector = TracingInspector::new();
    inspector.call(0, 10);
    assert_eq!(inspector.call_end(0, 11), Some(CallSummary { gas_limit: 10, gas_used: 0 }));
    assert_eq!(inspector.call_end(0, u64::MAX), Some(CallSummary { gas_limit: 10, gas_used: 0 }));
    inspector.call(0, u64::MAX);
    assert_eq!(
        inspector.call_end(0, 0),
        Some(CallSummary { gas_limit: u64::MAX, gas_used: u64::MAX })
    );
}

#[test]
fn stack_is_written_from_the_top_down() {
    assert_eq!(TracingInspector::format_stack(&[]), "");
    assert_eq!(TracingInspector::format_stack(&[word(0)]), "0");
    assert_eq!(TracingInspector::format_stack(&[word(1), word(20), word(300)]), "300, 20, 1");
}

#[test]
fn stack_words_are_written_in_decimal() {
    let mut big = [0u8; 32];
    big[0] = 1;
    let two_pow_248 =
        "452312848583266388373324160190187140051835877600158453279131187530910662656";
    assert_eq!(TracingInspector::format_stack(&[big]), two_pow_248);
    let max = "115792089237316195423570985008687907853269984665640564039457584007913129639935";
    assert_eq!(
        TracingInspector::format_stack(&[word(u64::MAX), [0xff; 32]]),
        format!("{max}, 18446744073709551615")
    );
}

fn state(opcode: u8) -> StepState {
    StepState {
        depth: 1,
        pc: 2,
        opcode,
        gas_remaining: 255,
        gas_refunded: -1,
        memory_size: 64,
    }
}

fn expected_line(at: &StepState, op_name: &str, stack: &str) -> String {
    format!(
        "depth:{}, PC:{}, gas:{:#x}({}), OPCODE: {}:({}) refund:{:#x}({}) Stack:[{}], Data size:{}",
        at.depth,
        at.pc,
        at.gas_remaining,
        at.gas_remaining,
        op_name,
        at.opcode,
        at.gas_refunded,
        at.gas_refunded,
        stack,
        at.memory_size
    )
}

#[test]
fn step_traces_one_line() {
    let inspector = TracingInspector::new();
    assert_eq!(
        inspector.step(&state(0x01), &[word(2), word(3)]),
        "depth:1, PC:2, gas:0xff(255), OPCODE: ADD:(1) refund:0xffffffffffffffff(-1) \
         Stack:[3, 2], Data size:64"
    );
}

#[test]
fn step_names_the_opcode() {
    let inspector = TracingInspector::new();
    for (opcode, name) in [(0x00, "STOP"), (0x01, "ADD"), (0x60, "PUSH1"), (0xf3, "RETURN")] {
        let at = state(opcode);
        assert_eq!(inspector.step(&at, &[]), expected_line(&at, name, ""));
    }
}

#[test]
fn unassigned_opcode_is_unknown() {
    let inspector = TracingInspector::new();
    let at = state(0x0c);
    assert_eq!(inspector.step(&at, &[word(1)]), expected_line(&at, "UNKNOWN", "1"));
    assert_eq!(TracingInspector::op_name(None), "UNKNOWN");
    assert_eq!(TracingInspector::op_name(Some("ADD")), "ADD");
}

#[test]
fn trace_line_at_the_edges_of_the_number_ranges() {
    let states = [
        StepState {
            depth: 0,
            pc: 0,
            opcode: 0,
            gas_remaining: 0,
            gas_refunded: 0,
            memory_size: 0,
        },
        StepState {
            depth: usize::MAX,
            pc: usize::MAX,
            opcode: 255,
            gas_remaining: u64::MAX,
            gas_refunded: i64::MAX,
            memory_size: usize::MAX,
        },
        StepState {
            depth: 1024,
            pc: 9,
            opcode: 16,
            gas_remaining: 0x1234_5678_9abc_def0,
            gas_refunded: i64::MIN,
            memory_size: 10,
        },
    ];
    for at in states {
        assert_eq!(
            TracingInspector::trace_line(&at, "NAME", "1, 2"),
            expected_line(&at, "NAME", "1, 2")
        );
    }
}

#[test]
fn numbers_are_written_in_decimal_and_hexadecimal() {
    for n in [0u64, 1, 9, 10, 15, 16, 99, 100, 255, 256, 4096, 1 << 63, u64::MAX] {
        let mut decimal = String::from("x");
        push_decimal(&mut decimal, n);
        assert_eq!(decimal, format!("x{n}"));
        let mut hex = String::from("x");
        push_hex(&mut hex, n);
        assert_eq!(hex, format!("x{n:x}"));
    }
    for n in [0i64, 1, -1, 10, -10, i64::MAX, i64::MIN, i64::MIN + 1] {
        let mut decimal = String::new();
        push_signed_decimal(&mut decimal, n);
        assert_eq!(decimal, format!("{n}"));
        assert_eq!(magnitude(n), n.unsigned_abs());
        assert_eq!(unsigned_bits(n), n as u64);
    }
}
