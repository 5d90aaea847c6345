//! Tracing of EVM execution: what a tracing inspector records and reports.
//!
//! The inspector computes what is worth logging; its caller reads the
//! interpreter and writes the log.

use crate::primitives::be_value;
use crate::text::{
    as_unsigned, decimal_digits, hex_digits, push_decimal, push_hex, push_signed_decimal,
    signed_decimal, unsigned_bits,
};
use vstd::prelude::*;
use vstd::string::StringExecFns;

verus! {

/// The mnemonic of an opcode, for the bytes that are opcodes.
pub uninterp spec fn opcode_mnemonic(opcode: u8) -> Option<Seq<char>>;

/// Looks an opcode up with `revm::bytecode::opcode::OpCode::new` and names it
/// with `OpCode::as_str`.
///
/// Trusted: that the result depends on the byte alone.
#[verifier::external_body]
fn opcode_name(opcode: u8) -> (r: Option<&'static str>)
    ensures
        r matches Some(name) ==> opcode_mnemonic(opcode) == Some(name@),
        r is None ==> opcode_mnemonic(opcode) is None,
{
    match revm::bytecode::opcode::OpCode::new(opcode) {
        Some(op) => Some(op.as_str()),
        None => None,
    }
}

/// Writes a 256-bit word, given most significant byte first, in decimal:
/// `alloy_primitives::U256::from_be_bytes`, then the number's `to_string`.
///
/// Trusted: that the text is the plain decimal notation of the number that
/// the bytes denote.
#[verifier::external_body]
fn word_decimal(word: &[u8; 32]) -> (r: String)
    ensures
        r@ == decimal_digits(be_value(word@)),
{
    alloy_primitives::U256::from_be_bytes(*word).to_string()
}

/// The text of the top `n` words of a stack, from the top down, in decimal
/// and separated by a comma and a space.
pub open spec fn spec_format_top(stack: Seq<[u8; 32]>, n: nat) -> Seq<char>
    decreases n,
{
    if n == 0 {
        Seq::empty()
    } else {
        let above = spec_format_top(stack, (n - 1) as nat);
        let word = decimal_digits(be_value(stack[stack.len() - n]@));
        if n == 1 {
            word
        } else {
            above + seq![',', ' '] + word
        }
    }
}

/// The name under which an opcode byte is traced.
pub open spec fn spec_op_name(mnemonic: Option<Seq<char>>) -> Seq<char> {
    match mnemonic {
        Some(name) => name,
        None => "UNKNOWN"@,
    }
}

/// What the interpreter shows before it takes a step.
#[derive(Clone, Copy, Debug, PartialEq, Eq, Structural)]
pub struct StepState {
    /// The depth of the call that is running.
    pub depth: usize,
    /// The program counter.
    pub pc: usize,
    /// The opcode about to run.
    pub opcode: u8,
    /// The gas that is left.
    pub gas_remaining: u64,
    /// The gas refunded so far.
    pub gas_refunded: i64,
    /// The size of the memory.
    pub memory_size: usize,
}

/// The line that traces one step, given the name of its opcode and the text
/// of the stack: the depth, the program counter, the remaining gas in
/// hexadecimal and in decimal, the opcode by name and by number, the
/// refunded gas in hexadecimal and in decimal, the stack, and the size of
/// the memory.
pub open spec fn spec_trace_line(at: StepState, op_name: Seq<char>, stack: Seq<char>) -> Seq<char> {
    "depth:"@ + decimal_digits(at.depth as nat) + ", PC:"@ + decimal_digits(at.pc as nat)
        + ", gas:0x"@ + hex_digits(at.gas_remaining as nat) + "("@ + decimal_digits(
        at.gas_remaining as nat,
    ) + "), OPCODE: "@ + op_name + ":("@ + decimal_digits(at.opcode as nat) + ") refund:0x"@
        + hex_digits(as_unsigned(at.gas_refunded)) + "("@ + signed_decimal(at.gas_refunded as int)
        + ") Stack:["@ + stack + "], Data size:"@ + decimal_digits(at.memory_size as nat)
}

/// What the end of a top-level call contributes to the trace.
#[derive(Clone, Copy, Debug, PartialEq, Eq, Structural)]
pub struct CallSummary {
    /// The gas limit with which the call started.
    pub gas_limit: u64,
    /// The gas that the call used up.
    pub gas_used: u64,
}

/// Records the gas limit of the top-level call while a transaction is traced.
#[derive(Debug)]
pub struct TracingInspector {
    call_gas_limit: u64,
}

impl Default for TracingInspector {
    fn default() -> (r: Self)
        ensures
            r.gas_limit() == 0,
    {
        TracingInspector::new()
    }
}

impl TracingInspector {
    /// The gas limit recorded at the start of the current top-level call.
    pub closed spec fn gas_limit(&self) -> u64 {
        self.call_gas_limit
    }

    /// A fresh inspector that has seen no call.
    pub fn new() -> (r: Self)
        ensures
            r.gas_limit() == 0,
    {
        TracingInspector { call_gas_limit: 0 }
    }

    /// The name under which an opcode is traced, given its mnemonic if it
    /// has one.
    pub fn op_name(mnemonic: Option<&'static str>) -> (r: &'static str)
        ensures
            r@ == spec_op_name(
                match mnemonic {
                    Some(name) => Some(name@),
                    None => None,
                },
            ),
    {
        match mnemonic {
            Some(name) => name,
            None => "UNKNOWN",
        }
    }

    /// The stack in decimal, from the top down.
    pub fn format_stack(stack: &[[u8; 32]]) -> (r: String)
        ensures
            r@ == spec_format_top(stack@, stack@.len()),
    {
        proof {
            reveal_strlit(", ");
            assert(", "@ =~= seq![',', ' ']);
        }
        let mut result = String::new();
        let n = stack.len();
        let mut i: usize = 0;
        while i < n
            invariant
                i <= n,
                n == stack@.len(),
                result@ == spec_format_top(stack@, i as nat),
                ", "@ == seq![',', ' '],
            decreases n - i,
        {
            if i > 0 {
                result.append(", ");
            }
            let text = word_decimal(&stack[n - 1 - i]);
            result.append(text.as_str());
            proof {
                if i == 0 {
                    assert(result@ =~= decimal_digits(be_value(stack@[n - 1]@)));
                }
            }
            i = i + 1;
        }
        result
    }

    /// The line that traces one step, given the name of its opcode and the
    /// text of the stack.
    pub fn trace_line(at: &StepState, op_name: &str, stack: &str) -> (r: String)
        ensures
            r@ == spec_trace_line(*at, op_name@, stack@),
    {
        let mut line = String::from_str("depth:");
        push_decimal(&mut line, at.depth as u64);
        line.append(", PC:");
        push_decimal(&mut line, at.pc as u64);
        line.append(", gas:0x");
        push_hex(&mut line, at.gas_remaining);
        line.append("(");
        push_decimal(&mut line, at.gas_remaining);
        line.append("), OPCODE: ");
        line.append(op_name);
        line.append(":(");
        push_decimal(&mut line, at.opcode as u64);
        line.append(") refund:0x");
        push_hex(&mut line, unsigned_bits(at.gas_refunded));
        line.append("(");
        push_signed_decimal(&mut line, at.gas_refunded);
        line.append(") Stack:[");
        line.append(stack);
        line.append("], Data size:");
        push_decimal(&mut line, at.memory_size as u64);
        line
    }

    /// Takes one interpreter step: names the opcode, writes out the stack,
    /// and returns the line that traces the step.
    pub fn step(&self, at: &StepState, stack: &[[u8; 32]]) -> (r: String)
        ensures
            r@ == spec_trace_line(
                *at,
                spec_op_name(opcode_mnemonic(at.opcode)),
                spec_format_top(stack@, stack@.len()),
            ),
    {
        let name = TracingInspector::op_name(opcode_name(at.opcode));
        let stack_text = TracingInspector::format_stack(stack);
        TracingInspector::trace_line(at, name, stack_text.as_str())
    }

    /// Takes the start of a call at the given depth. A call at depth zero is
    /// the top-level call of a transaction: its gas limit is recorded, and
    /// the answer says that a transaction has started.
    pub fn call(&mut self, depth: usize, gas_limit: u64) -> (started: bool)
        ensures
            started == (depth == 0),
            final(self).gas_limit() == if depth == 0 {
                gas_limit
            } else {
                old(self).gas_limit()
            },
    {
        if depth == 0 {
            self.call_gas_limit = gas_limit;
            true
        } else {
            false
        }
    }

    /// Takes the end of a call at the given depth. For the top-level call
    /// the answer holds the recorded gas limit and the gas used: the limit
    /// less what remains, and zero where more remains than the limit.
    pub fn call_end(&self, depth: usize, gas_remaining: u64) -> (r: Option<CallSummary>)
        ensures
            r == if depth == 0 {
                Some(
                    CallSummary {
                        gas_limit: self.gas_limit(),
                        gas_used: if gas_remaining <= self.gas_limit() {
                            (self.gas_limit() - gas_remaining) as u64
                        } else {
                            0
                        },
                    },
                )
            } else {
                None
            },
    {
        if depth == 0 {
            let gas_used = if gas_remaining <= self.call_gas_limit {
                self.call_gas_limit - gas_remaining
            } else {
                0
            };
            Some(CallSummary { gas_limit: self.call_gas_limit, gas_used })
        } else {
            None
        }
    }
}

} // verus!
