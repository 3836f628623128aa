//! The input-to-state replacement mutator: puts the value seen on one side of
//! a logged comparison where the input holds the value of the other side.
//!
//! The log is that of a tracing execution of the very input that is mutated.
//! One invocation makes one pass: it replaces at most one occurrence.

use libafl::inputs::BytesInput;
use libafl::mutators::I2SRandReplace;
use libafl::mutators::Mutator;
use crate::replacement::Operands::Byte;
use crate::replacement::Operands::Dword;
use crate::replacement::Operands::Qword;
use crate::replacement::Operands::Word;
use libafl::observers::CmpValues::U16;
use libafl::observers::CmpValues::U32;
use libafl::observers::CmpValues::U64;
use libafl::observers::CmpValues::U8;
use libafl::observers::CmpValuesMetadata;
use libafl::state::HasRand;
use libafl::state::NopState;
use libafl::HasMetadata;
use libafl_bolts::rands::Rand;
use vstd::prelude::*;

verus! {

/// The two operands observed at a comparison, by their width. The flag says
/// that the first operand is a constant of the target: the input can then
/// not have supplied it, and it is never looked for in the input.
#[derive(Clone, Copy, Debug, PartialEq, Eq, Structural)]
pub enum Operands {
    /// A comparison of single bytes.
    Byte(u8, u8, bool),
    /// A comparison of 16-bit values.
    Word(u16, u16, bool),
    /// A comparison of 32-bit values.
    Dword(u32, u32, bool),
    /// A comparison of 64-bit values.
    Qword(u64, u64, bool),
}

/// One entry of the comparison log.
#[derive(Clone, Copy, Debug, PartialEq, Eq, Structural)]
pub struct LoggedComparison {
    /// The comparison instruction at which the operands were observed.
    pub site: u64,
    /// The operands observed there.
    pub operands: Operands,
}

impl Operands {
    /// The operands as plain values: the width in bytes, both sides, and
    /// whether the first side is a constant.
    pub open spec fn plain(self) -> (u8, u64, u64, bool) {
        match self {
            Operands::Byte(a, b, fixed) => (1u8, a as u64, b as u64, fixed),
            Operands::Word(a, b, fixed) => (2u8, a as u64, b as u64, fixed),
            Operands::Dword(a, b, fixed) => (4u8, a as u64, b as u64, fixed),
            Operands::Qword(a, b, fixed) => (8u8, a, b, fixed),
        }
    }
}

/// The operand pairs of a log, in order, as plain numbers.
pub open spec fn operand_pairs(log: Seq<LoggedComparison>) -> Seq<(u8, u64, u64, bool)> {
    Seq::new(log.len(), |i: int| log[i].operands.plain())
}

/// The weight of byte number `k` of a number, counting from the low end.
pub open spec fn place_value(k: int) -> int {
    if k == 0 {
        0x1
    } else if k == 1 {
        0x100
    } else if k == 2 {
        0x1_0000
    } else if k == 3 {
        0x100_0000
    } else if k == 4 {
        0x1_0000_0000
    } else if k == 5 {
        0x100_0000_0000
    } else if k == 6 {
        0x1_0000_0000_0000
    } else {
        0x100_0000_0000_0000
    }
}

/// The `width` low bytes of a number, the lowest first.
pub open spec fn low_first(value: u64, width: int) -> Seq<u8> {
    Seq::new(width as nat, |k: int| ((value as int / place_value(k)) % 256) as u8)
}

/// The `width` low bytes of a number, the highest first.
pub open spec fn high_first(value: u64, width: int) -> Seq<u8> {
    Seq::new(width as nat, |k: int| ((value as int / place_value(width - 1 - k)) % 256) as u8)
}

/// `b` is `a` with the bytes `found`, which `a` holds at some place,
/// overwritten by the bytes `put`.
pub open spec fn swaps(a: Seq<u8>, b: Seq<u8>, found: Seq<u8>, put: Seq<u8>) -> bool {
    exists|at: int|
        0 <= at && at + found.len() <= a.len() && #[trigger] a.subrange(at, at + found.len())
            == found && b == a.subrange(0, at) + put + a.subrange(
            at + found.len(),
            a.len() as int,
        )
}

/// `b` is `a` with one operand of the pair, in either byte order, replaced
/// by the other operand in the same byte order. A first operand that is a
/// constant is put in place of the second, never the other way round.
pub open spec fn replacement_by(a: Seq<u8>, b: Seq<u8>, pair: (u8, u64, u64, bool)) -> bool {
    let width = pair.0 as int;
    ||| !pair.3 && swaps(a, b, low_first(pair.1, width), low_first(pair.2, width))
    ||| !pair.3 && swaps(a, b, high_first(pair.1, width), high_first(pair.2, width))
    ||| swaps(a, b, low_first(pair.2, width), low_first(pair.1, width))
    ||| swaps(a, b, high_first(pair.2, width), high_first(pair.1, width))
}

/// `b` is `a` itself, or `a` after one replacement by one of the pairs.
pub open spec fn replacement_of(a: Seq<u8>, b: Seq<u8>, pairs: Seq<(u8, u64, u64, bool)>) -> bool {
    b == a || exists|i: int| 0 <= i < pairs.len() && replacement_by(a, b, #[trigger] pairs[i])
}

/// What `I2SRandReplace::mutate` of `libafl` makes of `input` when its state
/// holds the operand pairs `pairs`, each number handed over so that its bytes
/// in memory are the low ones first, and its generator was seeded with
/// `seed`.
pub uninterp spec fn replaced(input: Seq<u8>, pairs: Seq<(u8, u64, u64, bool)>, seed: u64) -> Seq<
    u8,
>;

/// `I2SRandReplace::mutate` of `libafl`. It picks one logged pair and a
/// position, looks from there on for the bytes of either operand, in either
/// byte order, and overwrites the first match with the other operand in the
/// same byte order; a first operand that is flagged as a constant is not
/// looked for. It writes in place, so the length stays; with an empty input
/// or an empty log it does nothing. The numbers are handed over through
/// `to_le`, so that the bytes it reads of them are the same on every host.
#[verifier::external_body]
fn i2s_rand_replace(input: &Vec<u8>, log: &Vec<LoggedComparison>, seed: u64) -> (out: Vec<u8>)
    ensures
        out@ == replaced(input@, operand_pairs(log@), seed),
        replacement_of(input@, out@, operand_pairs(log@)),
        out@.len() == input@.len(),
        input@.len() == 0 || log@.len() == 0 ==> out@ == input@,
{
    let mut state = NopState::<BytesInput>::new();
    state.rand_mut().set_seed(seed);
    state.add_metadata(CmpValuesMetadata { list: log.iter().map(|entry| match entry.operands {
        Byte(a, b, fixed) => U8((a, b, fixed)),
        Word(a, b, fixed) => U16((a.to_le(), b.to_le(), fixed)),
        Dword(a, b, fixed) => U32((a.to_le(), b.to_le(), fixed)),
        Qword(a, b, fixed) => U64((a.to_le(), b.to_le(), fixed)),
    }).collect() });
    let mut candidate = BytesInput::new(input.clone());
    let _ = I2SRandReplace.mutate(&mut state, &mut candidate);
    candidate.into_inner()
}

/// Applies the replacement mutator once. The seed fixes which logged
/// comparison and which part of the input it looks at. The result is the
/// input itself, or the input with one operand of a logged comparison
/// replaced by the other; it has the length of the input. Where there is
/// nothing to go by, an empty input or an empty log, the input comes back
/// unchanged.
pub fn input_to_state(input: &Vec<u8>, log: &Vec<LoggedComparison>, seed: u64) -> (out: Vec<u8>)
    ensures
        out@ == replaced(input@, operand_pairs(log@), seed),
        replacement_of(input@, out@, operand_pairs(log@)),
        out@.len() == input@.len(),
        input@.len() == 0 || log@.len() == 0 ==> out@ == input@,
{
    i2s_rand_replace(input, log, seed)
}

} // verus!
