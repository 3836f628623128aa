//! The primitive mutation operators: bit and byte flips, arithmetic, block
//! insertion, deletion and duplication, and the dictionary splice.
//!
//! The operators themselves are those of `libafl`. Each is called with a
//! seed that fixes its random choices, and each has a relation here that
//! holds between an input and whatever the operator can make of it.

use crate::tokens::token_list;
use crate::tokens::TokenDictionary;
use libafl::inputs::BytesInput;
use libafl::mutators::BitFlipMutator;
use libafl::mutators::ByteAddMutator;
use libafl::mutators::ByteFlipMutator;
use libafl::mutators::BytesDeleteMutator;
use libafl::mutators::BytesInsertCopyMutator;
use libafl::mutators::BytesRandInsertMutator;
use libafl::mutators::Mutator;
use libafl::mutators::TokenInsert;
use libafl::mutators::Tokens;
use libafl::state::HasRand;
use libafl::state::NopState;
use libafl::HasMetadata;
use libafl_bolts::rands::Rand;
use vstd::prelude::*;

verus! {

/// The kinds of primitive mutation.
#[derive(Clone, Copy, Debug, PartialEq, Eq, Structural)]
pub enum Operator {
    /// Flips one bit.
    BitFlip,
    /// Inverts one byte.
    ByteFlip,
    /// Adds a small number to one byte, or subtracts it, wrapping around.
    Arithmetic,
    /// Inserts a run of one repeated byte.
    BlockInsert,
    /// Removes a block.
    BlockDelete,
    /// Inserts a copy of a block of the input.
    BlockDuplicate,
    /// Inserts a dictionary token.
    TokenSplice,
}

/// The number of operators.
pub const OPERATOR_COUNT: usize = 7;

/// The largest number the arithmetic operator adds or subtracts.
pub const ARITHMETIC_REACH: u8 = 35;

/// The longest block that is inserted or duplicated at once.
pub const BLOCK_REACH: usize = 16;

/// The length from which on no operator makes an input longer, and beyond
/// which none makes one grow.
pub const SIZE_LIMIT: usize = 16384;

/// The byte with only bit `bit` set.
pub open spec fn bit_mask(bit: int) -> u8 {
    if bit == 0 {
        0x01
    } else if bit == 1 {
        0x02
    } else if bit == 2 {
        0x04
    } else if bit == 3 {
        0x08
    } else if bit == 4 {
        0x10
    } else if bit == 5 {
        0x20
    } else if bit == 6 {
        0x40
    } else {
        0x80
    }
}

/// A byte moved by `delta`, wrapping around at 256.
pub open spec fn nudged(byte: u8, delta: int) -> u8 {
    ((byte as int + delta) % 256) as u8
}

/// `count` times the same byte.
pub open spec fn run(count: int, byte: u8) -> Seq<u8> {
    Seq::new(count as nat, |k: int| byte)
}

/// The input with `piece` inserted in front of position `at`.
pub open spec fn spliced(a: Seq<u8>, at: int, piece: Seq<u8>) -> Seq<u8> {
    a.subrange(0, at) + piece + a.subrange(at, a.len() as int)
}

/// The input without the bytes from `from` up to `to`.
pub open spec fn cut(a: Seq<u8>, from: int, to: int) -> Seq<u8> {
    a.subrange(0, from) + a.subrange(to, a.len() as int)
}

/// `b` is `a` with one bit flipped.
pub open spec fn bit_flip_of(a: Seq<u8>, b: Seq<u8>) -> bool {
    exists|at: int, bit: int|
        0 <= at < a.len() && 0 <= bit < 8 && b == #[trigger] a.update(at, a[at] ^ bit_mask(bit))
}

/// `b` is `a` with one byte inverted.
pub open spec fn byte_flip_of(a: Seq<u8>, b: Seq<u8>) -> bool {
    exists|at: int| 0 <= at < a.len() && b == #[trigger] a.update(at, a[at] ^ 0xffu8)
}

/// `b` is `a` with one byte moved up or down by 1 to 35, wrapping around.
pub open spec fn arithmetic_of(a: Seq<u8>, b: Seq<u8>) -> bool {
    exists|at: int, delta: int|
        0 <= at < a.len() && -(ARITHMETIC_REACH as int) <= delta <= ARITHMETIC_REACH as int && delta
            != 0 && b == #[trigger] a.update(at, nudged(a[at], delta))
}

/// `b` is `a` with a run of 1 to 16 equal bytes inserted.
pub open spec fn insertion_of(a: Seq<u8>, b: Seq<u8>) -> bool {
    exists|at: int, count: int, byte: u8|
        0 <= at <= a.len() && 1 <= count <= BLOCK_REACH && b == #[trigger] spliced(
            a,
            at,
            run(count, byte),
        )
}

/// `b` is `a` with a block removed that is neither empty nor all of `a`.
pub open spec fn deletion_of(a: Seq<u8>, b: Seq<u8>) -> bool {
    exists|from: int, to: int|
        0 <= from < to <= a.len() && to - from < a.len() && b == #[trigger] cut(a, from, to)
}

/// `b` is `a` with a copy of one of its blocks, of 1 to 16 bytes, inserted.
pub open spec fn duplication_of(a: Seq<u8>, b: Seq<u8>) -> bool {
    exists|at: int, from: int, to: int|
        0 <= at < a.len() && 0 <= from < to <= a.len() && to - from <= BLOCK_REACH && b
            == #[trigger] spliced(a, at, a.subrange(from, to))
}

/// `b` is `a` with a token, or the front part of one, inserted.
pub open spec fn token_splice_of(a: Seq<u8>, b: Seq<u8>, tokens: Seq<Seq<u8>>) -> bool {
    exists|t: int, at: int, n: int|
        0 <= t < tokens.len() && 0 <= at <= a.len() && 1 <= n <= tokens[t].len() && b
            == #[trigger] spliced(a, at, tokens[t].subrange(0, n))
}

/// Whether the operator finds a place to work on in `a`. The operators that
/// make an input longer find none in an input that has reached the size
/// limit.
pub open spec fn has_site(op: Operator, a: Seq<u8>, tokens: Seq<Seq<u8>>) -> bool {
    match op {
        Operator::BitFlip => a.len() > 0,
        Operator::ByteFlip => a.len() > 0,
        Operator::Arithmetic => a.len() > 0,
        Operator::BlockInsert => a.len() < SIZE_LIMIT,
        Operator::BlockDelete => a.len() > 2,
        Operator::BlockDuplicate => 1 < a.len() < SIZE_LIMIT,
        Operator::TokenSplice => tokens.len() > 0 && a.len() < SIZE_LIMIT,
    }
}

/// What one application of `op` can make of `a`: `a` itself where the
/// operator finds no place to work on, and else a changed input.
pub open spec fn step(op: Operator, a: Seq<u8>, b: Seq<u8>, tokens: Seq<Seq<u8>>) -> bool {
    if !has_site(op, a, tokens) {
        b == a
    } else {
        match op {
            Operator::BitFlip => bit_flip_of(a, b),
            Operator::ByteFlip => byte_flip_of(a, b),
            Operator::Arithmetic => arithmetic_of(a, b),
            Operator::BlockInsert => insertion_of(a, b) && b.len() <= SIZE_LIMIT,
            Operator::BlockDelete => deletion_of(a, b),
            Operator::BlockDuplicate => duplication_of(a, b) && b.len() <= SIZE_LIMIT,
            Operator::TokenSplice => token_splice_of(a, b, tokens) && b.len() <= SIZE_LIMIT,
        }
    }
}

/// What `BitFlipMutator::mutate` of `libafl` makes of `input` when the
/// generator of its state was seeded with `seed`.
pub uninterp spec fn bit_flipped(input: Seq<u8>, seed: u64) -> Seq<u8>;

/// What `ByteFlipMutator::mutate` of `libafl` makes of `input` when the
/// generator of its state was seeded with `seed`.
pub uninterp spec fn byte_flipped(input: Seq<u8>, seed: u64) -> Seq<u8>;

/// What `ByteAddMutator::mutate` of `libafl` makes of `input` when the
/// generator of its state was seeded with `seed`.
pub uninterp spec fn byte_added(input: Seq<u8>, seed: u64) -> Seq<u8>;

/// What `BytesRandInsertMutator::mutate` of `libafl` makes of `input` when
/// the generator of its state was seeded with `seed`.
pub uninterp spec fn run_inserted(input: Seq<u8>, seed: u64) -> Seq<u8>;

/// What `BytesDeleteMutator::mutate` of `libafl` makes of `input` when the
/// generator of its state was seeded with `seed`.
pub uninterp spec fn block_deleted(input: Seq<u8>, seed: u64) -> Seq<u8>;

/// What `BytesInsertCopyMutator::mutate` of `libafl` makes of `input` when
/// the generator of its state was seeded with `seed`.
pub uninterp spec fn block_copied(input: Seq<u8>, seed: u64) -> Seq<u8>;

/// What `TokenInsert::mutate` of `libafl` makes of `input` when its state
/// holds `tokens` and the generator of its state was seeded with `seed`.
pub uninterp spec fn token_inserted(input: Seq<u8>, tokens: Seq<Seq<u8>>, seed: u64) -> Seq<u8>;

/// What one application of `op` makes of `a` when its random choices are
/// fixed by `seed`.
pub open spec fn applied(op: Operator, a: Seq<u8>, tokens: Seq<Seq<u8>>, seed: u64) -> Seq<u8> {
    match op {
        Operator::BitFlip => bit_flipped(a, seed),
        Operator::ByteFlip => byte_flipped(a, seed),
        Operator::Arithmetic => byte_added(a, seed),
        Operator::BlockInsert => run_inserted(a, seed),
        Operator::BlockDelete => block_deleted(a, seed),
        Operator::BlockDuplicate => block_copied(a, seed),
        Operator::TokenSplice => token_inserted(a, tokens, seed),
    }
}

/// `BitFlipMutator::mutate` of `libafl`: leaves an empty input alone, and in
/// any other flips one bit of one byte.
#[verifier::external_body]
fn bit_flip(input: &Vec<u8>, seed: u64) -> (out: Vec<u8>)
    ensures
        out@ == bit_flipped(input@, seed),
        input@.len() == 0 ==> out@ == input@,
        input@.len() > 0 ==> bit_flip_of(input@, out@),
{
    let mut state = NopState::<BytesInput>::new();
    state.rand_mut().set_seed(seed);
    let mut candidate = BytesInput::new(input.clone());
    let _ = BitFlipMutator::new().mutate(&mut state, &mut candidate);
    candidate.into_inner()
}

/// `ByteFlipMutator::mutate` of `libafl`: leaves an empty input alone, and in
/// any other inverts one byte.
#[verifier::external_body]
fn byte_flip(input: &Vec<u8>, seed: u64) -> (out: Vec<u8>)
    ensures
        out@ == byte_flipped(input@, seed),
        input@.len() == 0 ==> out@ == input@,
        input@.len() > 0 ==> byte_flip_of(input@, out@),
{
    let mut state = NopState::<BytesInput>::new();
    state.rand_mut().set_seed(seed);
    let mut candidate = BytesInput::new(input.clone());
    let _ = ByteFlipMutator::new().mutate(&mut state, &mut candidate);
    candidate.into_inner()
}

/// `ByteAddMutator::mutate` of `libafl`: leaves an empty input alone, and in
/// any other adds a number from 1 to 35 to one byte, or subtracts it, with
/// wrap-around.
#[verifier::external_body]
fn byte_add(input: &Vec<u8>, seed: u64) -> (out: Vec<u8>)
    ensures
        out@ == byte_added(input@, seed),
        input@.len() == 0 ==> out@ == input@,
        input@.len() > 0 ==> arithmetic_of(input@, out@),
{
    let mut state = NopState::<BytesInput>::new();
    state.rand_mut().set_seed(seed);
    let mut candidate = BytesInput::new(input.clone());
    let _ = ByteAddMutator::new().mutate(&mut state, &mut candidate);
    candidate.into_inner()
}

/// `BytesRandInsertMutator::mutate` of `libafl`: leaves alone an input that
/// has reached the size limit of the state, which is 16384 bytes, and
/// inserts into any other 1 to 16 copies of one byte at some position, but
/// no more than the limit has room for.
#[verifier::external_body]
fn bytes_rand_insert(input: &Vec<u8>, seed: u64) -> (out: Vec<u8>)
    ensures
        out@ == run_inserted(input@, seed),
        input@.len() >= SIZE_LIMIT ==> out@ == input@,
        input@.len() < SIZE_LIMIT ==> insertion_of(input@, out@) && out@.len() <= SIZE_LIMIT,
{
    let mut state = NopState::<BytesInput>::new();
    state.rand_mut().set_seed(seed);
    let mut candidate = BytesInput::new(input.clone());
    let _ = BytesRandInsertMutator::new().mutate(&mut state, &mut candidate);
    candidate.into_inner()
}

/// `BytesDeleteMutator::mutate` of `libafl`: leaves an input of up to two
/// bytes alone, and removes from any other a block that is neither empty nor
/// the whole input.
#[verifier::external_body]
fn bytes_delete(input: &Vec<u8>, seed: u64) -> (out: Vec<u8>)
    ensures
        out@ == block_deleted(input@, seed),
        input@.len() <= 2 ==> out@ == input@,
        input@.len() > 2 ==> deletion_of(input@, out@),
{
    let mut state = NopState::<BytesInput>::new();
    state.rand_mut().set_seed(seed);
    let mut candidate = BytesInput::new(input.clone());
    let _ = BytesDeleteMutator::new().mutate(&mut state, &mut candidate);
    candidate.into_inner()
}

/// `BytesInsertCopyMutator::mutate` of `libafl`: leaves an input of up to one
/// byte alone, as well as one that has reached the size limit of the state,
/// which is 16384 bytes, and inserts into any other a copy of 1 to 16
/// consecutive bytes of the input, but no more than the limit has room for.
#[verifier::external_body]
fn bytes_insert_copy(input: &Vec<u8>, seed: u64) -> (out: Vec<u8>)
    ensures
        out@ == block_copied(input@, seed),
        input@.len() <= 1 || input@.len() >= SIZE_LIMIT ==> out@ == input@,
        1 < input@.len() < SIZE_LIMIT ==> duplication_of(input@, out@) && out@.len()
            <= SIZE_LIMIT,
{
    let mut state = NopState::<BytesInput>::new();
    state.rand_mut().set_seed(seed);
    let mut candidate = BytesInput::new(input.clone());
    let _ = BytesInsertCopyMutator::new().mutate(&mut state, &mut candidate);
    candidate.into_inner()
}

/// `TokenInsert::mutate` of `libafl`, with the tokens placed in the state:
/// leaves the input alone if there is no token or if the input has reached
/// the size limit of the state, which is 16384 bytes, and else inserts one
/// token, cut short where it would pass the limit. It must not be handed an
/// empty token.
#[verifier::external_body]
fn token_insert(input: &Vec<u8>, tokens: &Tokens, seed: u64) -> (out: Vec<u8>)
    requires
        forall|t: int|
            0 <= t < token_list(*tokens).len() ==> (#[trigger] token_list(*tokens)[t]).len() > 0,
    ensures
        out@ == token_inserted(input@, token_list(*tokens), seed),
        token_list(*tokens).len() == 0 || input@.len() >= SIZE_LIMIT ==> out@ == input@,
        token_list(*tokens).len() > 0 && input@.len() < SIZE_LIMIT ==> token_splice_of(
            input@,
            out@,
            token_list(*tokens),
        ) && out@.len() <= SIZE_LIMIT,
{
    let mut state = NopState::<BytesInput>::new();
    state.rand_mut().set_seed(seed);
    state.add_metadata(tokens.clone());
    let mut candidate = BytesInput::new(input.clone());
    let _ = TokenInsert::new().mutate(&mut state, &mut candidate);
    candidate.into_inner()
}

/// Applies one operator to an input. The seed fixes the operator's random
/// choices. Where the operator finds no place to work on, the input comes
/// back unchanged, and only there.
pub fn apply(op: Operator, input: &Vec<u8>, dictionary: &TokenDictionary, seed: u64) -> (out: Vec<
    u8,
>)
    requires
        dictionary.wf(),
    ensures
        out@ == applied(op, input@, dictionary@, seed),
        step(op, input@, out@, dictionary@),
        has_site(op, input@, dictionary@) == (out@ != input@),
{
    let out = match op {
        Operator::BitFlip => bit_flip(input, seed),
        Operator::ByteFlip => byte_flip(input, seed),
        Operator::Arithmetic => byte_add(input, seed),
        Operator::BlockInsert => bytes_rand_insert(input, seed),
        Operator::BlockDelete => bytes_delete(input, seed),
        Operator::BlockDuplicate => bytes_insert_copy(input, seed),
        Operator::TokenSplice => token_insert(input, dictionary.collection(), seed),
    };
    proof {
        if has_site(op, input@, dictionary@) {
            lemma_site_means_change(op, input@, out@, dictionary@);
        }
    }
    out
}

/// The operator with a given number, in the order of the enumeration.
pub open spec fn operator_at(index: int) -> Operator {
    if index == 0 {
        Operator::BitFlip
    } else if index == 1 {
        Operator::ByteFlip
    } else if index == 2 {
        Operator::Arithmetic
    } else if index == 3 {
        Operator::BlockInsert
    } else if index == 4 {
        Operator::BlockDelete
    } else if index == 5 {
        Operator::BlockDuplicate
    } else {
        Operator::TokenSplice
    }
}

/// The number of an operator.
pub open spec fn number_of(op: Operator) -> int {
    match op {
        Operator::BitFlip => 0,
        Operator::ByteFlip => 1,
        Operator::Arithmetic => 2,
        Operator::BlockInsert => 3,
        Operator::BlockDelete => 4,
        Operator::BlockDuplicate => 5,
        Operator::TokenSplice => 6,
    }
}

/// Finds the operator with a given number.
pub fn operator(index: usize) -> (op: Operator)
    requires
        index < OPERATOR_COUNT,
    ensures
        op == operator_at(index as int),
        number_of(op) == index,
{
    if index == 0 {
        Operator::BitFlip
    } else if index == 1 {
        Operator::ByteFlip
    } else if index == 2 {
        Operator::Arithmetic
    } else if index == 3 {
        Operator::BlockInsert
    } else if index == 4 {
        Operator::BlockDelete
    } else if index == 5 {
        Operator::BlockDuplicate
    } else {
        Operator::TokenSplice
    }
}

/// Finds the number of an operator.
pub fn number(op: Operator) -> (index: usize)
    ensures
        index == number_of(op),
        index < OPERATOR_COUNT,
        operator_at(index as int) == op,
{
    match op {
        Operator::BitFlip => 0,
        Operator::ByteFlip => 1,
        Operator::Arithmetic => 2,
        Operator::BlockInsert => 3,
        Operator::BlockDelete => 4,
        Operator::BlockDuplicate => 5,
        Operator::TokenSplice => 6,
    }
}

/// A byte with one bit flipped is another byte.
proof fn lemma_flip_changes(byte: u8, mask: u8)
    requires
        mask != 0,
    ensures
        byte ^ mask != byte,
{
    assert(byte ^ mask != byte) by (bit_vector)
        requires
            mask != 0,
    ;
}

/// An operator that finds a place to work on changes the input.
pub proof fn lemma_site_means_change(op: Operator, a: Seq<u8>, b: Seq<u8>, tokens: Seq<Seq<u8>>)
    requires
        step(op, a, b, tokens),
        has_site(op, a, tokens),
    ensures
        b != a,
{
    match op {
        Operator::BitFlip => {
            let (at, bit) = choose|at: int, bit: int|
                0 <= at < a.len() && 0 <= bit < 8 && b == #[trigger] a.update(
                    at,
                    a[at] ^ bit_mask(bit),
                );
            lemma_flip_changes(a[at], bit_mask(bit));
            assert(b[at] != a[at]);
        },
        Operator::ByteFlip => {
            let at = choose|at: int| 0 <= at < a.len() && b == #[trigger] a.update(at, a[at] ^ 0xffu8);
            lemma_flip_changes(a[at], 0xffu8);
            assert(b[at] != a[at]);
        },
        Operator::Arithmetic => {
            let (at, delta) = choose|at: int, delta: int|
                0 <= at < a.len() && -(ARITHMETIC_REACH as int) <= delta <= ARITHMETIC_REACH as int
                    && delta != 0 && b == #[trigger] a.update(at, nudged(a[at], delta));
            assert(b[at] != a[at]);
        },
        Operator::BlockInsert => {
            let (at, count, byte) = choose|at: int, count: int, byte: u8|
                0 <= at <= a.len() && 1 <= count <= BLOCK_REACH && b == #[trigger] spliced(
                    a,
                    at,
                    run(count, byte),
                );
            assert(b.len() == a.len() + count);
        },
        Operator::BlockDelete => {
            let (from, to) = choose|from: int, to: int|
                0 <= from < to <= a.len() && to - from < a.len() && b == #[trigger] cut(a, from, to);
            assert(b.len() == a.len() - (to - from));
        },
        Operator::BlockDuplicate => {
            let (at, from, to) = choose|at: int, from: int, to: int|
                0 <= at < a.len() && 0 <= from < to <= a.len() && to - from <= BLOCK_REACH && b
                    == #[trigger] spliced(a, at, a.subrange(from, to));
            assert(b.len() == a.len() + (to - from));
        },
        Operator::TokenSplice => {
            let (t, at, n) = choose|t: int, at: int, n: int|
                0 <= t < tokens.len() && 0 <= at <= a.len() && 1 <= n <= tokens[t].len() && b
                    == #[trigger] spliced(a, at, tokens[t].subrange(0, n));
            assert(b.len() == a.len() + n);
        },
    }
}

/// An operator that finds no place to work on hands the input back as it is.
pub proof fn lemma_no_site_no_change(op: Operator, a: Seq<u8>, b: Seq<u8>, tokens: Seq<Seq<u8>>)
    requires
        step(op, a, b, tokens),
        !has_site(op, a, tokens),
    ensures
        b == a,
{
}

} // verus!
