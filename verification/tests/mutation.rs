use covfuzz::adaptive::{AdaptiveMutator, Phase, DEFAULT_PERIOD, DEFAULT_STACK, REWARD_SCALE};
use covfuzz::operators::{apply, number, operator, Operator, OPERATOR_COUNT};
use covfuzz::random::RandomSource;
use covfuzz::replacement::{input_to_state, LoggedComparison, Operands};
use covfuzz::tokens::{installed, TokenDictionary};

const ALL: [Operator; 7] = [
    Operator::BitFlip,
    Operator::ByteFlip,
    Operator::Arithmetic,
    Operator::BlockInsert,
    Operator::BlockDelete,
    Operator::BlockDuplicate,
    Operator::TokenSplice,
];

fn differing(a: &[u8], b: &[u8]) -> Vec<usize> {
    (0..a.len()).filter(|&i| a[i] != b[i]).collect()
}

#[test]
fn bit_flip_changes_exactly_one_bit() {
    let input = vec![0u8, 0x55, 0xff, 7, 9];
    let empty = TokenDictionary::new();
    for seed in 0..64 {
        let out = apply(Operator::BitFlip, &input, &empty, seed);
        assert_eq!(out.len(), input.len());
        let at = differing(&input, &out);
        assert_eq!(at.len(), 1);
        assert_eq!((input[at[0]] ^ out[at[0]]).count_ones(), 1);
    }
}

#[test]
fn byte_flip_inverts_exactly_one_byte() {
    let input = vec![0u8, 0x55, 0xff, 7, 9];
    let empty = TokenDictionary::new();
    for seed in 0..64 {
        let out = apply(Operator::ByteFlip, &input, &empty, seed);
        let at = differing(&input, &out);
        assert_eq!(at.len(), 1);
        assert_eq!(input[at[0]] ^ out[at[0]], 0xff);
    }
}

#[test]
fn arithmetic_moves_one_byte_by_up_to_35() {
    let input = vec![0u8, 100, 255, 30];
    let empty = TokenDictionary::new();
    for seed in 0..64 {
        let out = apply(Operator::Arithmetic, &input, &empty, seed);
        let at = differing(&input, &out);
        assert_eq!(at.len(), 1);
        let up = out[at[0]].wrapping_sub(input[at[0]]);
        let down = input[at[0]].wrapping_sub(out[at[0]]);
        assert!((1..=35).contains(&up) || (1..=35).contains(&down));
    }
}

#[test]
fn block_insert_adds_a_run_of_one_byte() {
    let input = vec![1u8, 2, 3];
    let empty = TokenDictionary::new();
    for seed in 0..64 {
        let out = apply(Operator::BlockInsert, &input, &empty, seed);
        let added = out.len() - input.len();
        assert!((1..=16).contains(&added));
        let fits = (0..=input.len()).any(|at| {
            out[..at] == input[..at]
                && out[at + added..] == input[at..]
                && out[at..at + added].iter().all(|b| *b == out[at])
        });
        assert!(fits);
    }
}

#[test]
fn block_delete_removes_a_block_but_not_everything() {
    let input: Vec<u8> = (0..20).collect();
    let empty = TokenDictionary::new();
    for seed in 0..64 {
        let out = apply(Operator::BlockDelete, &input, &empty, seed);
        assert!(!out.is_empty());
        assert!(out.len() < input.len());
        let gone = input.len() - out.len();
        let fits = (0..=out.len()).any(|at| out[..at] == input[..at] && out[at..] == input[at + gone..]);
        assert!(fits);
    }
}

#[test]
fn block_duplicate_inserts_a_copy_of_a_block() {
    let input: Vec<u8> = (0..20).collect();
    let empty = TokenDictionary::new();
    for seed in 0..64 {
        let out = apply(Operator::BlockDuplicate, &input, &empty, seed);
        let added = out.len() - input.len();
        assert!((1..=16).contains(&added));
        let fits = (0..input.len()).any(|at| {
            out[..at] == input[..at]
                && out[at + added..] == input[at..]
                && input.windows(added).any(|w| w == &out[at..at + added])
        });
        assert!(fits);
    }
}

#[test]
fn token_splice_inserts_a_token() {
    let input = vec![1u8, 2, 3];
    let mut dictionary = TokenDictionary::new();
    assert!(dictionary.add(&vec![b'G', b'E', b'T']));
    assert!(dictionary.add(&vec![0xde, 0xad, 0xbe, 0xef]));
    for seed in 0..64 {
        let out = apply(Operator::TokenSplice, &input, &dictionary, seed);
        let added = out.len() - input.len();
        assert!(added == 3 || added == 4);
        let token: &[u8] = if added == 3 { b"GET" } else { &[0xde, 0xad, 0xbe, 0xef] };
        let fits = (0..=input.len()).any(|at| {
            out[..at] == input[..at] && &out[at..at + added] == token && out[at + added..] == input[at..]
        });
        assert!(fits);
    }
}

#[test]
fn operators_without_a_site_hand_the_input_back() {
    let empty_input: Vec<u8> = vec![];
    let empty = TokenDictionary::new();
    for seed in 0..16 {
        assert_eq!(apply(Operator::BitFlip, &empty_input, &empty, seed), empty_input);
        assert_eq!(apply(Operator::ByteFlip, &empty_input, &empty, seed), empty_input);
        assert_eq!(apply(Operator::Arithmetic, &empty_input, &empty, seed), empty_input);
        assert_eq!(apply(Operator::BlockDelete, &empty_input, &empty, seed), empty_input);
        assert_eq!(apply(Operator::BlockDelete, &vec![1, 2], &empty, seed), vec![1, 2]);
        assert_eq!(apply(Operator::BlockDuplicate, &empty_input, &empty, seed), empty_input);
        assert_eq!(apply(Operator::BlockDuplicate, &vec![1], &empty, seed), vec![1]);
        assert_eq!(apply(Operator::TokenSplice, &vec![1, 2, 3], &empty, seed), vec![1, 2, 3]);
        assert_eq!(apply(Operator::TokenSplice, &empty_input, &empty, seed), empty_input);
    }
}

#[test]
fn a_seed_fixes_what_an_operator_does() {
    let input: Vec<u8> = (0..32).collect();
    let empty = TokenDictionary::new();
    for op in ALL {
        assert_eq!(apply(op, &input, &empty, 99), apply(op, &input, &empty, 99));
    }
}

#[test]
fn operators_are_numbered_in_order() {
    assert_eq!(OPERATOR_COUNT, 7);
    for (index, op) in ALL.iter().enumerate() {
        assert_eq!(number(*op), index);
        assert_eq!(operator(index), *op);
    }
}

#[test]
fn dictionary_keeps_each_token_once_and_no_empty_one() {
    let mut dictionary = TokenDictionary::new();
    assert!(dictionary.is_empty());
    assert!(dictionary.add(&vec![1, 2]));
    assert!(!dictionary.add(&vec![1, 2]));
    assert!(!dictionary.add(&vec![]));
    assert!(dictionary.add(&vec![3]));
    assert_eq!(dictionary.len(), 2);
    assert!(!dictionary.is_empty());
    assert_eq!(dictionary.add_all(&vec![vec![3], vec![4], vec![], vec![4], vec![5]]), 2);
    assert_eq!(dictionary.len(), 4);
}

#[test]
fn dictionary_is_installed_once() {
    let mut harvested = TokenDictionary::new();
    harvested.add(&vec![9, 9]);
    let kept = installed(None, harvested).unwrap();
    assert_eq!(kept.len(), 1);
    let mut later = TokenDictionary::new();
    later.add(&vec![1]);
    later.add(&vec![2]);
    let still = installed(Some(kept), later).unwrap();
    assert_eq!(still.len(), 1);
    assert!(installed(None, TokenDictionary::new()).is_none());
}

#[test]
fn mutator_wants_a_stack_and_a_period() {
    assert!(AdaptiveMutator::new(0, 5).is_none());
    assert!(AdaptiveMutator::new(7, 0).is_none());
    assert!(AdaptiveMutator::new(DEFAULT_STACK, DEFAULT_PERIOD).is_some());
    assert_eq!(DEFAULT_STACK, 7);
    assert_eq!(DEFAULT_PERIOD, 5);
}

#[test]
fn pilot_phase_draws_evenly() {
    let mutator = AdaptiveMutator::new(7, 5).unwrap();
    assert_eq!(mutator.phase(), Phase::Pilot);
    let mut hits = [0u32; 7];
    for k in 0..7000u64 {
        let draw = ((k as u128 * (1u128 << 64) + (1u128 << 63)) / 7000) as u64;
        hits[number(mutator.draw_operator(draw))] += 1;
    }
    assert_eq!(hits, [1000; 7]);
}

#[test]
fn weights_reward_the_operators_that_paid_off() {
    let mut mutator = AdaptiveMutator::new(7, 5).unwrap();
    mutator.reward(&vec![Operator::BitFlip], true);
    mutator.reward(&vec![Operator::BitFlip, Operator::ByteFlip], true);
    mutator.reward(&vec![Operator::ByteFlip], false);
    mutator.reward(&vec![Operator::ByteFlip, Operator::BlockDelete], false);
    assert_eq!(mutator.phase(), Phase::Pilot);
    mutator.reward(&vec![Operator::ByteFlip], false);
    assert_eq!(mutator.phase(), Phase::Core);
    assert_eq!(REWARD_SCALE, 100);
    assert_eq!(mutator.weight(Operator::BitFlip), 101);
    assert_eq!(mutator.weight(Operator::ByteFlip), 26);
    assert_eq!(mutator.weight(Operator::BlockDelete), 1);
    assert_eq!(mutator.weight(Operator::TokenSplice), 1);
    assert_eq!(mutator.draw_operator(0), Operator::BitFlip);
    assert_eq!(mutator.draw_operator(u64::MAX), Operator::TokenSplice);
}

#[test]
fn phases_alternate_every_period() {
    let mut mutator = AdaptiveMutator::new(7, 3).unwrap();
    let mut seen = Vec::new();
    for _ in 0..12 {
        seen.push(mutator.phase());
        mutator.reward(&vec![Operator::Arithmetic], true);
    }
    let p = Phase::Pilot;
    let c = Phase::Core;
    assert_eq!(seen, vec![p, p, p, c, c, c, p, p, p, c, c, c]);
}

#[test]
fn no_operator_is_ever_starved() {
    let mut mutator = AdaptiveMutator::new(7, 2).unwrap();
    for round in 0..40 {
        mutator.reward(&vec![Operator::BitFlip], round % 3 == 0);
        for op in ALL {
            assert!(mutator.weight(op) >= 1);
        }
    }
}

#[test]
fn stacked_mutation_uses_between_one_and_the_bound_of_operators() {
    let mutator = AdaptiveMutator::new(7, 5).unwrap();
    let dictionary = TokenDictionary::new();
    let mut source = RandomSource::seeded(3);
    let input: Vec<u8> = (0..40).collect();
    let mut changed = 0;
    for _ in 0..100 {
        let mutant = mutator.mutate(&input, &dictionary, &mut source);
        assert!((1..=7).contains(&mutant.used.len()));
        if mutant.bytes != input {
            changed += 1;
        }
    }
    assert!(changed > 50);
}

#[test]
fn stacked_mutation_of_nothing_with_nothing_to_splice_stays_small() {
    let mutator = AdaptiveMutator::new(3, 5).unwrap();
    let dictionary = TokenDictionary::new();
    let mut source = RandomSource::seeded(11);
    for _ in 0..50 {
        let mutant = mutator.mutate(&vec![], &dictionary, &mut source);
        assert!(mutant.bytes.len() <= 3 * 16);
    }
}

#[test]
fn replacement_puts_the_other_operand_in_place() {
    let input = vec![b'a', b'b', 0x11, 0x22, 0x33, 0x44, b'c'];
    let log = vec![LoggedComparison {
        site: 1,
        operands: Operands::Dword(u32::from_le_bytes([0x11, 0x22, 0x33, 0x44]), u32::from_le_bytes(*b"GOAL"), false),
    }];
    let mut hit = false;
    for seed in 0..32 {
        let out = input_to_state(&input, &log, seed);
        assert_eq!(out.len(), input.len());
        if out != input {
            assert_eq!(out, vec![b'a', b'b', b'G', b'O', b'A', b'L', b'c']);
            hit = true;
        }
    }
    assert!(hit);
}

#[test]
fn replacement_of_single_bytes_goes_both_ways() {
    let log = vec![LoggedComparison { site: 9, operands: Operands::Byte(b'x', b'y', false) }];
    let mut forward = false;
    let mut backward = false;
    for seed in 0..32 {
        if input_to_state(&vec![b'x'], &log, seed) == vec![b'y'] {
            forward = true;
        }
        if input_to_state(&vec![b'y'], &log, seed) == vec![b'x'] {
            backward = true;
        }
    }
    assert!(forward && backward);
}

#[test]
fn replacement_without_a_site_hands_the_input_back() {
    let log = vec![LoggedComparison { site: 1, operands: Operands::Word(0x1234, 0x5678, false) }];
    for seed in 0..16 {
        assert_eq!(input_to_state(&vec![], &log, seed), Vec::<u8>::new());
        assert_eq!(input_to_state(&vec![1, 2, 3], &vec![], seed), vec![1, 2, 3]);
        assert_eq!(input_to_state(&vec![1, 2, 3], &log, seed), vec![1, 2, 3]);
    }
}

#[test]
fn a_seed_fixes_what_replacement_does() {
    let input: Vec<u8> = vec![5, 6, 5, 6, 5, 6];
    let log = vec![
        LoggedComparison { site: 1, operands: Operands::Byte(5, 50, false) },
        LoggedComparison { site: 2, operands: Operands::Byte(6, 60, false) },
    ];
    for seed in 0..16 {
        assert_eq!(input_to_state(&input, &log, seed), input_to_state(&input, &log, seed));
    }
}

fn encodings(value: u64, width: usize) -> [Vec<u8>; 2] {
    let low: Vec<u8> = value.to_le_bytes()[..width].to_vec();
    let high: Vec<u8> = low.iter().rev().copied().collect();
    [low, high]
}

fn is_one_swap(input: &[u8], out: &[u8], width: usize, left: u64, right: u64) -> bool {
    for (found, put) in [(left, right), (right, left)] {
        for order in 0..2 {
            let found = &encodings(found, width)[order];
            let put = &encodings(put, width)[order];
            for at in 0..=input.len().saturating_sub(width) {
                if input.len() >= width && &input[at..at + width] == found.as_slice() {
                    let mut expected = input.to_vec();
                    expected[at..at + width].copy_from_slice(put);
                    if expected == out {
                        return true;
                    }
                }
            }
        }
    }
    false
}

#[test]
fn replacement_is_the_input_or_one_swap_of_operands() {
    let input: Vec<u8> = vec![0x12, 0x34, 0x56, 0x78, 0x12, 0x34, 0, 0, 0, 0, 0x78, 0x56, 0x34, 0x12];
    let log = vec![
        LoggedComparison { site: 1, operands: Operands::Word(0x3412, 0xbeef, false) },
        LoggedComparison { site: 2, operands: Operands::Dword(0x12345678, 0xcafe_f00d, false) },
        LoggedComparison { site: 3, operands: Operands::Byte(0, 0xaa, false) },
        LoggedComparison { site: 4, operands: Operands::Qword(7, 0x0102_0304_0506_0708, false) },
    ];
    let plain: [(usize, u64, u64); 4] = [
        (2, 0x3412, 0xbeef),
        (4, 0x12345678, 0xcafe_f00d),
        (1, 0, 0xaa),
        (8, 7, 0x0102_0304_0506_0708),
    ];
    let mut changed = 0;
    for seed in 0..200 {
        let out = input_to_state(&input, &log, seed);
        assert_eq!(out.len(), input.len());
        if out != input {
            changed += 1;
            assert!(plain.iter().any(|(w, l, r)| is_one_swap(&input, &out, *w, *l, *r)));
        }
    }
    assert!(changed > 20);
}

#[test]
fn a_constant_operand_is_put_in_place_but_never_looked_for() {
    let fixed = vec![LoggedComparison { site: 1, operands: Operands::Byte(b'c', b'v', true) }];
    let mut put = false;
    for seed in 0..32 {
        assert_eq!(input_to_state(&vec![b'c', b'c'], &fixed, seed), vec![b'c', b'c']);
        let out = input_to_state(&vec![b'v'], &fixed, seed);
        assert!(out == vec![b'v'] || out == vec![b'c']);
        if out == vec![b'c'] {
            put = true;
        }
    }
    assert!(put);
}

#[test]
fn a_mutant_is_fixed_by_the_draws_of_the_source() {
    let mut mutator = AdaptiveMutator::new(7, 2).unwrap();
    let mut dictionary = TokenDictionary::new();
    dictionary.add(&b"token".to_vec());
    let input: Vec<u8> = (0..30).collect();
    for seed in 0..40u64 {
        let mut source = RandomSource::seeded(seed);
        let mut twin = RandomSource::seeded(seed);
        let mutant = mutator.mutate(&input, &dictionary, &mut source);
        let depth = 1 + covfuzz::random::below(twin.draw(), 7);
        assert_eq!(mutant.used.len(), depth);
        let mut bytes = input.clone();
        for k in 0..depth {
            let op = mutator.draw_operator(twin.draw());
            assert_eq!(mutant.used[k], op);
            bytes = apply(op, &bytes, &dictionary, twin.draw());
        }
        assert_eq!(mutant.bytes, bytes);
        assert_eq!(source.draw(), twin.draw());
        mutator.reward(&mutant.used, seed % 3 == 0);
    }
}
