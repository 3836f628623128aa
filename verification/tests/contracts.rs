use covfuzz::corpus::input_name;
use covfuzz::feedback::FeedbackState;
use covfuzz::layout::corpus_dir;
use covfuzz::operators::{apply, Operator, SIZE_LIMIT};
use covfuzz::orchestrator::ClientDescriptor;
use covfuzz::random::below;
use covfuzz::replacement::{input_to_state, LoggedComparison, Operands};
use covfuzz::tokens::TokenDictionary;

struct Lcg(u64);

impl Lcg {
    fn next(&mut self) -> u64 {
        self.0 = self.0.wrapping_mul(6364136223846793005).wrapping_add(1442695040888963407);
        self.0 ^ (self.0 >> 29)
    }

    fn bytes(&mut self, len: usize) -> Vec<u8> {
        (0..len).map(|_| (self.next() >> 24) as u8).collect()
    }
}

fn cases() -> Vec<(Vec<u8>, u64)> {
    let mut lcg = Lcg(0x5eed);
    let mut all = Vec::new();
    for len in 0..48usize {
        for _ in 0..12 {
            let input = lcg.bytes(len);
            let seed = lcg.next();
            all.push((input, seed));
        }
    }
    all
}

fn is_insertion(input: &[u8], out: &[u8], piece_ok: &dyn Fn(usize, &[u8]) -> bool) -> bool {
    if out.len() <= input.len() {
        return false;
    }
    let added = out.len() - input.len();
    (0..=input.len()).any(|at| {
        out[..at] == input[..at] && out[at + added..] == input[at..] && piece_ok(at, &out[at..at + added])
    })
}

#[test]
fn scaled_draws_are_the_high_half_of_the_product() {
    let mut lcg = Lcg(1);
    for _ in 0..5000 {
        let draw = lcg.next();
        let bound = (lcg.next() >> 20) as usize + 1;
        let expected = ((draw as u128 * bound as u128) >> 64) as usize;
        assert_eq!(below(draw, bound), expected);
        assert!(below(draw, bound) < bound);
    }
}

#[test]
fn feedback_keeps_the_higher_of_every_pair_of_counters() {
    for recorded in 0..=255u8 {
        let mut state = FeedbackState::new(256);
        state.evaluate(&vec![recorded; 256], 1);
        let observed: Vec<u8> = (0..=255u8).collect();
        state.evaluate(&observed, 1);
        for value in 0..=255u8 {
            assert_eq!(state.seen_at(value as usize), recorded.max(value));
        }
    }
}

#[test]
fn bit_flip_holds_its_contract_on_many_inputs() {
    let empty = TokenDictionary::new();
    for (input, seed) in cases() {
        let out = apply(Operator::BitFlip, &input, &empty, seed);
        assert_eq!(out.len(), input.len());
        let diff: Vec<usize> = (0..input.len()).filter(|&i| input[i] != out[i]).collect();
        if input.is_empty() {
            assert!(diff.is_empty());
        } else {
            assert_eq!(diff.len(), 1);
            assert!((input[diff[0]] ^ out[diff[0]]).is_power_of_two());
        }
    }
}

#[test]
fn byte_flip_holds_its_contract_on_many_inputs() {
    let empty = TokenDictionary::new();
    for (input, seed) in cases() {
        let out = apply(Operator::ByteFlip, &input, &empty, seed);
        assert_eq!(out.len(), input.len());
        let diff: Vec<usize> = (0..input.len()).filter(|&i| input[i] != out[i]).collect();
        if input.is_empty() {
            assert!(diff.is_empty());
        } else {
            assert_eq!(diff.len(), 1);
            assert_eq!(input[diff[0]] ^ out[diff[0]], 0xff);
        }
    }
}

#[test]
fn arithmetic_holds_its_contract_on_many_inputs() {
    let empty = TokenDictionary::new();
    for (input, seed) in cases() {
        let out = apply(Operator::Arithmetic, &input, &empty, seed);
        assert_eq!(out.len(), input.len());
        let diff: Vec<usize> = (0..input.len()).filter(|&i| input[i] != out[i]).collect();
        if input.is_empty() {
            assert!(diff.is_empty());
        } else {
            assert_eq!(diff.len(), 1);
            let up = out[diff[0]].wrapping_sub(input[diff[0]]);
            let down = input[diff[0]].wrapping_sub(out[diff[0]]);
            assert!((1..=35).contains(&up) || (1..=35).contains(&down));
        }
    }
}

#[test]
fn block_insert_holds_its_contract_on_many_inputs() {
    let empty = TokenDictionary::new();
    for (input, seed) in cases() {
        let out = apply(Operator::BlockInsert, &input, &empty, seed);
        let run = |_: usize, piece: &[u8]| piece.len() <= 16 && piece.iter().all(|b| *b == piece[0]);
        assert!(is_insertion(&input, &out, &run));
    }
}

#[test]
fn block_delete_holds_its_contract_on_many_inputs() {
    let empty = TokenDictionary::new();
    for (input, seed) in cases() {
        let out = apply(Operator::BlockDelete, &input, &empty, seed);
        if input.len() <= 2 {
            assert_eq!(out, input);
        } else {
            assert!(out.len() < input.len());
            assert!(!out.is_empty());
            let gone = input.len() - out.len();
            assert!((0..=out.len()).any(|at| out[..at] == input[..at] && out[at..] == input[at + gone..]));
        }
    }
}

#[test]
fn block_duplicate_holds_its_contract_on_many_inputs() {
    let empty = TokenDictionary::new();
    for (input, seed) in cases() {
        let out = apply(Operator::BlockDuplicate, &input, &empty, seed);
        if input.len() <= 1 {
            assert_eq!(out, input);
        } else {
            let copy = |at: usize, piece: &[u8]| {
                at < input.len() && piece.len() <= 16 && input.windows(piece.len()).any(|w| w == piece)
            };
            assert!(is_insertion(&input, &out, &copy));
        }
    }
}

#[test]
fn token_splice_holds_its_contract_on_many_inputs() {
    let tokens: Vec<Vec<u8>> = vec![b"a".to_vec(), b"token".to_vec(), vec![0; 9], b"<!--".to_vec()];
    let mut dictionary = TokenDictionary::new();
    assert_eq!(dictionary.add_all(&tokens), 4);
    let none = TokenDictionary::new();
    for (input, seed) in cases() {
        assert_eq!(apply(Operator::TokenSplice, &input, &none, seed), input);
        let out = apply(Operator::TokenSplice, &input, &dictionary, seed);
        let whole = |_: usize, piece: &[u8]| tokens.iter().any(|t| t.as_slice() == piece);
        assert!(is_insertion(&input, &out, &whole));
    }
}

#[test]
fn inserting_operators_stop_at_the_size_limit() {
    assert_eq!(SIZE_LIMIT, 16_384);
    let mut lcg = Lcg(77);
    let mut dictionary = TokenDictionary::new();
    dictionary.add(&b"0123456789".to_vec());
    let empty = TokenDictionary::new();
    for len in [16_380usize, 16_383, 16_384, 16_385, 20_000] {
        let input = lcg.bytes(len);
        for _ in 0..6 {
            let seed = lcg.next();
            let run = |_: usize, piece: &[u8]| piece.len() <= 16 && piece.iter().all(|b| *b == piece[0]);
            let front = |_: usize, piece: &[u8]| !piece.is_empty() && b"0123456789".starts_with(piece);
            let copy = |at: usize, piece: &[u8]| {
                at < input.len() && piece.len() <= 16 && input.windows(piece.len()).any(|w| w == piece)
            };
            let inserted = apply(Operator::BlockInsert, &input, &empty, seed);
            let spliced = apply(Operator::TokenSplice, &input, &dictionary, seed);
            let copied = apply(Operator::BlockDuplicate, &input, &empty, seed);
            if len >= SIZE_LIMIT {
                assert_eq!(inserted, input);
                assert_eq!(spliced, input);
                assert_eq!(copied, input);
            } else {
                assert!(is_insertion(&input, &inserted, &run) && inserted.len() <= SIZE_LIMIT);
                assert!(is_insertion(&input, &spliced, &front) && spliced.len() <= SIZE_LIMIT);
                assert!(is_insertion(&input, &copied, &copy) && copied.len() <= SIZE_LIMIT);
            }
            let out = apply(Operator::BlockDelete, &input, &empty, seed);
            assert!(out.len() < input.len() && !out.is_empty());
        }
    }
}

#[test]
fn an_operator_changes_the_input_exactly_where_it_finds_a_site() {
    let mut dictionary = TokenDictionary::new();
    dictionary.add(&b"tok".to_vec());
    let empty = TokenDictionary::new();
    for (input, seed) in cases() {
        let len = input.len();
        assert_eq!(apply(Operator::BitFlip, &input, &empty, seed) != input, len > 0);
        assert_eq!(apply(Operator::ByteFlip, &input, &empty, seed) != input, len > 0);
        assert_eq!(apply(Operator::Arithmetic, &input, &empty, seed) != input, len > 0);
        assert!(apply(Operator::BlockInsert, &input, &empty, seed) != input);
        assert_eq!(apply(Operator::BlockDelete, &input, &empty, seed) != input, len > 2);
        assert_eq!(apply(Operator::BlockDuplicate, &input, &empty, seed) != input, len > 1);
        assert!(apply(Operator::TokenSplice, &input, &dictionary, seed) != input);
        assert!(apply(Operator::TokenSplice, &input, &empty, seed) == input);
    }
}

fn encodings(value: u64, width: usize) -> [Vec<u8>; 2] {
    let low: Vec<u8> = value.to_le_bytes()[..width].to_vec();
    let high: Vec<u8> = low.iter().rev().copied().collect();
    [low, high]
}

fn one_swap(input: &[u8], out: &[u8], width: usize, left: u64, right: u64) -> bool {
    if input.len() < width {
        return false;
    }
    for (found, put) in [(left, right), (right, left)] {
        for order in 0..2 {
            let found = &encodings(found, width)[order];
            let put = &encodings(put, width)[order];
            for at in 0..=input.len() - width {
                if &input[at..at + width] == found.as_slice() {
                    let mut expected = input.to_vec();
                    expected[at..at + width].copy_from_slice(put);
                    if expected == out {
                        return true;
                    }
                }
            }
        }
    }
    false
}

#[test]
fn replacement_holds_its_contract_on_many_inputs() {
    let mut lcg = Lcg(99);
    let mut changed = 0;
    for round in 0..600 {
        let len = (round % 24) as usize;
        let mut input: Vec<u8> = lcg.bytes(len).iter().map(|b| b % 4).collect();
        let mut log = Vec::new();
        let mut plain: Vec<(usize, u64, u64)> = Vec::new();
        for site in 0..(round % 5) {
            let left = lcg.next();
            let right = lcg.next();
            let (operands, width, l, r) = match lcg.next() % 4 {
                0 => (Operands::Byte((left % 4) as u8, right as u8, false), 1, left % 4, right & 0xff),
                1 => (Operands::Word(left as u16, right as u16, false), 2, left & 0xffff, right & 0xffff),
                2 => (Operands::Dword(left as u32, right as u32, false), 4, left & 0xffff_ffff, right & 0xffff_ffff),
                _ => (Operands::Qword(left, right, false), 8, left, right),
            };
            if width > 1 && input.len() >= width && lcg.next() % 2 == 0 {
                let at = (lcg.next() as usize) % (input.len() - width + 1);
                let order = (lcg.next() % 2) as usize;
                input[at..at + width].copy_from_slice(&encodings(l, width)[order]);
            }
            log.push(LoggedComparison { site: site as u64, operands });
            plain.push((width, l, r));
        }
        let seed = lcg.next();
        let out = input_to_state(&input, &log, seed);
        assert_eq!(out.len(), input.len());
        if input.is_empty() || log.is_empty() {
            assert_eq!(out, input);
        }
        if out != input {
            changed += 1;
            assert!(plain.iter().any(|(w, l, r)| one_swap(&input, &out, *w, *l, *r)));
        }
        assert_eq!(out, input_to_state(&input, &log, seed));
    }
    assert!(changed > 30);
}

#[test]
fn names_depend_on_the_bytes_alone() {
    let mut lcg = Lcg(5);
    let mut seen = std::collections::BTreeMap::new();
    for len in 0..64usize {
        let input = lcg.bytes(len);
        let name = input_name(&input);
        assert_eq!(name, input_name(&input.clone()));
        assert_eq!(name.len(), 16);
        if let Some(other) = seen.insert(name, input.clone()) {
            assert_eq!(other, input);
        }
    }
}

#[test]
fn corpus_directories_carry_the_decimal_number_of_the_client() {
    for id in [0usize, 1, 9, 10, 11, 99, 100, 101, 4095, 65536, 1234567890] {
        let dir = corpus_dir("r", &ClientDescriptor { id, core: None });
        assert_eq!(dir, format!("r/queue/{id}"));
    }
}
