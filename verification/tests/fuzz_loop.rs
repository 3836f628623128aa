use covfuzz::corpus::{input_name, Placement, ReloadError, StoreError};
use covfuzz::coverage::ConfigError;
use covfuzz::engine::{Engine, Report};
use covfuzz::fuzzer::{Action, Fuzzer, HandleError, SetupError};
use covfuzz::orchestrator::bootstrap_seeds;
use covfuzz::outcome::{ExitKind, FindingReason};
use covfuzz::random::RandomSource;
use covfuzz::replacement::{LoggedComparison, Operands};
use covfuzz::stages::{Round, Stage, CALIBRATION_RUNS};
use covfuzz::tokens::TokenDictionary;
use std::collections::HashMap;

const EDGES: usize = 16;

fn target(input: &[u8]) -> (Vec<u8>, ExitKind) {
    let mut counters = vec![0u8; EDGES];
    counters[0] = 1;
    counters[5] = (input.len() % 4) as u8;
    if input.first() == Some(&b'F') {
        counters[1] = 1;
        if input.get(1) == Some(&b'U') {
            counters[2] = 1;
            if input.get(2) == Some(&b'Z') {
                counters[3] = 1;
                if input.get(3) == Some(&b'Z') {
                    return (counters, ExitKind::Crash);
                }
            }
        }
    }
    if input.first() == Some(&b'H') && input.len() > 40 {
        counters[8] = 1;
        return (counters, ExitKind::Timeout);
    }
    (counters, ExitKind::Normal)
}

fn trace(input: &[u8]) -> Vec<LoggedComparison> {
    let word = b"FUZZ";
    (0..4)
        .map(|k| LoggedComparison {
            site: k as u64,
            operands: Operands::Byte(input.get(k).copied().unwrap_or(0), word[k], false),
        })
        .collect()
}

fn run_round(fuzzer: &mut Fuzzer, source: &mut RandomSource, disk: &HashMap<String, Vec<u8>>) -> Vec<Stage> {
    let mut stages = Vec::new();
    loop {
        match fuzzer.next_action(source) {
            Action::Idle => break,
            Action::Load { index, name } => {
                fuzzer.reload(index, disk[&name].clone()).unwrap();
            }
            Action::Execute { input, tracing } => {
                stages.push(fuzzer.stage().unwrap());
                let (counters, kind) = target(&input);
                let log = if tracing { trace(&input) } else { Vec::new() };
                fuzzer.handle(&counters, 10, kind, log).unwrap();
            }
        }
        if fuzzer.stage() == Some(Stage::Done) {
            break;
        }
    }
    stages
}

#[test]
fn input_with_novel_coverage_enters_the_active_corpus() {
    let mut engine = Engine::new(EDGES, 8).unwrap();
    let (counters, kind) = target(b"F");
    let report = engine.process_execution(b"F".to_vec(), &counters, 10, kind);
    assert!(report.interesting);
    assert_eq!(report.stored, Some(Placement { index: 0, evicted: None }));
    assert_eq!(report.finding, None);
    assert_eq!(engine.corpus_count(), 1);
    assert_eq!(engine.corpus().resident(0), Some(&b"F".to_vec()));
    let (counters, kind) = target(b"FU");
    assert!(engine.process_execution(b"FU".to_vec(), &counters, 10, kind).interesting);
    assert_eq!(engine.corpus().resident(1), Some(&b"FU".to_vec()));
}

#[test]
fn input_without_news_stays_out_of_the_corpus() {
    let mut engine = Engine::new(EDGES, 8).unwrap();
    let (counters, kind) = target(b"F");
    engine.process_execution(b"F".to_vec(), &counters, 10, kind);
    let report = engine.process_execution(b"F".to_vec(), &counters, 10, kind);
    assert_eq!(report, Report { interesting: false, stored: None, finding: None });
    let report = engine.process_execution(b"F".to_vec(), &counters, 11, kind);
    assert!(!report.interesting);
    assert_eq!(engine.corpus_count(), 1);
    assert_eq!(engine.solution_count(), 0);
}

#[test]
fn faster_execution_enters_the_corpus() {
    let mut engine = Engine::new(EDGES, 8).unwrap();
    let (counters, kind) = target(b"F");
    engine.process_execution(b"F".to_vec(), &counters, 10, kind);
    let report = engine.process_execution(b"F".to_vec(), &counters, 9, kind);
    assert!(report.interesting);
    assert_eq!(engine.corpus_count(), 2);
    assert_eq!(engine.feedback().best_at(0), Some(9));
}

#[test]
fn crash_and_timeout_enter_the_solution_store() {
    let mut engine = Engine::new(EDGES, 8).unwrap();
    let (counters, kind) = target(b"FUZZ!");
    assert_eq!(kind, ExitKind::Crash);
    let report = engine.process_execution(b"FUZZ!".to_vec(), &counters, 10, kind);
    assert_eq!(report.finding, Some(0));
    let hang = vec![b'H'; 41];
    let (counters, kind) = target(&hang);
    assert_eq!(kind, ExitKind::Timeout);
    let report = engine.process_execution(hang.clone(), &counters, 1_000_000, kind);
    assert_eq!(report.finding, Some(1));
    assert_eq!(engine.solution_count(), 2);
    let first = engine.solutions().get(0).unwrap();
    assert_eq!(first.input, b"FUZZ!".to_vec());
    assert_eq!(first.reason, FindingReason::Crashed);
    let second = engine.solutions().get(1).unwrap();
    assert_eq!(second.input, hang);
    assert_eq!(second.reason, FindingReason::TimedOut);
}

#[test]
fn crashing_input_with_novel_coverage_enters_both_stores() {
    let mut engine = Engine::new(EDGES, 8).unwrap();
    let (counters, kind) = target(b"FUZZ");
    let report = engine.process_execution(b"FUZZ".to_vec(), &counters, 10, kind);
    assert!(report.interesting);
    assert_eq!(report.stored, Some(Placement { index: 0, evicted: None }));
    assert_eq!(report.finding, Some(0));
    assert!(engine.solutions().holds_input(&b"FUZZ".to_vec()));
    assert_eq!(engine.corpus().resident(0), Some(&b"FUZZ".to_vec()));
}

#[test]
fn known_crash_is_recorded_again_but_not_kept_in_the_corpus() {
    let mut engine = Engine::new(EDGES, 8).unwrap();
    let (counters, kind) = target(b"FUZZ");
    engine.process_execution(b"FUZZ".to_vec(), &counters, 10, kind);
    let report = engine.process_execution(b"FUZZ".to_vec(), &counters, 10, kind);
    assert!(!report.interesting);
    assert_eq!(report.finding, Some(1));
    assert_eq!(engine.corpus_count(), 1);
    assert_eq!(engine.solution_count(), 2);
}

#[test]
fn engine_needs_a_working_set() {
    assert_eq!(Engine::new(EDGES, 0).err(), Some(StoreError::ZeroCapacity));
    let engine = Engine::new(EDGES, 1).unwrap();
    assert_eq!(engine.edges(), EDGES);
    assert_eq!(engine.corpus_count(), 0);
    assert_eq!(engine.solution_count(), 0);
}

#[test]
fn seeds_enter_the_corpus_whatever_the_feedback_says() {
    let mut engine = Engine::new(EDGES, 8).unwrap();
    let (counters, kind) = target(b"same");
    let first = engine.add_seed(b"same".to_vec(), &counters, 10, kind);
    let second = engine.add_seed(b"same".to_vec(), &counters, 10, kind);
    assert!(first.interesting);
    assert!(!second.interesting);
    assert_eq!(second.stored, Some(Placement { index: 1, evicted: None }));
    assert_eq!(engine.corpus_count(), 2);
}

#[test]
fn generated_seeds_give_a_corpus_of_at_least_eight_after_one_round() {
    let mut source = RandomSource::seeded(2024);
    let mut fuzzer = Fuzzer::with_defaults(EDGES);
    let mut disk: HashMap<String, Vec<u8>> = HashMap::new();
    let seeds = bootstrap_seeds(&mut source);
    assert_eq!(seeds.len(), 8);
    for seed in seeds {
        assert!(seed.len() <= 32);
        let (counters, kind) = target(&seed);
        disk.insert(input_name(&seed), seed.clone());
        fuzzer.add_seed(seed, &counters, 10, kind).unwrap();
    }
    assert_eq!(fuzzer.engine().corpus_count(), 8);
    let stages = run_round(&mut fuzzer, &mut source, &disk);
    assert!(!stages.is_empty());
    assert!(fuzzer.engine().corpus_count() >= 8);
}

#[test]
fn crashing_seed_gives_exactly_one_solution_with_its_content() {
    let mut fuzzer = Fuzzer::with_defaults(EDGES);
    let seed = b"FUZZ and more".to_vec();
    let (counters, kind) = target(&seed);
    assert_eq!(kind, ExitKind::Crash);
    let report = fuzzer.add_seed(seed.clone(), &counters, 10, kind).unwrap();
    assert_eq!(report.finding, Some(0));
    assert_eq!(fuzzer.engine().solution_count(), 1);
    let record = fuzzer.engine().solutions().get(0).unwrap();
    assert_eq!(record.input, seed);
    assert_eq!(record.reason, FindingReason::Crashed);
}

#[test]
fn persisted_input_reloads_and_executes_to_the_same_coverage() {
    let mut engine = Engine::new(EDGES, 1).unwrap();
    let mut disk: HashMap<String, Vec<u8>> = HashMap::new();
    let first = b"FU-first".to_vec();
    let (before, kind) = target(&first);
    let report = engine.process_execution(first.clone(), &before, 10, kind);
    let index = report.stored.unwrap().index;
    disk.insert(engine.corpus().name(index), first.clone());
    let second = b"FUZ-second".to_vec();
    let (counters, kind) = target(&second);
    let report = engine.process_execution(second.clone(), &counters, 10, kind);
    assert_eq!(report.stored, Some(Placement { index: 1, evicted: Some(0) }));
    assert_eq!(engine.corpus().resident(0), None);
    let name = engine.corpus().name(0);
    let read_back = disk[&name].clone();
    assert_eq!(engine.reload(0, read_back), Ok(Placement { index: 0, evicted: Some(1) }));
    let reloaded = engine.corpus().resident(0).unwrap().clone();
    assert_eq!(reloaded, first);
    let (after, _) = target(&reloaded);
    assert_eq!(after, before);
    assert_eq!(engine.reload(1, b"not what was stored".to_vec()), Err(ReloadError::Mismatch));
}

#[test]
fn stages_run_in_order_and_as_often_as_planned() {
    let mut round = Round::begin(3, 2);
    assert_eq!(round.entry(), 3);
    let mut seen = Vec::new();
    loop {
        let stage = round.stage();
        seen.push(stage);
        match stage {
            Stage::Calibration => round.note_calibration(&vec![1, 2], 10),
            Stage::Tracing => round.note_trace(vec![LoggedComparison { site: 1, operands: Operands::Byte(1, 2, false) }]),
            Stage::InputToState | Stage::Power => round.note_mutant(),
            Stage::Done => break,
        }
    }
    assert_eq!(CALIBRATION_RUNS, 4);
    assert_eq!(
        seen,
        vec![
            Stage::Calibration,
            Stage::Calibration,
            Stage::Calibration,
            Stage::Calibration,
            Stage::Tracing,
            Stage::InputToState,
            Stage::Power,
            Stage::Power,
            Stage::Done,
        ]
    );
    assert_eq!(round.log().len(), 1);
}

#[test]
fn calibration_averages_times_and_flags_varying_coverage() {
    let mut steady = Round::begin(0, 1);
    for micros in [10u64, 20, 30, 41] {
        steady.note_calibration(&vec![1, 0, 1], micros);
    }
    assert_eq!(steady.calibration(), (25, false));
    let mut flaky = Round::begin(0, 1);
    flaky.note_calibration(&vec![1, 0, 1], 8);
    flaky.note_calibration(&vec![1, 0, 1], 8);
    flaky.note_calibration(&vec![1, 1, 1], 8);
    flaky.note_calibration(&vec![1, 0, 1], 8);
    assert_eq!(flaky.calibration(), (8, true));
}

#[test]
fn power_budget_follows_the_score() {
    let mut round = Round::begin(0, 0);
    for _ in 0..4 {
        round.note_calibration(&vec![], 1);
    }
    round.note_trace(vec![]);
    round.note_mutant();
    assert_eq!(round.stage(), Stage::Power);
    round.note_mutant();
    assert_eq!(round.stage(), Stage::Done);
}

#[test]
fn fuzzer_setup_errors() {
    assert_eq!(Fuzzer::new(EDGES, 0, 7, 5).err(), Some(SetupError::ZeroCapacity));
    assert_eq!(Fuzzer::new(EDGES, 1, 0, 5).err(), Some(SetupError::ZeroStackOrPeriod));
    assert_eq!(Fuzzer::new(EDGES, 1, 7, 0).err(), Some(SetupError::ZeroStackOrPeriod));
    assert!(Fuzzer::new(EDGES, 1, 7, 5).is_ok());
}

#[test]
fn fuzzer_without_corpus_is_idle() {
    let mut fuzzer = Fuzzer::with_defaults(EDGES);
    let mut source = RandomSource::seeded(1);
    assert!(matches!(fuzzer.next_action(&mut source), Action::Idle));
    assert!(!fuzzer.in_flight());
    assert_eq!(fuzzer.stage(), None);
    assert_eq!(
        fuzzer.handle(&[0u8; EDGES], 1, ExitKind::Normal, vec![]),
        Err(HandleError::NothingInFlight)
    );
}

#[test]
fn fuzzer_rejects_counters_of_another_length() {
    let mut fuzzer = Fuzzer::with_defaults(EDGES);
    let mut source = RandomSource::seeded(1);
    assert_eq!(
        fuzzer.add_seed(vec![1], &[0u8; 3], 1, ExitKind::Normal),
        Err(ConfigError::LengthMismatch { expected: EDGES, found: 3 })
    );
    let (counters, kind) = target(b"seed");
    fuzzer.add_seed(b"seed".to_vec(), &counters, 10, kind).unwrap();
    assert!(matches!(fuzzer.next_action(&mut source), Action::Execute { .. }));
    assert_eq!(
        fuzzer.handle(&[0u8; 3], 1, ExitKind::Normal, vec![]),
        Err(HandleError::Config(ConfigError::LengthMismatch { expected: EDGES, found: 3 }))
    );
    assert!(fuzzer.in_flight());
}

#[test]
fn fuzzer_hands_the_same_input_out_until_it_is_handled() {
    let mut fuzzer = Fuzzer::with_defaults(EDGES);
    let mut source = RandomSource::seeded(5);
    let (counters, kind) = target(b"seed");
    fuzzer.add_seed(b"seed".to_vec(), &counters, 10, kind).unwrap();
    let first = match fuzzer.next_action(&mut source) {
        Action::Execute { input, tracing } => (input, tracing),
        _ => panic!("an input was expected"),
    };
    let again = match fuzzer.next_action(&mut source) {
        Action::Execute { input, tracing } => (input, tracing),
        _ => panic!("an input was expected"),
    };
    assert_eq!(first, again);
    assert_eq!(first, (b"seed".to_vec(), false));
}

#[test]
fn round_of_the_fuzzer_goes_through_all_stages_in_order() {
    let mut fuzzer = Fuzzer::with_defaults(EDGES);
    let mut source = RandomSource::seeded(77);
    let disk: HashMap<String, Vec<u8>> = HashMap::new();
    let (counters, kind) = target(b"seed");
    fuzzer.add_seed(b"seed".to_vec(), &counters, 10, kind).unwrap();
    let stages = run_round(&mut fuzzer, &mut source, &disk);
    assert_eq!(&stages[..6], &[
        Stage::Calibration,
        Stage::Calibration,
        Stage::Calibration,
        Stage::Calibration,
        Stage::Tracing,
        Stage::InputToState,
    ]);
    assert!(stages.len() > 6);
    assert!(stages[6..].iter().all(|s| *s == Stage::Power));
    assert_eq!(fuzzer.stage(), Some(Stage::Done));
}

#[test]
fn replacement_stage_uses_the_log_of_the_tracing_run() {
    let mut fuzzer = Fuzzer::with_defaults(EDGES);
    let mut source = RandomSource::seeded(4);
    let (counters, kind) = target(b"Fabc");
    fuzzer.add_seed(b"Fabc".to_vec(), &counters, 10, kind).unwrap();
    loop {
        let (input, tracing) = match fuzzer.next_action(&mut source) {
            Action::Execute { input, tracing } => (input, tracing),
            _ => panic!("an input was expected"),
        };
        let stage = fuzzer.stage().unwrap();
        if stage == Stage::InputToState {
            assert_eq!(input.len(), 4);
            let changed: Vec<usize> = (0..4).filter(|&k| input[k] != b"Fabc"[k]).collect();
            assert!(changed.len() <= 1);
            for k in changed {
                assert_eq!(input[k], b"FUZZ"[k]);
            }
            break;
        }
        assert_eq!(input, b"Fabc".to_vec());
        assert_eq!(tracing, stage == Stage::Tracing);
        let (counters, kind) = target(&input);
        fuzzer.handle(&counters, 10, kind, if tracing { trace(&input) } else { vec![] }).unwrap();
    }
}

#[test]
fn fuzzing_finds_the_crash_and_keeps_what_led_to_it() {
    let mut fuzzer = Fuzzer::with_defaults(EDGES);
    let mut source = RandomSource::seeded(31337);
    let mut disk: HashMap<String, Vec<u8>> = HashMap::new();
    for seed in [b"aaaa".to_vec(), b"F...".to_vec()] {
        let (counters, kind) = target(&seed);
        disk.insert(input_name(&seed), seed.clone());
        fuzzer.add_seed(seed, &counters, 10, kind).unwrap();
    }
    let mut rounds = 0;
    while fuzzer.engine().solution_count() == 0 && rounds < 200 {
        run_round(&mut fuzzer, &mut source, &disk);
        rounds += 1;
    }
    assert!(fuzzer.engine().solution_count() > 0);
    let found = fuzzer.engine().solutions().get(0).unwrap();
    assert_eq!(&found.input[..4], b"FUZZ");
    assert_eq!(found.reason, FindingReason::Crashed);
    assert!(fuzzer.engine().corpus_count() > 2);
}

#[test]
fn tokens_are_installed_once_at_start() {
    let mut fuzzer = Fuzzer::with_defaults(EDGES);
    fuzzer.install_tokens(TokenDictionary::new());
    let mut harvested = TokenDictionary::new();
    harvested.add(&b"FUZZ".to_vec());
    fuzzer.install_tokens(harvested);
    let mut late = TokenDictionary::new();
    late.add(&b"other".to_vec());
    fuzzer.install_tokens(late);
    let mut source = RandomSource::seeded(8);
    let disk: HashMap<String, Vec<u8>> = HashMap::new();
    let (counters, kind) = target(b"x");
    fuzzer.add_seed(b"x".to_vec(), &counters, 10, kind).unwrap();
    let mut spliced = false;
    for _ in 0..50 {
        loop {
            match fuzzer.next_action(&mut source) {
                Action::Execute { input, tracing } => {
                    assert!(!input.windows(5).any(|w| w == b"other"));
                    if input.windows(4).any(|w| w == b"FUZZ") {
                        spliced = true;
                    }
                    let (counters, kind) = target(&input);
                    fuzzer.handle(&counters, 10, kind, if tracing { trace(&input) } else { vec![] }).unwrap();
                }
                Action::Load { index, name } => {
                    let bytes: &Vec<u8> = &disk[&name];
                    fuzzer.reload(index, bytes.clone()).unwrap();
                }
                Action::Idle => break,
            }
            if fuzzer.stage() == Some(Stage::Done) {
                break;
            }
        }
    }
    assert!(spliced);
}

#[test]
fn evicted_entry_is_asked_for_before_it_is_worked_on() {
    let mut fuzzer = Fuzzer::new(EDGES, 1, 7, 5).unwrap();
    let mut source = RandomSource::seeded(6);
    let mut disk: HashMap<String, Vec<u8>> = HashMap::new();
    for seed in [b"F".to_vec(), b"FU".to_vec(), b"FUZ".to_vec()] {
        let (counters, kind) = target(&seed);
        disk.insert(input_name(&seed), seed.clone());
        fuzzer.add_seed(seed, &counters, 10, kind).unwrap();
    }
    let mut loads = 0;
    for _ in 0..30 {
        loop {
            match fuzzer.next_action(&mut source) {
                Action::Execute { input, tracing } => {
                    let (counters, kind) = target(&input);
                    disk.insert(input_name(&input), input.clone());
                    fuzzer.handle(&counters, 10, kind, if tracing { trace(&input) } else { vec![] }).unwrap();
                }
                Action::Load { index, name } => {
                    assert_eq!(fuzzer.engine().corpus().resident(index), None);
                    assert_eq!(name, fuzzer.engine().corpus().name(index));
                    fuzzer.reload(index, disk[&name].clone()).unwrap();
                    assert!(fuzzer.engine().corpus().resident(index).is_some());
                    loads += 1;
                }
                Action::Idle => break,
            }
            if fuzzer.stage() == Some(Stage::Done) {
                break;
            }
        }
    }
    assert!(loads > 0);
}

#[test]
fn input_of_another_client_is_judged_like_a_mutant() {
    let mut fuzzer = Fuzzer::with_defaults(EDGES);
    let (counters, kind) = target(b"FU");
    let first = fuzzer.import_input(b"FU".to_vec(), &counters, 10, kind).unwrap();
    assert!(first.interesting);
    assert_eq!(first.stored, Some(Placement { index: 0, evicted: None }));
    let second = fuzzer.import_input(b"FU".to_vec(), &counters, 10, kind).unwrap();
    assert_eq!(second, Report { interesting: false, stored: None, finding: None });
    assert_eq!(
        fuzzer.import_input(b"FU".to_vec(), &[1u8, 2], 10, kind),
        Err(ConfigError::LengthMismatch { expected: EDGES, found: 2 })
    );
    assert_eq!(fuzzer.engine().corpus_count(), 1);
}

#[test]
fn finding_of_another_client_is_taken_once() {
    let mut fuzzer = Fuzzer::with_defaults(EDGES);
    assert!(fuzzer.import_finding(b"boom".to_vec(), FindingReason::Crashed));
    assert!(!fuzzer.import_finding(b"boom".to_vec(), FindingReason::TimedOut));
    assert!(fuzzer.import_finding(b"hang".to_vec(), FindingReason::TimedOut));
    assert_eq!(fuzzer.engine().solution_count(), 2);
    assert_eq!(fuzzer.engine().solutions().get(0).unwrap().reason, FindingReason::Crashed);
}

#[test]
fn scheduling_through_the_engine_matches_the_scheduler() {
    let mut engine = Engine::new(4, 8).unwrap();
    engine.add_seed(vec![0; 4], &vec![1, 1, 0, 0], 100, ExitKind::Normal);
    engine.add_seed(vec![0; 2], &vec![1, 0, 0, 0], 100, ExitKind::Normal);
    engine.add_seed(vec![0; 8], &vec![0, 0, 1, 0], 100, ExitKind::Normal);
    engine.add_seed(vec![0; 16], &vec![1, 1, 0, 0], 100, ExitKind::Normal);
    assert_eq!(engine.score_of(0), 800);
    assert_eq!(engine.score_of(1), 533);
    assert_eq!(engine.score_of(2), 1600);
    assert!(engine.is_redundant(3));
    assert!(!engine.is_redundant(1));
    assert_eq!(engine.select(3u64 << 61), Some(1));
    engine.calibrate(2, 100, true);
    assert_eq!(engine.score_of(2), 400);
}

#[test]
fn a_crash_in_a_calibration_or_tracing_run_is_filed() {
    let mut fuzzer = Fuzzer::with_defaults(EDGES);
    let mut source = RandomSource::seeded(12);
    let seed = b"FUZZ".to_vec();
    let (counters, kind) = target(&seed);
    fuzzer.add_seed(seed.clone(), &counters, 10, kind).unwrap();
    assert_eq!(fuzzer.engine().solution_count(), 1);
    for run in 0..5usize {
        let (input, tracing) = match fuzzer.next_action(&mut source) {
            Action::Execute { input, tracing } => (input, tracing),
            _ => panic!("an input was expected"),
        };
        assert_eq!(input, seed);
        assert_eq!(tracing, run == 4);
        let (counters, kind) = target(&input);
        let report = fuzzer.handle(&counters, 10, kind, trace(&input)).unwrap();
        assert_eq!(report, Report { interesting: false, stored: None, finding: Some(run + 1) });
        assert_eq!(fuzzer.engine().solutions().get(run + 1).unwrap().input, seed);
    }
    assert_eq!(fuzzer.engine().solution_count(), 6);
    assert_eq!(fuzzer.engine().corpus_count(), 1);
}

#[test]
fn a_timeout_in_a_calibration_run_is_filed_and_a_normal_run_is_not() {
    let mut fuzzer = Fuzzer::with_defaults(EDGES);
    let mut source = RandomSource::seeded(12);
    let (counters, kind) = target(b"seed");
    fuzzer.add_seed(b"seed".to_vec(), &counters, 10, kind).unwrap();
    assert!(matches!(fuzzer.next_action(&mut source), Action::Execute { .. }));
    let quiet = fuzzer.handle(&counters, 10, ExitKind::Normal, vec![]).unwrap();
    assert_eq!(quiet, Report { interesting: false, stored: None, finding: None });
    assert!(matches!(fuzzer.next_action(&mut source), Action::Execute { .. }));
    let hung = fuzzer.handle(&counters, 2_000_000, ExitKind::Timeout, vec![]).unwrap();
    assert_eq!(hung.finding, Some(0));
    let record = fuzzer.engine().solutions().get(0).unwrap();
    assert_eq!(record.input, b"seed".to_vec());
    assert_eq!(record.reason, FindingReason::TimedOut);
}

#[test]
fn the_loop_is_fixed_by_the_draws_of_the_source() {
    let mut runs: Vec<Vec<(Vec<u8>, bool)>> = Vec::new();
    for seed in [3u64, 3, 4] {
        let mut fuzzer = Fuzzer::with_defaults(EDGES);
        let mut source = RandomSource::seeded(seed);
        for input in [b"F".to_vec(), b"xy".to_vec(), b"FUabc".to_vec()] {
            let (counters, kind) = target(&input);
            fuzzer.add_seed(input, &counters, 10, kind).unwrap();
        }
        let mut handed = Vec::new();
        while handed.len() < 60 {
            match fuzzer.next_action(&mut source) {
                Action::Execute { input, tracing } => {
                    let (counters, kind) = target(&input);
                    fuzzer.handle(&counters, 10, kind, if tracing { trace(&input) } else { vec![] }).unwrap();
                    handed.push((input, tracing));
                }
                _ => panic!("an input was expected"),
            }
        }
        runs.push(handed);
    }
    assert_eq!(runs[0], runs[1]);
    assert_ne!(runs[0], runs[2]);
}

#[test]
fn a_new_round_works_on_the_entry_that_the_first_draw_selects() {
    for seed in 0..20u64 {
        let mut fuzzer = Fuzzer::with_defaults(EDGES);
        let mut engine = Engine::new(EDGES, 4096).unwrap();
        let inputs = [b"F".to_vec(), b"xy".to_vec(), b"FUabc".to_vec(), b"FUZ".to_vec()];
        for input in &inputs {
            let (counters, kind) = target(input);
            fuzzer.add_seed(input.clone(), &counters, 10, kind).unwrap();
            engine.add_seed(input.clone(), &counters, 10, kind);
        }
        let mut source = RandomSource::seeded(seed);
        let mut twin = RandomSource::seeded(seed);
        let picked = engine.select(twin.draw()).unwrap();
        match fuzzer.next_action(&mut source) {
            Action::Execute { input, tracing } => {
                assert_eq!(input, inputs[picked]);
                assert!(!tracing);
            }
            _ => panic!("an input was expected"),
        }
        assert_eq!(source.draw(), twin.draw());
    }
}
