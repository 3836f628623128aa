use covfuzz::feedback::FeedbackState;
use libafl::events::NopEventManager;
use libafl::executors::ExitKind;
use libafl::feedbacks::{Feedback, MapFeedbackMetadata, MaxMapFeedback, StateInitializer};
use libafl::inputs::BytesInput;
use libafl::observers::StdMapObserver;
use libafl::state::NopState;
use libafl::HasNamedMetadata;

fn maximising_map_feedback_fires(recorded: &[u8], observed: &[u8]) -> bool {
    let observer = StdMapObserver::<u8, false>::owned("edges", observed.to_vec());
    let mut feedback = MaxMapFeedback::new(&observer);
    let mut state = NopState::<BytesInput>::new();
    feedback.init_state(&mut state).unwrap();
    state
        .named_metadata_mut::<MapFeedbackMetadata<u8>>("edges")
        .unwrap()
        .history_map = recorded.to_vec();
    let mut manager = NopEventManager::new();
    let observers = (observer, ());
    feedback
        .is_interesting(&mut state, &mut manager, &BytesInput::new(vec![]), &observers, &ExitKind::Ok)
        .unwrap()
}

fn next(state: &mut u64) -> u64 {
    *state = state.wrapping_mul(6364136223846793005).wrapping_add(1442695040888963407);
    *state ^ (*state >> 29)
}

#[test]
fn map_feedback_agrees_with_the_maximising_map_feedback() {
    let mut lcg = 17u64;
    let mut fired = 0;
    for round in 0..400usize {
        let edges = 1 + round % 70;
        let recorded: Vec<u8> = (0..edges).map(|_| (next(&mut lcg) >> 30) as u8 % 4).collect();
        let observed: Vec<u8> = (0..edges).map(|_| (next(&mut lcg) >> 30) as u8 % 4).collect();
        let mut state = FeedbackState::new(edges);
        state.evaluate(&recorded, u64::MAX);
        let ours = state.has_novelty(&observed);
        assert_eq!(ours, maximising_map_feedback_fires(&recorded, &observed));
        if ours {
            fired += 1;
        }
    }
    assert!(fired > 50 && fired < 390);
}
