//! What the orchestrator of a campaign decides: which clients there are and
//! where each is bound, where each keeps its stores, how the first corpus
//! comes about, and how the end of a run is to be read.
//!
//! Starting processes, binding them to cores and moving bytes between them
//! is the caller's part.

use crate::random::after;
use crate::random::lemma_after_adds_up;
use crate::random::RandomSource;
use libafl::generators::Generator;
use libafl::generators::RandPrintablesGenerator;
use libafl::inputs::BytesInput;
use libafl::state::HasRand;
use libafl::state::NopState;
use libafl_bolts::rands::Rand;
use std::num::NonZeroUsize;
use vstd::prelude::*;

verus! {

/// The number of seeds made when there is none to load.
pub const SEED_COUNT: usize = 8;

/// The greatest length of a seed that is made.
pub const SEED_MAX_LEN: usize = 32;

/// The time a single execution may take, in milliseconds.
pub const EXECUTION_TIMEOUT_MILLIS: u64 = 1000;

/// One client of a campaign. It keeps its number and its core for as long as
/// it lives.
#[derive(Clone, Copy, Debug, PartialEq, Eq, Structural)]
pub struct ClientDescriptor {
    /// The number of the client, which names its corpus directory.
    pub id: usize,
    /// The core the client is bound to, if it is bound.
    pub core: Option<usize>,
}

/// Where the clients of a campaign are to run.
#[derive(Clone, Debug)]
pub enum CoreBinding {
    /// One client, bound to no core.
    Unbound,
    /// One client on each of these cores.
    Cores(Vec<usize>),
}

/// Why no clients could be planned.
#[derive(Clone, Copy, Debug, PartialEq, Eq, Structural)]
pub enum PlanError {
    /// The list of cores is empty.
    NoCores,
    /// A core is listed twice; two clients cannot share a core.
    DuplicateCore { core: usize },
}

/// Whether no core occurs twice.
pub open spec fn distinct_cores(cores: Seq<usize>) -> bool {
    forall|i: int, j: int| 0 <= i < j < cores.len() ==> #[trigger] cores[i] != #[trigger] cores[j]
}

/// The clients for a list of cores: client `k` runs on the `k`-th core.
pub open spec fn clients_on(cores: Seq<usize>) -> Seq<ClientDescriptor> {
    Seq::new(cores.len(), |k: int| ClientDescriptor { id: k as usize, core: Some(cores[k]) })
}

/// Finds a core that occurs twice, if there is one.
fn repeated_core(cores: &Vec<usize>) -> (found: Option<usize>)
    ensures
        found is None <==> distinct_cores(cores@),
        found is Some ==> exists|i: int, j: int|
            0 <= i < j < cores.len() && cores@[i] == found->0 && cores@[j] == found->0,
{
    let mut j: usize = 0;
    while j < cores.len()
        invariant
            j <= cores.len(),
            distinct_cores(cores@.take(j as int)),
        decreases cores.len() - j,
    {
        let mut i: usize = 0;
        while i < j
            invariant
                i <= j,
                j < cores.len(),
                forall|k: int| 0 <= k < i ==> cores@[k] != cores@[j as int],
            decreases j - i,
        {
            if cores[i] == cores[j] {
                return Some(cores[j]);
            }
            i = i + 1;
        }
        proof {
            let longer = cores@.take(j as int + 1);
            let shorter = cores@.take(j as int);
            assert forall|a: int, b: int| 0 <= a < b < longer.len() implies #[trigger] longer[a]
                != #[trigger] longer[b] by {
                if b < j {
                    assert(shorter[a] != shorter[b]);
                }
            }
        }
        j = j + 1;
    }
    assert(cores@.take(cores.len() as int) =~= cores@);
    None
}

/// Plans the clients of a campaign. Without binding there is one client, on
/// no core. With a list of cores there is one client for each core, numbered
/// in the order of the list; the list must not be empty and must not name a
/// core twice.
pub fn plan_clients(binding: &CoreBinding) -> (plan: Result<Vec<ClientDescriptor>, PlanError>)
    ensures
        match binding {
            CoreBinding::Unbound => plan is Ok && plan->Ok_0@ == seq![
                ClientDescriptor { id: 0, core: None },
            ],
            CoreBinding::Cores(cores) => {
                &&& cores@.len() == 0 ==> plan == Err::<Vec<ClientDescriptor>, PlanError>(
                    PlanError::NoCores,
                )
                &&& cores@.len() > 0 && !distinct_cores(cores@) ==> plan is Err
                    && plan->Err_0 is DuplicateCore && exists|i: int, j: int|
                    0 <= i < j < cores@.len() && cores@[i] == plan->Err_0->core && cores@[j]
                        == plan->Err_0->core
                &&& cores@.len() > 0 && distinct_cores(cores@) ==> plan is Ok && plan->Ok_0@
                    == clients_on(cores@)
            },
        },
{
    match binding {
        CoreBinding::Unbound => {
            let mut clients: Vec<ClientDescriptor> = Vec::new();
            clients.push(ClientDescriptor { id: 0, core: None });
            assert(clients@ =~= seq![ClientDescriptor { id: 0, core: None }]);
            Ok(clients)
        },
        CoreBinding::Cores(cores) => {
            if cores.len() == 0 {
                return Err(PlanError::NoCores);
            }
            match repeated_core(cores) {
                Some(core) => Err(PlanError::DuplicateCore { core }),
                None => {
                    let mut clients: Vec<ClientDescriptor> = Vec::new();
                    let mut k: usize = 0;
                    while k < cores.len()
                        invariant
                            k <= cores.len(),
                            clients@.len() == k,
                            forall|l: int|
                                0 <= l < k ==> clients@[l] == (ClientDescriptor {
                                    id: l as usize,
                                    core: Some(cores@[l]),
                                }),
                        decreases cores.len() - k,
                    {
                        clients.push(ClientDescriptor { id: k, core: Some(cores[k]) });
                        k = k + 1;
                    }
                    assert(clients@ =~= clients_on(cores@));
                    Ok(clients)
                },
            }
        },
    }
}

/// In a plan no two clients have the same number, and none shares its core.
pub proof fn lemma_planned_clients_are_apart(cores: Seq<usize>, a: int, b: int)
    requires
        distinct_cores(cores),
        cores.len() <= usize::MAX,
        0 <= a < b < cores.len(),
    ensures
        clients_on(cores)[a].id != clients_on(cores)[b].id,
        clients_on(cores)[a].core != clients_on(cores)[b].core,
{
    assert(cores[a] != cores[b]);
}

/// How the first corpus of a client comes about.
#[derive(Clone, Copy, Debug, PartialEq, Eq, Structural)]
pub enum SeedPlan {
    /// The client has a corpus already: nothing is loaded or made.
    Keep,
    /// Every file of the input directory is loaded as a seed.
    Load { files: usize },
    /// Seeds are made: `count` of them, each of printable bytes and at most
    /// `max_len` long.
    Generate { count: usize, max_len: usize },
}

/// The plan for the seeds of a client. `fresh` says that the client starts
/// without a corpus; `files` is the number of files in the input directory.
pub open spec fn seed_plan_for(fresh: bool, files: usize) -> SeedPlan {
    if !fresh {
        SeedPlan::Keep
    } else if files > 0 {
        SeedPlan::Load { files }
    } else {
        SeedPlan::Generate { count: SEED_COUNT, max_len: SEED_MAX_LEN }
    }
}

/// Decides how the first corpus of a client comes about.
pub fn seed_plan(fresh: bool, files: usize) -> (plan: SeedPlan)
    ensures
        plan == seed_plan_for(fresh, files),
{
    if !fresh {
        SeedPlan::Keep
    } else if files > 0 {
        SeedPlan::Load { files }
    } else {
        SeedPlan::Generate { count: SEED_COUNT, max_len: SEED_MAX_LEN }
    }
}

/// Whether a byte is one the seed generator uses: a visible character of
/// ASCII, a blank, a tab or a line feed.
pub open spec fn printable(byte: u8) -> bool {
    byte == 9 || byte == 10 || (32 <= byte && byte <= 126)
}

/// Whether `bytes` can be a made seed of at most `max_len` bytes.
pub open spec fn made_seed(bytes: Seq<u8>, max_len: usize) -> bool {
    &&& 1 <= bytes.len() <= max_len
    &&& forall|k: int| 0 <= k < bytes.len() ==> printable(#[trigger] bytes[k])
}

/// What `RandPrintablesGenerator::generate` of `libafl` returns when it was
/// made for at most `max_len` bytes and the generator of its state was
/// seeded with `seed`.
pub uninterp spec fn made(max_len: usize, seed: u64) -> Seq<u8>;

/// `RandPrintablesGenerator::generate` of `libafl`: between one and
/// `max_len` bytes, each drawn from the digits, the letters, the
/// punctuation marks, blank, tab and line feed.
#[verifier::external_body]
fn printable_input(max_len: usize, seed: u64) -> (bytes: Vec<u8>)
    requires
        max_len > 0,
    ensures
        bytes@ == made(max_len, seed),
        made_seed(bytes@, max_len),
{
    let mut state = NopState::<BytesInput>::new();
    state.rand_mut().set_seed(seed);
    let mut generator = RandPrintablesGenerator::new(NonZeroUsize::new(max_len).unwrap());
    generator.generate(&mut state).unwrap().into_inner()
}

/// Makes the seeds of a client that has none to load: eight inputs of
/// printable bytes, none longer than 32 bytes and none empty. Seed number
/// `i` is what the generator makes of draw number `i` of the source.
pub fn bootstrap_seeds(source: &mut RandomSource) -> (seeds: Vec<Vec<u8>>)
    ensures
        seeds@.len() == SEED_COUNT,
        forall|i: int|
            0 <= i < seeds@.len() ==> (#[trigger] seeds@[i])@ == made(
                SEED_MAX_LEN,
                old(source).ahead()[i as nat],
            ) && made_seed(seeds@[i]@, SEED_MAX_LEN),
        final(source).ahead() == after(old(source).ahead(), SEED_COUNT as nat),
{
    let ghost draws = source.ahead();
    let mut seeds: Vec<Vec<u8>> = Vec::new();
    let mut i: usize = 0;
    while i < SEED_COUNT
        invariant
            i <= SEED_COUNT,
            seeds@.len() == i,
            i > 0 ==> source.ahead() == after(draws, i as nat),
            i == 0 ==> source.ahead() == draws,
            forall|k: int|
                0 <= k < i ==> (#[trigger] seeds@[k])@ == made(SEED_MAX_LEN, draws[k as nat])
                    && made_seed(seeds@[k]@, SEED_MAX_LEN),
        decreases SEED_COUNT - i,
    {
        proof {
            lemma_after_adds_up(draws, 0, i as nat);
            lemma_after_adds_up(draws, i as nat, 1);
        }
        let seed = printable_input(SEED_MAX_LEN, source.draw());
        seeds.push(seed);
        i = i + 1;
    }
    seeds
}

/// Why a campaign cannot start.
#[derive(Clone, Copy, Debug, PartialEq, Eq, Structural)]
pub enum StartupError {
    /// The target's own initialization reported failure.
    Initialization,
    /// The memory shared between the processes could not be set up.
    SharedMemory,
}

/// The status with which the target's initialization reports failure.
pub const INITIALIZATION_FAILED: i32 = -1;

/// Decides whether a campaign may start, given the status the target's
/// initialization returned and whether the shared memory is set up. If it
/// may not, no client is started and the target is never executed.
pub fn startup(status: i32, shared_memory: bool) -> (ready: Result<(), StartupError>)
    ensures
        status == INITIALIZATION_FAILED ==> ready == Err::<(), StartupError>(
            StartupError::Initialization,
        ),
        status != INITIALIZATION_FAILED && !shared_memory ==> ready == Err::<(), StartupError>(
            StartupError::SharedMemory,
        ),
        status != INITIALIZATION_FAILED && shared_memory ==> ready is Ok,
{
    if status == INITIALIZATION_FAILED {
        Err(StartupError::Initialization)
    } else if !shared_memory {
        Err(StartupError::SharedMemory)
    } else {
        Ok(())
    }
}

/// What the launcher of a campaign came back with.
#[derive(Clone, Copy, Debug, PartialEq, Eq, Structural)]
pub enum LaunchOutcome {
    /// It returned without error.
    Completed,
    /// It returned the error that reports a stop asked for by the user.
    ShutDown,
    /// It returned any other error.
    Broke,
}

/// How a run of the campaign ended.
#[derive(Clone, Copy, Debug, PartialEq, Eq, Structural)]
pub enum RunEnd {
    /// The run came to its end by itself.
    Completed,
    /// The user asked for the run to stop.
    StoppedByUser,
    /// The run broke off with an error, or could not start.
    Failed,
}

/// How a run that went by `outcome` ended.
pub open spec fn end_of(outcome: LaunchOutcome) -> RunEnd {
    match outcome {
        LaunchOutcome::Completed => RunEnd::Completed,
        LaunchOutcome::ShutDown => RunEnd::StoppedByUser,
        LaunchOutcome::Broke => RunEnd::Failed,
    }
}

/// Reads what the launcher came back with. A stop asked for by the user is
/// no failure; every other error is.
pub fn run_end(outcome: LaunchOutcome) -> (end: RunEnd)
    ensures
        end == end_of(outcome),
{
    match outcome {
        LaunchOutcome::Completed => RunEnd::Completed,
        LaunchOutcome::ShutDown => RunEnd::StoppedByUser,
        LaunchOutcome::Broke => RunEnd::Failed,
    }
}

/// The status with which the process leaves after a run: zero unless the
/// run failed.
pub fn exit_status(end: RunEnd) -> (status: i32)
    ensures
        status == 0 <==> end != RunEnd::Failed,
        end == RunEnd::Failed ==> status == 1,
{
    match end {
        RunEnd::Completed => 0,
        RunEnd::StoppedByUser => 0,
        RunEnd::Failed => 1,
    }
}

} // verus!
