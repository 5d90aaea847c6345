//! The verification driver of a single-chain dispute, as a state machine.
//!
//! The machine decides; its environment performs each action the machine asks
//! for and reports the outcome as an event.

use crate::boot::BootInfo;
use crate::errors::{FaultProofProgramError, OracleProviderError};
use crate::hint::{concat_parts, spec_encode_hint, Hint, HintType};
use crate::key::{PreimageKey, PreimageKeyType};
use crate::lru::{lemma_read_ages, lru_lookup, Entries};
use crate::oracle::{
    spec_sent_by_read, CachingOracle, ChannelOp, HintWriterClient, PreimageOracleClient,
};
use crate::primitives::B256;
use vstd::prelude::*;
use vstd::slice::slice_subrange;

verus! {

/// The length of an output root's preimage.
pub const OUTPUT_PREIMAGE_LEN: usize = 128;

/// The safe head's block hash in the preimage of an output root: the 32
/// bytes from offset 96 on. A preimage that ends before offset 128 holds
/// none.
pub open spec fn spec_safe_head_hash(preimage: Seq<u8>) -> Option<Seq<u8>> {
    if preimage.len() >= 128 {
        Some(preimage.subrange(96, 128))
    } else {
        None
    }
}

/// Reads the safe head's block hash from the preimage of an output root.
pub fn decode_safe_head_hash(preimage: &[u8]) -> (r: Result<B256, OracleProviderError>)
    ensures
        match spec_safe_head_hash(preimage@) {
            Some(hash) => r matches Ok(h) && h@ == hash,
            None => r == Err::<B256, OracleProviderError>(OracleProviderError::SliceConversion),
        },
{
    if preimage.len() < 128 {
        return Err(OracleProviderError::SliceConversion);
    }
    match B256::from_slice(slice_subrange(preimage, 96, 128)) {
        Some(hash) => Ok(hash),
        None => Err(OracleProviderError::SliceConversion),
    }
}

/// A read through the oracle: the hint that announces it, the key, and the
/// number of bytes to read.
#[derive(Clone, Debug, PartialEq, Eq)]
pub struct OracleRequest {
    pub hint: Hint,
    pub key: PreimageKey,
    pub len: usize,
}

/// The read that brings the preimage of the agreed output root: announced
/// by a hint of type `StartingL2Output` whose payload is the root, made
/// under the root's Keccak-256 key, for 128 bytes.
pub fn safe_head_request(agreed_l2_output_root: B256) -> (r: OracleRequest)
    ensures
        r.hint@ == (HintType::StartingL2Output, agreed_l2_output_root@),
        r.key == PreimageKey::spec_key(PreimageKeyType::Keccak256, agreed_l2_output_root@),
        r.len == 128,
{
    let root: &[u8] = agreed_l2_output_root.bytes.as_slice();
    let parts: [&[u8]; 1] = [root];
    let hint = HintType::StartingL2Output.with_data(parts.as_slice());
    proof {
        assert(parts@.drop_last() =~= Seq::<&[u8]>::empty());
        assert(concat_parts(parts@.drop_last()) =~= Seq::<u8>::empty());
        assert(parts@.last() == root);
        assert(concat_parts(parts@) =~= agreed_l2_output_root@);
    }
    OracleRequest {
        hint,
        key: PreimageKey::new_keccak256(agreed_l2_output_root.bytes),
        len: OUTPUT_PREIMAGE_LEN,
    }
}

/// The wire form of the hint that announces the read of an output root's
/// preimage.
pub open spec fn spec_starting_output_hint(agreed_l2_output_root: B256) -> Seq<char> {
    spec_encode_hint((HintType::StartingL2Output, agreed_l2_output_root@))
}

/// What a fetch of the safe head's hash hands to the channel: first the
/// hint, then, where the hint went out and the cache does not hold the
/// key, one read of 128 bytes under the key.
pub open spec fn spec_safe_head_traffic(
    sent: Seq<ChannelOp>,
    cache: Entries,
    agreed_l2_output_root: B256,
    key: PreimageKey,
    hint_went_out: bool,
) -> Seq<ChannelOp> {
    let hinted = sent.push(ChannelOp::Hint(spec_starting_output_hint(agreed_l2_output_root)));
    if hint_went_out {
        spec_sent_by_read(hinted, cache, key, OUTPUT_PREIMAGE_LEN)
    } else {
        hinted
    }
}

/// Fetches the hash of the safe head: sends the hint of `safe_head_request`
/// in its wire form, then makes the read of that request, and takes the
/// hash from the bytes with `decode_safe_head_hash`.
///
/// The hint is handed to the channel first, and always. The read follows
/// only where the hint went out, and reaches the channel only where the
/// cache does not hold the key. The channel decides whether the hint and
/// the read succeed, and a failure of either is returned as it came. Where
/// the whole succeeds, the preimage is cached under the request's key and
/// the hash is the one that `spec_safe_head_hash` finds in it.
pub fn fetch_safe_head_hash<OR: PreimageOracleClient, HW: HintWriterClient>(
    caching_oracle: &mut CachingOracle<OR, HW>,
    agreed_l2_output_root: B256,
) -> (r: Result<B256, OracleProviderError>)
    ensures
        final(caching_oracle).cache.spec_capacity() == old(caching_oracle).cache.spec_capacity(),
        ({
            let key = PreimageKey::spec_key(PreimageKeyType::Keccak256, agreed_l2_output_root@);
            let hint_alone = spec_safe_head_traffic(
                old(caching_oracle).sent(),
                old(caching_oracle).cache@,
                agreed_l2_output_root,
                key,
                false,
            );
            let hint_then_read = spec_safe_head_traffic(
                old(caching_oracle).sent(),
                old(caching_oracle).cache@,
                agreed_l2_output_root,
                key,
                true,
            );
            &&& final(caching_oracle).sent() == hint_alone || final(caching_oracle).sent()
                == hint_then_read
            &&& r is Ok ==> final(caching_oracle).sent() == hint_then_read
            &&& r matches Ok(hash) ==> (match lru_lookup(final(caching_oracle).cache@, key) {
                Some(preimage) => preimage.len() == 128 && spec_safe_head_hash(preimage) == Some(
                    hash@,
                ),
                None => false,
            })
        }),
        r matches Err(e) ==> e is Preimage,
{
    let request = safe_head_request(agreed_l2_output_root);
    let key = request.key;
    let ghost sent = caching_oracle.sent();
    let ghost cache = caching_oracle.cache@;
    let wire = request.hint.encode();
    match caching_oracle.write(wire.as_str()) {
        Ok(_) => {},
        Err(e) => {
            assert(caching_oracle.sent() == spec_safe_head_traffic(
                sent,
                cache,
                agreed_l2_output_root,
                key,
                false,
            ));
            return Err(OracleProviderError::Preimage(e));
        },
    }
    let ghost before = caching_oracle.cache@;
    let capacity = caching_oracle.cache.capacity();
    match caching_oracle.get_exact(key, request.len) {
        Ok(preimage) => {
            proof {
                lemma_read_ages(before, capacity as nat, key, preimage@, key, 0);
                assert(caching_oracle.sent() == spec_safe_head_traffic(
                    sent,
                    cache,
                    agreed_l2_output_root,
                    key,
                    true,
                ));
            }
            decode_safe_head_hash(preimage.as_slice())
        },
        Err(e) => {
            assert(caching_oracle.sent() == spec_safe_head_traffic(
                sent,
                cache,
                agreed_l2_output_root,
                key,
                true,
            ));
            Err(OracleProviderError::Preimage(e))
        },
    }
}

/// The most recently validated L2 block.
#[derive(Clone, Copy, Debug, PartialEq, Eq)]
pub struct SafeHead {
    pub hash: B256,
    pub number: u64,
}

/// The two ways in which a run accepts a claim.
#[derive(Clone, Copy, Debug, PartialEq, Eq, Structural)]
pub enum Verdict {
    /// Derivation and execution reproduced the claimed output root.
    Valid,
    /// The claim equals the agreed output root: nothing had to be derived.
    TraceExtension,
}

/// What the environment reports back to the program.
#[derive(Clone, Debug, PartialEq, Eq)]
pub enum ProgramEvent {
    /// The dispute parameters were loaded.
    BootInfoLoaded(BootInfo),
    /// The safe head's hash was read from the agreed output root's preimage.
    SafeHeadHashFetched(B256),
    /// The safe head's header was fetched; its block number is given.
    SafeHeadFetched(u64),
    /// Derivation and execution reached the target block with this output root.
    TargetReached(B256),
    /// The pending action failed.
    Failed(FaultProofProgramError),
}

/// What the program asks its environment to do next.
#[derive(Debug, PartialEq, Eq)]
pub enum ProgramAction {
    /// Load the dispute parameters.
    LoadBootInfo,
    /// Read the safe head's hash from the preimage of the agreed output root.
    FetchSafeHeadHash { agreed_l2_output_root: B256 },
    /// Fetch the header of the block with this hash.
    FetchSafeHead { hash: B256 },
    /// Derive and execute from the safe head up to the target block, which
    /// is the claimed one.
    AdvanceToTarget { boot: BootInfo, safe_head: SafeHead, target: u64 },
    /// Stop with this result.
    Exit(Result<Verdict, FaultProofProgramError>),
}

/// Where a run stands.
#[derive(Debug, PartialEq, Eq)]
pub enum ProgramState {
    /// Nothing is known yet.
    Booting,
    /// The parameters are known; the safe head's hash is being resolved.
    ResolvingSafeHead { boot: BootInfo },
    /// The safe head's hash is known; its header is being fetched.
    LoadingSafeHead { boot: BootInfo, safe_head_hash: B256 },
    /// The claim passed the prologue; derivation and execution are under way.
    Deriving { boot: BootInfo, safe_head: SafeHead },
    /// The run is over.
    Finished(Result<Verdict, FaultProofProgramError>),
}

/// The decision taken once the safe head is known: reject a claim below the
/// safe head, accept a claim equal to the agreed root, derive otherwise.
pub open spec fn spec_check_claim(boot: BootInfo, safe_head: SafeHead) -> ProgramState {
    if boot.claimed_l2_block_number < safe_head.number {
        ProgramState::Finished(
            Err(
                FaultProofProgramError::InvalidClaim(
                    boot.agreed_l2_output_root,
                    boot.claimed_l2_output_root,
                ),
            ),
        )
    } else if boot.agreed_l2_output_root == boot.claimed_l2_output_root {
        ProgramState::Finished(Ok(Verdict::TraceExtension))
    } else {
        ProgramState::Deriving { boot, safe_head }
    }
}

/// The decision taken once the target block is reached: the computed output
/// root must be the claimed one.
pub open spec fn spec_validate_output(boot: BootInfo, output_root: B256) -> Result<
    Verdict,
    FaultProofProgramError,
> {
    if output_root == boot.claimed_l2_output_root {
        Ok(Verdict::Valid)
    } else {
        Err(FaultProofProgramError::InvalidClaim(output_root, boot.claimed_l2_output_root))
    }
}

/// Prologue decision on a claim, given the safe head.
pub fn check_claim(boot: BootInfo, safe_head: SafeHead) -> (r: ProgramState)
    ensures
        r == spec_check_claim(boot, safe_head),
{
    if boot.claimed_l2_block_number < safe_head.number {
        ProgramState::Finished(
            Err(
                FaultProofProgramError::InvalidClaim(
                    boot.agreed_l2_output_root,
                    boot.claimed_l2_output_root,
                ),
            ),
        )
    } else if boot.agreed_l2_output_root == boot.claimed_l2_output_root {
        ProgramState::Finished(Ok(Verdict::TraceExtension))
    } else {
        ProgramState::Deriving { boot, safe_head }
    }
}

/// Epilogue decision on the output root that derivation and execution produced.
pub fn validate_output(boot: BootInfo, output_root: B256) -> (r: Result<
    Verdict,
    FaultProofProgramError,
>)
    ensures
        r == spec_validate_output(boot, output_root),
{
    if output_root == boot.claimed_l2_output_root {
        Ok(Verdict::Valid)
    } else {
        Err(FaultProofProgramError::InvalidClaim(output_root, boot.claimed_l2_output_root))
    }
}

impl ProgramState {
    /// The state after one event. An event that does not answer the pending
    /// action leaves the state as it is; a failure ends any unfinished run.
    pub open spec fn next(self, event: ProgramEvent) -> ProgramState {
        match (self, event) {
            (ProgramState::Finished(_), _) => self,
            (_, ProgramEvent::Failed(e)) => ProgramState::Finished(Err(e)),
            (ProgramState::Booting, ProgramEvent::BootInfoLoaded(boot)) => {
                ProgramState::ResolvingSafeHead { boot }
            },
            (
                ProgramState::ResolvingSafeHead { boot },
                ProgramEvent::SafeHeadHashFetched(safe_head_hash),
            ) => ProgramState::LoadingSafeHead { boot, safe_head_hash },
            (
                ProgramState::LoadingSafeHead { boot, safe_head_hash },
                ProgramEvent::SafeHeadFetched(number),
            ) => spec_check_claim(boot, SafeHead { hash: safe_head_hash, number }),
            (ProgramState::Deriving { boot, .. }, ProgramEvent::TargetReached(output_root)) => {
                ProgramState::Finished(spec_validate_output(boot, output_root))
            },
            _ => self,
        }
    }

    /// The state after a sequence of events, taken in order.
    pub open spec fn after(self, events: Seq<ProgramEvent>) -> ProgramState
        decreases events.len(),
    {
        if events.len() == 0 {
            self
        } else {
            self.after(events.drop_last()).next(events.last())
        }
    }

    /// The action that a state waits for.
    pub open spec fn pending(self) -> ProgramAction {
        match self {
            ProgramState::Booting => ProgramAction::LoadBootInfo,
            ProgramState::ResolvingSafeHead { boot } => ProgramAction::FetchSafeHeadHash {
                agreed_l2_output_root: boot.agreed_l2_output_root,
            },
            ProgramState::LoadingSafeHead { safe_head_hash, .. } => ProgramAction::FetchSafeHead {
                hash: safe_head_hash,
            },
            ProgramState::Deriving { boot, safe_head } => ProgramAction::AdvanceToTarget {
                boot,
                safe_head,
                target: boot.claimed_l2_block_number,
            },
            ProgramState::Finished(result) => ProgramAction::Exit(result),
        }
    }

    /// The state in which every run starts.
    pub fn new() -> (r: Self)
        ensures
            r == ProgramState::Booting,
    {
        ProgramState::Booting
    }

    /// Takes one event.
    pub fn step(self, event: ProgramEvent) -> (r: Self)
        ensures
            r == self.next(event),
    {
        match self {
            ProgramState::Finished(result) => ProgramState::Finished(result),
            ProgramState::Booting => match event {
                ProgramEvent::Failed(e) => ProgramState::Finished(Err(e)),
                ProgramEvent::BootInfoLoaded(boot) => ProgramState::ResolvingSafeHead { boot },
                _ => ProgramState::Booting,
            },
            ProgramState::ResolvingSafeHead { boot } => match event {
                ProgramEvent::Failed(e) => ProgramState::Finished(Err(e)),
                ProgramEvent::SafeHeadHashFetched(safe_head_hash) => {
                    ProgramState::LoadingSafeHead { boot, safe_head_hash }
                },
                _ => ProgramState::ResolvingSafeHead { boot },
            },
            ProgramState::LoadingSafeHead { boot, safe_head_hash } => match event {
                ProgramEvent::Failed(e) => ProgramState::Finished(Err(e)),
                ProgramEvent::SafeHeadFetched(number) => check_claim(
                    boot,
                    SafeHead { hash: safe_head_hash, number },
                ),
                _ => ProgramState::LoadingSafeHead { boot, safe_head_hash },
            },
            ProgramState::Deriving { boot, safe_head } => match event {
                ProgramEvent::Failed(e) => ProgramState::Finished(Err(e)),
                ProgramEvent::TargetReached(output_root) => ProgramState::Finished(
                    validate_output(boot, output_root),
                ),
                _ => ProgramState::Deriving { boot, safe_head },
            },
        }
    }

    /// The action that this state waits for.
    pub fn action(self) -> (r: ProgramAction)
        ensures
            r == self.pending(),
    {
        match self {
            ProgramState::Booting => ProgramAction::LoadBootInfo,
            ProgramState::ResolvingSafeHead { boot } => ProgramAction::FetchSafeHeadHash {
                agreed_l2_output_root: boot.agreed_l2_output_root,
            },
            ProgramState::LoadingSafeHead { boot, safe_head_hash } => ProgramAction::FetchSafeHead {
                hash: safe_head_hash,
            },
            ProgramState::Deriving { boot, safe_head } => ProgramAction::AdvanceToTarget {
                boot,
                safe_head,
                target: boot.claimed_l2_block_number,
            },
            ProgramState::Finished(result) => ProgramAction::Exit(result),
        }
    }
}

/// The environment reported these dispute parameters.
pub open spec fn loaded(events: Seq<ProgramEvent>, boot: BootInfo) -> bool {
    exists|i: int|
        0 <= i < events.len() && #[trigger] events[i] == ProgramEvent::BootInfoLoaded(boot)
}

/// The environment reported a safe head with this block number.
pub open spec fn saw_safe_head(events: Seq<ProgramEvent>, number: u64) -> bool {
    exists|i: int|
        0 <= i < events.len() && #[trigger] events[i] == ProgramEvent::SafeHeadFetched(number)
}

/// The environment reported that derivation and execution produced this
/// output root.
pub open spec fn saw_output_root(events: Seq<ProgramEvent>, output_root: B256) -> bool {
    exists|i: int|
        0 <= i < events.len() && #[trigger] events[i] == ProgramEvent::TargetReached(output_root)
}

/// What a verdict rests on: a trace extension on parameters whose two roots
/// are equal and whose claimed block is not below a reported safe head; a
/// valid claim on a derived output root that equals the claimed one.
pub open spec fn justified(events: Seq<ProgramEvent>, verdict: Verdict) -> bool {
    exists|boot: BootInfo| #[trigger]
        loaded(events, boot) && match verdict {
            Verdict::TraceExtension => boot.agreed_l2_output_root == boot.claimed_l2_output_root
                && exists|number: u64| #[trigger]
                saw_safe_head(events, number) && number <= boot.claimed_l2_block_number,
            Verdict::Valid => saw_output_root(events, boot.claimed_l2_output_root),
        }
}

/// What the reports so far must hold for a run to stand where it stands.
pub open spec fn grounded(events: Seq<ProgramEvent>, state: ProgramState) -> bool {
    match state {
        ProgramState::Booting => true,
        ProgramState::ResolvingSafeHead { boot } => loaded(events, boot),
        ProgramState::LoadingSafeHead { boot, .. } => loaded(events, boot),
        ProgramState::Deriving { boot, .. } => loaded(events, boot),
        ProgramState::Finished(Ok(verdict)) => justified(events, verdict),
        ProgramState::Finished(Err(_)) => true,
    }
}

/// A run stands only where the reports so far put it.
pub proof fn lemma_grounded(events: Seq<ProgramEvent>)
    ensures
        grounded(events, ProgramState::Booting.after(events)),
    decreases events.len(),
{
    if events.len() > 0 {
        let init = events.drop_last();
        let event = events.last();
        let before = ProgramState::Booting.after(init);
        let state = before.next(event);
        lemma_grounded(init);
        let n = events.len() - 1;
        assert(events[n] == event);
        assert forall|i: int| 0 <= i < init.len() implies init[i] == events[i] by {}
        assert forall|boot: BootInfo| loaded(init, boot) implies loaded(events, boot) by {
            let i = choose|i: int|
                0 <= i < init.len() && #[trigger] init[i] == ProgramEvent::BootInfoLoaded(boot);
            assert(events[i] == ProgramEvent::BootInfoLoaded(boot));
        }
        assert forall|number: u64| saw_safe_head(init, number) implies saw_safe_head(
            events,
            number,
        ) by {
            let i = choose|i: int|
                0 <= i < init.len() && #[trigger] init[i] == ProgramEvent::SafeHeadFetched(number);
            assert(events[i] == ProgramEvent::SafeHeadFetched(number));
        }
        assert forall|root: B256| saw_output_root(init, root) implies saw_output_root(
            events,
            root,
        ) by {
            let i = choose|i: int|
                0 <= i < init.len() && #[trigger] init[i] == ProgramEvent::TargetReached(root);
            assert(events[i] == ProgramEvent::TargetReached(root));
        }
        match before {
            ProgramState::Finished(Ok(verdict)) => {
                let boot = choose|boot: BootInfo| #[trigger]
                    loaded(init, boot) && match verdict {
                        Verdict::TraceExtension => boot.agreed_l2_output_root
                            == boot.claimed_l2_output_root && exists|number: u64| #[trigger]
                            saw_safe_head(init, number) && number <= boot.claimed_l2_block_number,
                        Verdict::Valid => saw_output_root(init, boot.claimed_l2_output_root),
                    };
                assert(loaded(events, boot));
                if verdict == Verdict::TraceExtension {
                    let number = choose|number: u64| #[trigger]
                        saw_safe_head(init, number) && number <= boot.claimed_l2_block_number;
                    assert(saw_safe_head(events, number));
                }
            },
            ProgramState::Booting => {
                if let ProgramEvent::BootInfoLoaded(boot) = event {
                    assert(loaded(events, boot));
                }
            },
            ProgramState::LoadingSafeHead { boot, safe_head_hash } => {
                if let ProgramEvent::SafeHeadFetched(number) = event {
                    assert(loaded(events, boot));
                    assert(saw_safe_head(events, number));
                }
            },
            ProgramState::Deriving { boot, .. } => {
                if let ProgramEvent::TargetReached(output_root) = event {
                    assert(loaded(events, boot));
                    assert(saw_output_root(events, output_root));
                }
            },
            _ => {},
        }
    }
}

/// The program accepts no claim without grounds. Whatever the environment
/// reports, and in whatever order, a run that exits with success has been
/// given dispute parameters for which either the claimed root is the agreed
/// one, at a block that is not below a reported safe head, or derivation and
/// execution were reported to produce the claimed root.
pub proof fn lemma_success_is_justified(events: Seq<ProgramEvent>, verdict: Verdict)
    requires
        ProgramState::Booting.after(events).pending() == ProgramAction::Exit(Ok(verdict)),
    ensures
        justified(events, verdict),
{
    lemma_grounded(events);
}

/// Runs the fault-proof program over what its environment has reported so
/// far, oldest event first, and returns what to do next: the action that is
/// pending, or `Exit` with the verdict once the run is over.
pub fn run(events: Vec<ProgramEvent>) -> (r: ProgramAction)
    ensures
        r == ProgramState::Booting.after(events@).pending(),
{
    let ghost all = events@;
    let mut state = ProgramState::new();
    assert(all.take(0) =~= Seq::<ProgramEvent>::empty());
    for event in it: events
        invariant
            it.seq() == all,
            state == ProgramState::Booting.after(all.take(it.index() as int)),
    {
        proof {
            let i = it.index() as int;
            assert(all.take(i + 1).drop_last() =~= all.take(i));
            assert(all.take(i + 1).last() == all[i]);
        }
        state = state.step(event);
    }
    assert(all.take(all.len() as int) =~= all);
    state.action()
}

} // verus!
