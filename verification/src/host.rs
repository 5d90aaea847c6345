//! The host backend: hint routing and preimage fetching.
//!
//! The backend keeps the proactive hint types and the last hint that was
//! routed. It decides; the caller owns the locks, the clock and the fetch
//! handler, performs what a `FetchStep` asks for, and reports back.

use crate::errors::PreimageOracleError;
use crate::hint::{spec_parse_hint, Hint, HintType};
use crate::key::PreimageKey;
use crate::kv::{spec_set, MemoryKeyValueStore};
use vstd::prelude::*;
use vstd::slice::slice_to_vec;

verus! {

/// How long a request waits for its preimage, in milliseconds.
pub const PREIMAGE_TIMEOUT_MS: u64 = 60_000;

/// The state of a backend, as contracts see it.
pub struct BackendView {
    /// The hint types that are serviced as soon as they are routed.
    pub proactive: Set<HintType>,
    /// The last hint that was routed and kept.
    pub last_hint: Option<(HintType, Seq<u8>)>,
}

/// What became of a routed hint.
#[derive(Clone, Debug, PartialEq, Eq)]
pub enum Routed {
    /// The hint took the place of the last hint.
    Stored,
    /// The hint is proactive: the caller fetches it now.
    FetchNow(Hint),
}

/// A `Routed` as contracts see it.
pub enum RoutedView {
    Stored,
    FetchNow((HintType, Seq<u8>)),
}

impl View for Routed {
    type V = RoutedView;

    open spec fn view(&self) -> RoutedView {
        match self {
            Routed::Stored => RoutedView::Stored,
            Routed::FetchNow(hint) => RoutedView::FetchNow(hint@),
        }
    }
}

/// Where a preimage request stands, and with it what the caller does next.
#[derive(Clone, Debug, PartialEq, Eq)]
pub enum FetchStep {
    /// Nothing to fetch yet: poll the last hint again.
    AwaitHint,
    /// Fetch this hint, then report with `fetch_finished`.
    Fetch(Hint),
    /// The preimage is here.
    Found(Vec<u8>),
    /// The deadline passed before the preimage appeared.
    TimedOut,
}

/// A `FetchStep` as contracts see it.
pub enum FetchStepView {
    AwaitHint,
    Fetch((HintType, Seq<u8>)),
    Found(Seq<u8>),
    TimedOut,
}

impl View for FetchStep {
    type V = FetchStepView;

    open spec fn view(&self) -> FetchStepView {
        match self {
            FetchStep::AwaitHint => FetchStepView::AwaitHint,
            FetchStep::Fetch(hint) => FetchStepView::Fetch(hint@),
            FetchStep::Found(bytes) => FetchStepView::Found(bytes@),
            FetchStep::TimedOut => FetchStepView::TimedOut,
        }
    }
}

/// The backend after a hint string is routed: a well-formed hint that is not
/// proactive takes the place of the last hint; nothing else changes anything.
pub open spec fn spec_route(state: BackendView, raw: Seq<char>) -> BackendView {
    match spec_parse_hint(raw) {
        Ok(hint) => if state.proactive.contains(hint.0) {
            state
        } else {
            BackendView { proactive: state.proactive, last_hint: Some(hint) }
        },
        Err(_) => state,
    }
}

/// What routing a hint string returns.
pub open spec fn spec_routed(state: BackendView, raw: Seq<char>) -> Result<
    RoutedView,
    PreimageOracleError,
> {
    match spec_parse_hint(raw) {
        Ok(hint) => if state.proactive.contains(hint.0) {
            Ok(RoutedView::FetchNow(hint))
        } else {
            Ok(RoutedView::Stored)
        },
        Err(e) => Err(PreimageOracleError::HintParseFailed(e)),
    }
}

/// What a poll of the last hint decides: past the deadline the request times
/// out; before it, a hint is fetched and the lack of one is waited out.
pub open spec fn spec_poll(
    last_hint: Option<(HintType, Seq<u8>)>,
    elapsed_ms: u64,
) -> FetchStepView {
    if elapsed_ms >= PREIMAGE_TIMEOUT_MS {
        FetchStepView::TimedOut
    } else {
        match last_hint {
            Some(hint) => FetchStepView::Fetch(hint),
            None => FetchStepView::AwaitHint,
        }
    }
}

/// What the end of a fetch decides: after a fetch that succeeded the store is
/// read again, and the preimage is returned if it is there.
pub open spec fn spec_fetch_finished(fetched: bool, found: Option<Seq<u8>>) -> FetchStepView {
    match found {
        Some(bytes) if fetched => FetchStepView::Found(bytes),
        _ => FetchStepView::AwaitHint,
    }
}

/// What a request returns when it ends at a step.
pub open spec fn spec_result(step: FetchStepView) -> Result<Seq<u8>, PreimageOracleError> {
    match step {
        FetchStepView::Found(bytes) => Ok(bytes),
        FetchStepView::TimedOut => Err(PreimageOracleError::Timeout),
        _ => Err(PreimageOracleError::KeyNotFound),
    }
}

impl Hint {
    /// A copy of this hint.
    pub fn duplicate(&self) -> (r: Hint)
        ensures
            r@ == self@,
    {
        Hint { ty: self.ty, data: slice_to_vec(self.data.as_slice()) }
    }
}

impl FetchStep {
    /// Ends the request at this step. A request that ends while its
    /// preimage is still awaited has not found its key.
    pub fn into_result(self) -> (r: Result<Vec<u8>, PreimageOracleError>)
        ensures
            match spec_result(self@) {
                Ok(bytes) => r matches Ok(v) && v@ == bytes,
                Err(e) => r == Err::<Vec<u8>, PreimageOracleError>(e),
            },
    {
        match self {
            FetchStep::Found(bytes) => Ok(bytes),
            FetchStep::TimedOut => Err(PreimageOracleError::Timeout),
            _ => Err(PreimageOracleError::KeyNotFound),
        }
    }
}

/// Routes hints and serves preimage requests from a store, fetching on
/// demand what the last hint describes.
pub struct OnlineHostBackend {
    proactive_hints: Vec<HintType>,
    last_hint: Option<Hint>,
}

impl View for OnlineHostBackend {
    type V = BackendView;

    closed spec fn view(&self) -> BackendView {
        BackendView {
            proactive: self.proactive_hints@.to_set(),
            last_hint: match self.last_hint {
                Some(hint) => Some(hint@),
                None => None,
            },
        }
    }
}

impl OnlineHostBackend {
    /// A backend without proactive hint types and without a last hint.
    pub fn new() -> (r: Self)
        ensures
            r@ == (BackendView { proactive: Set::empty(), last_hint: None }),
    {
        let r = OnlineHostBackend { proactive_hints: Vec::new(), last_hint: None };
        assert(r.proactive_hints@.to_set() =~= Set::<HintType>::empty());
        r
    }

    /// Adds a hint type to those that are serviced as soon as they are routed.
    pub fn with_proactive_hint(self, hint_type: HintType) -> (r: Self)
        ensures
            r@ == (BackendView {
                proactive: self@.proactive.insert(hint_type),
                last_hint: self@.last_hint,
            }),
    {
        let mut proactive_hints = self.proactive_hints;
        let ghost before = proactive_hints@;
        proactive_hints.push(hint_type);
        proof {
            assert forall|ty: HintType|
                proactive_hints@.to_set().contains(ty) <==> before.to_set().insert(
                    hint_type,
                ).contains(ty) by {
                if proactive_hints@.contains(ty) {
                    let i = choose|i: int|
                        0 <= i < proactive_hints@.len() && proactive_hints@[i] == ty;
                    if i < before.len() {
                        assert(before[i] == ty);
                    }
                }
                if before.contains(ty) {
                    let i = choose|i: int| 0 <= i < before.len() && before[i] == ty;
                    assert(proactive_hints@[i] == ty);
                }
                if ty == hint_type {
                    assert(proactive_hints@[before.len() as int] == ty);
                }
            }
            assert(proactive_hints@.to_set() =~= before.to_set().insert(hint_type));
        }
        OnlineHostBackend { proactive_hints, last_hint: self.last_hint }
    }

    /// Whether hints of this type are serviced as soon as they are routed.
    pub fn is_proactive(&self, hint_type: HintType) -> (r: bool)
        ensures
            r == self@.proactive.contains(hint_type),
    {
        let mut i: usize = 0;
        while i < self.proactive_hints.len()
            invariant
                i <= self.proactive_hints@.len(),
                forall|j: int| 0 <= j < i ==> self.proactive_hints@[j] != hint_type,
            decreases self.proactive_hints@.len() - i,
        {
            if self.proactive_hints[i] == hint_type {
                assert(self.proactive_hints@.contains(hint_type));
                return true;
            }
            i = i + 1;
        }
        assert(!self.proactive_hints@.contains(hint_type));
        false
    }

    /// Routes a hint string. A malformed string is refused and changes
    /// nothing. A proactive hint is handed back for the caller to fetch at
    /// once, and the last hint stays. Any other hint takes the place of the
    /// last hint, whether or not that one was ever fetched.
    pub fn route_hint(&mut self, hint: &str) -> (r: Result<Routed, PreimageOracleError>)
        ensures
            final(self)@ == spec_route(old(self)@, hint@),
            spec_parse_hint(hint@) is Err ==> *final(self) == *old(self),
            match spec_routed(old(self)@, hint@) {
                Ok(routed) => r matches Ok(x) && x@ == routed,
                Err(e) => r == Err::<Routed, PreimageOracleError>(e),
            },
    {
        match Hint::parse(hint) {
            Err(e) => Err(PreimageOracleError::HintParseFailed(e)),
            Ok(parsed) => {
                if self.is_proactive(parsed.ty) {
                    Ok(Routed::FetchNow(parsed))
                } else {
                    self.last_hint = Some(parsed);
                    Ok(Routed::Stored)
                }
            },
        }
    }

    /// What a proactive hint's fetch amounts to for the router: a failure is
    /// reported with its details.
    pub fn proactive_result(fetched: Result<(), String>) -> (r: Result<(), PreimageOracleError>)
        ensures
            match fetched {
                Ok(_) => r is Ok,
                Err(details) => r == Err::<(), PreimageOracleError>(
                    PreimageOracleError::Other(details),
                ),
            },
    {
        match fetched {
            Ok(_) => Ok(()),
            Err(details) => Err(PreimageOracleError::Other(details)),
        }
    }

    /// Polls the last hint, `elapsed_ms` after the request began to wait.
    pub fn poll(&self, elapsed_ms: u64) -> (r: FetchStep)
        ensures
            r@ == spec_poll(self@.last_hint, elapsed_ms),
    {
        if elapsed_ms >= PREIMAGE_TIMEOUT_MS {
            FetchStep::TimedOut
        } else {
            match &self.last_hint {
                Some(hint) => FetchStep::Fetch(hint.duplicate()),
                None => FetchStep::AwaitHint,
            }
        }
    }

    /// Begins a request for the preimage of `key` with a read of the store
    /// alone: a key that the store holds is answered at once; for any other
    /// the wait begins, and its first step is a poll of the last hint.
    pub fn get_preimage(store: &MemoryKeyValueStore, key: &PreimageKey) -> (r: FetchStep)
        ensures
            r@ == (match store@.get(*key) {
                Some(bytes) => FetchStepView::Found(bytes),
                None => FetchStepView::AwaitHint,
            }),
    {
        match store.get(key) {
            Some(bytes) => FetchStep::Found(bytes),
            None => FetchStep::AwaitHint,
        }
    }

    /// Takes the end of a fetch: after a fetch that succeeded the store is
    /// read again; after one that failed the wait goes on.
    pub fn fetch_finished(fetched: bool, store: &MemoryKeyValueStore, key: &PreimageKey) -> (r:
        FetchStep)
        ensures
            r@ == spec_fetch_finished(fetched, store@.get(*key)),
    {
        if fetched {
            match store.get(key) {
                Some(bytes) => FetchStep::Found(bytes),
                None => FetchStep::AwaitHint,
            }
        } else {
            FetchStep::AwaitHint
        }
    }
}

/// What happens while a request waits.
pub enum WaitEvent {
    /// The last hint was polled: what it held, and the time since the wait
    /// began.
    Polled { last_hint: Option<(HintType, Seq<u8>)>, elapsed_ms: u64 },
    /// A fetch ended: whether it succeeded, and what the store then held
    /// under the requested key.
    Fetched { fetched: bool, found: Option<Seq<u8>> },
}

/// The step after one event. A poll answers `AwaitHint`, the end of a fetch
/// answers `Fetch`; an event that answers nothing changes nothing.
pub open spec fn wait_next(step: FetchStepView, event: WaitEvent) -> FetchStepView {
    match (step, event) {
        (FetchStepView::AwaitHint, WaitEvent::Polled { last_hint, elapsed_ms }) => spec_poll(
            last_hint,
            elapsed_ms,
        ),
        (FetchStepView::Fetch(_), WaitEvent::Fetched { fetched, found }) => spec_fetch_finished(
            fetched,
            found,
        ),
        _ => step,
    }
}

/// The step after a sequence of events, taken in order.
pub open spec fn wait_after(step: FetchStepView, events: Seq<WaitEvent>) -> FetchStepView
    decreases events.len(),
{
    if events.len() == 0 {
        step
    } else {
        wait_next(wait_after(step, events.drop_last()), events.last())
    }
}

/// No fetch of the history found the key in the store.
pub open spec fn never_found(events: Seq<WaitEvent>) -> bool {
    forall|i: int|
        0 <= i < events.len() ==> !(#[trigger] events[i] matches WaitEvent::Fetched {
            fetched: true,
            found: Some(_),
        })
}

/// Every poll of the history came before the deadline.
pub open spec fn polled_in_time(events: Seq<WaitEvent>) -> bool {
    forall|i: int|
        0 <= i < events.len() ==> (#[trigger] events[i] matches WaitEvent::Polled {
            elapsed_ms,
            ..
        } ==> elapsed_ms < PREIMAGE_TIMEOUT_MS)
}

/// A request that has its preimage, or has timed out, stays as it is.
pub proof fn lemma_finished_stays(step: FetchStepView, events: Seq<WaitEvent>)
    requires
        step is Found || step is TimedOut,
    ensures
        wait_after(step, events) == step,
    decreases events.len(),
{
    if events.len() > 0 {
        lemma_finished_stays(step, events.drop_last());
    }
}

/// Retry correctness. Whatever happened while a request waited (any number
/// of polls, of hints routed in between, of fetches that failed or brought
/// other data), once a fetch is under way and the handler writes the bytes
/// of the requested key into the store, the request returns exactly those
/// bytes, and nothing that happens later turns that into a timeout.
pub proof fn lemma_retry_returns_inserted_bytes(
    history: Seq<WaitEvent>,
    store: Map<PreimageKey, Seq<u8>>,
    key: PreimageKey,
    bytes: Seq<u8>,
    later: Seq<WaitEvent>,
)
    requires
        wait_after(FetchStepView::AwaitHint, history) is Fetch,
        !store.contains_key(key),
    ensures
        ({
            let fetched = WaitEvent::Fetched {
                fetched: true,
                found: spec_set(store, key, bytes).get(key),
            };
            let end = wait_after(FetchStepView::AwaitHint, history.push(fetched) + later);
            end == FetchStepView::Found(bytes) && spec_result(end) == Ok::<
                Seq<u8>,
                PreimageOracleError,
            >(bytes)
        }),
{
    let fetched = WaitEvent::Fetched { fetched: true, found: spec_set(store, key, bytes).get(key) };
    let first = history.push(fetched);
    assert(first.drop_last() =~= history);
    assert(wait_after(FetchStepView::AwaitHint, first) == FetchStepView::Found(bytes));
    lemma_wait_after_concat(FetchStepView::AwaitHint, first, later);
    lemma_finished_stays(FetchStepView::Found(bytes), later);
}

/// Events taken in two runs give what they give in one.
pub proof fn lemma_wait_after_concat(
    step: FetchStepView,
    first: Seq<WaitEvent>,
    second: Seq<WaitEvent>,
)
    ensures
        wait_after(step, first + second) == wait_after(wait_after(step, first), second),
    decreases second.len(),
{
    if second.len() == 0 {
        assert(first + second =~= first);
    } else {
        assert((first + second).drop_last() =~= first + second.drop_last());
        assert((first + second).last() == second.last());
        lemma_wait_after_concat(step, first, second.drop_last());
    }
}

/// Timeout boundary. While no fetch finds the key, a request never returns
/// bytes; it does not time out as long as every poll comes before the
/// deadline; and the first poll at or after the deadline times it out.
pub proof fn lemma_timeout_boundary(
    events: Seq<WaitEvent>,
    last_hint: Option<(HintType, Seq<u8>)>,
    elapsed_ms: u64,
)
    requires
        never_found(events),
    ensures
        !(wait_after(FetchStepView::AwaitHint, events) is Found),
        polled_in_time(events) ==> !(wait_after(FetchStepView::AwaitHint, events) is TimedOut),
        wait_after(FetchStepView::AwaitHint, events) is AwaitHint && elapsed_ms
            >= PREIMAGE_TIMEOUT_MS ==> wait_after(
            FetchStepView::AwaitHint,
            events.push(WaitEvent::Polled { last_hint, elapsed_ms }),
        ) == FetchStepView::TimedOut,
    decreases events.len(),
{
    let polled = WaitEvent::Polled { last_hint, elapsed_ms };
    assert(events.push(polled).drop_last() =~= events);
    if events.len() > 0 {
        let init = events.drop_last();
        assert forall|i: int| 0 <= i < init.len() implies #[trigger] init[i] == events[i] by {}
        assert(never_found(init));
        lemma_timeout_boundary(init, last_hint, elapsed_ms);
        assert(events[events.len() - 1] == events.last());
        if polled_in_time(events) {
            assert(polled_in_time(init));
        }
    }
}

/// Hint overwrite. After two hints that are well formed and not proactive
/// are routed one after the other, only the second is there to be fetched:
/// the backend is as if the first had never been routed, and a poll before
/// the deadline asks for the second.
pub proof fn lemma_hint_overwrite(
    state: BackendView,
    first: Seq<char>,
    second: Seq<char>,
    elapsed_ms: u64,
)
    requires
        spec_routed(state, first) == Ok::<RoutedView, PreimageOracleError>(RoutedView::Stored),
        spec_routed(state, second) == Ok::<RoutedView, PreimageOracleError>(RoutedView::Stored),
        elapsed_ms < PREIMAGE_TIMEOUT_MS,
    ensures
        spec_route(spec_route(state, first), second) == spec_route(state, second),
        spec_route(spec_route(state, first), second).last_hint == Some(
            spec_parse_hint(second)->Ok_0,
        ),
        spec_poll(spec_route(spec_route(state, first), second).last_hint, elapsed_ms)
            == FetchStepView::Fetch(spec_parse_hint(second)->Ok_0),
{
}

/// Parse failure isolation. Routing a malformed hint string fails and
/// leaves the backend, its last hint included, as it was.
pub proof fn lemma_parse_failure_isolation(state: BackendView, raw: Seq<char>)
    requires
        spec_parse_hint(raw) is Err,
    ensures
        spec_routed(state, raw) is Err,
        spec_route(state, raw) == state,
{
}

} // verus!
