//! UI-thread state for debounced preview requests and stale-result rejection.
//! Times are milliseconds of a monotonic clock that the caller reads.
use vstd::prelude::*;

verus! {

/// A preview request waiting for its debounce delay to pass.
pub struct PendingPreview {
    pub generation: u64,
    pub due: u64,
    pub source: String,
}

/// The abstract state of a request: its generation, due time and source text.
pub struct PreviewRequest {
    pub generation: u64,
    pub due: u64,
    pub source: Seq<char>,
}

impl View for PendingPreview {
    type V = PreviewRequest;

    open spec fn view(&self) -> PreviewRequest {
        PreviewRequest { generation: self.generation, due: self.due, source: self.source@ }
    }
}

/// The view of an optional request.
pub open spec fn opt_request(p: Option<PendingPreview>) -> Option<PreviewRequest> {
    match p {
        Some(p) => Some(p@),
        None => None,
    }
}

/// Debounced preview scheduling with a generation counter.
pub struct PreviewController {
    generation: u64,
    pending: Option<PendingPreview>,
}

/// The abstract controller: its generation and the request, if any, waiting.
pub struct PreviewState {
    pub generation: u64,
    pub pending: Option<PreviewRequest>,
}

impl View for PreviewController {
    type V = PreviewState;

    closed spec fn view(&self) -> PreviewState {
        PreviewState { generation: self.generation, pending: opt_request(self.pending) }
    }
}

/// The controller after a request for `source` is scheduled at `now` to run after `delay`.
pub open spec fn scheduled(s: PreviewState, source: Seq<char>, now: u64, delay: u64) -> PreviewState {
    let g = next_generation(s.generation);
    PreviewState {
        generation: g,
        pending: Some(PreviewRequest { generation: g, due: sat_add(now, delay), source }),
    }
}

/// The controller and the request handed out when asked at `now`.
pub open spec fn taken(s: PreviewState, now: u64) -> (PreviewState, Option<PreviewRequest>) {
    match s.pending {
        Some(p) if p.due <= now => (PreviewState { generation: s.generation, pending: None }, Some(p)),
        _ => (s, None),
    }
}

/// The generation after `g`: `g + 1`, wrapping to zero past `u64::MAX`.
pub open spec fn next_generation(g: u64) -> u64 {
    vstd::wrapping::u64_specs::wrapping_add(g, 1)
}

/// `u64::saturating_add`.
pub open spec fn sat_add(a: u64, b: u64) -> u64 {
    if a + b > u64::MAX { u64::MAX } else { (a + b) as u64 }
}

impl PreviewController {
    /// A controller with generation zero and nothing pending.
    pub fn new() -> (c: Self)
        ensures
            c@.generation == 0,
            c@.pending is None,
    {
        PreviewController { generation: 0, pending: None }
    }

    pub fn generation(&self) -> (g: u64)
        ensures
            g == self@.generation,
    {
        self.generation
    }

    /// Starts over for a new workspace, one generation past `previous_generation`.
    pub fn replace_workspace(&mut self, previous_generation: u64)
        ensures
            final(self)@.generation == next_generation(previous_generation),
            final(self)@.pending is None,
    {
        self.generation = previous_generation.wrapping_add(1);
        self.pending = None;
    }

    /// Replaces any waiting request with one for `source`, due `delay` after `now`.
    pub fn schedule(&mut self, source: String, delay: u64, now: u64)
        ensures
            final(self)@ == scheduled(old(self)@, source@, now, delay),
    {
        self.generation = self.generation.wrapping_add(1);
        self.pending = Some(PendingPreview {
            generation: self.generation,
            due: now.saturating_add(delay),
            source,
        });
    }

    /// Moves to a new generation and drops any waiting request.
    pub fn invalidate(&mut self)
        ensures
            final(self)@.generation == next_generation(old(self)@.generation),
            final(self)@.pending is None,
    {
        self.generation = self.generation.wrapping_add(1);
        self.pending = None;
    }

    /// Hands out the waiting request once it is due at `now`.
    pub fn take_due(&mut self, now: u64) -> (r: Option<PendingPreview>)
        ensures
            (final(self)@, opt_request(r)) == taken(old(self)@, now),
    {
        let due = match &self.pending {
            Some(pending) => pending.due <= now,
            None => false,
        };
        if due {
            self.pending.take()
        } else {
            None
        }
    }

    pub fn is_pending(&self) -> (r: bool)
        ensures
            r == (self@.pending is Some),
    {
        self.pending.is_some()
    }
}

impl Default for PreviewController {
    fn default() -> (c: Self)
        ensures
            c@.generation == 0,
            c@.pending is None,
    {
        Self::new()
    }
}

/// Requests coalesce: after two schedules, the request handed out once due is
/// the later one, and it carries a newer generation than the earlier one.
pub proof fn law_latest_preview_wins(
    s: PreviewState,
    first: Seq<char>,
    second: Seq<char>,
    now: u64,
    delay: u64,
    later: u64,
)
    requires
        s.generation < u64::MAX - 1,
        now + delay <= later,
    ensures
        ({
            let s1 = scheduled(s, first, now, delay);
            let s2 = scheduled(s1, second, now, delay);
            let (s3, out) = taken(s2, later);
            &&& out is Some
            &&& out->0.source == second
            &&& out->0.generation > s1.generation
            &&& s3.pending is None
        }),
{
}

/// A request scheduled and then invalidated is never handed out.
pub proof fn law_invalidated_preview_is_dropped(s: PreviewState, source: Seq<char>, now: u64, delay: u64, later: u64)
    ensures
        ({
            let s1 = scheduled(s, source, now, delay);
            let s2 = PreviewState {
                generation: next_generation(s1.generation),
                pending: None,
            };
            taken(s2, later).1 is None
        }),
{
}

} // verus!
