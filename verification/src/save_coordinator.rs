//! UI-thread save state: debounced saves, at most one save in flight, and a
//! short memory of Markerup's own recent writes. Workspace I/O is performed by
//! the caller; times are milliseconds of a monotonic clock the caller reads.
use vstd::prelude::*;
use crate::preview_controller::{next_generation, sat_add};
use crate::text::str_eq;
use crate::workspace::EntryId;

verus! {

/// How many of Markerup's own writes are remembered.
pub const RECENT_LOCAL_SAVE_LIMIT: usize = 8;

/// A save request: the note, the text to write, and the text the note is
/// expected to hold on disk before the write.
pub struct PendingSave {
    pub generation: u64,
    pub due: u64,
    pub file: EntryId,
    pub contents: String,
    pub expected_disk_text: String,
}

/// The abstract save request.
pub struct SaveRequest {
    pub generation: u64,
    pub due: u64,
    pub file: Seq<char>,
    pub contents: Seq<char>,
    pub expected_disk_text: Seq<char>,
}

impl View for PendingSave {
    type V = SaveRequest;

    open spec fn view(&self) -> SaveRequest {
        SaveRequest {
            generation: self.generation,
            due: self.due,
            file: self.file@,
            contents: self.contents@,
            expected_disk_text: self.expected_disk_text@,
        }
    }
}

/// The view of an optional save request.
pub open spec fn opt_save(p: Option<PendingSave>) -> Option<SaveRequest> {
    match p {
        Some(p) => Some(p@),
        None => None,
    }
}

struct LocalSaveRecord {
    generation: u64,
    file: EntryId,
    contents: String,
}

/// A write Markerup made: its generation, note and contents.
pub struct LocalSave {
    pub generation: u64,
    pub file: Seq<char>,
    pub contents: Seq<char>,
}

spec fn record_view(r: LocalSaveRecord) -> LocalSave {
    LocalSave { generation: r.generation, file: r.file@, contents: r.contents@ }
}

/// The abstract coordinator.
pub struct SaveState {
    pub generation: u64,
    pub pending: Option<SaveRequest>,
    pub in_flight: Option<SaveRequest>,
    pub recent: Seq<LocalSave>,
}

/// UI-thread save state.
pub struct SaveCoordinator {
    generation: u64,
    pending: Option<PendingSave>,
    in_flight: Option<PendingSave>,
    recent_local_saves: Vec<LocalSaveRecord>,
}

impl View for SaveCoordinator {
    type V = SaveState;

    closed spec fn view(&self) -> SaveState {
        SaveState {
            generation: self.generation,
            pending: opt_save(self.pending),
            in_flight: opt_save(self.in_flight),
            recent: self.recent_local_saves@.map_values(|r: LocalSaveRecord| record_view(r)),
        }
    }
}

/// The coordinator after `schedule`.
pub open spec fn save_scheduled(
    s: SaveState,
    file: Option<Seq<char>>,
    workspace_open: bool,
    contents: Seq<char>,
    expected: Seq<char>,
    delay: u64,
    now: u64,
) -> SaveState {
    match file {
        Some(f) if workspace_open => {
            let g = next_generation(s.generation);
            SaveState {
                generation: g,
                pending: Some(
                    SaveRequest {
                        generation: g,
                        due: sat_add(now, delay),
                        file: f,
                        contents,
                        expected_disk_text: expected,
                    },
                ),
                ..s
            }
        },
        _ => s,
    }
}

/// The coordinator and the save handed out by `take_due(now)`: the waiting save,
/// once due, and only while no other save is in flight.
pub open spec fn save_taken(s: SaveState, now: u64) -> (SaveState, Option<SaveRequest>) {
    match s.pending {
        Some(p) if s.in_flight is None && p.due <= now => (
            SaveState { pending: None, in_flight: Some(p), ..s },
            Some(p),
        ),
        _ => (s, None),
    }
}

/// The coordinator and the save handed back by `complete_in_flight(generation)`.
pub open spec fn save_completed(s: SaveState, generation: u64) -> (SaveState, Option<SaveRequest>) {
    match s.in_flight {
        Some(p) if p.generation == generation => (SaveState { in_flight: None, ..s }, Some(p)),
        _ => (s, None),
    }
}

/// The remembered writes after recording one more, oldest dropped first.
pub open spec fn recorded(recent: Seq<LocalSave>, save: LocalSave) -> Seq<LocalSave> {
    let all = recent.push(save);
    if all.len() > RECENT_LOCAL_SAVE_LIMIT {
        all.skip(all.len() - RECENT_LOCAL_SAVE_LIMIT)
    } else {
        all
    }
}

/// A remembered write of `contents` to `file`.
pub open spec fn remembers(recent: Seq<LocalSave>, file: Seq<char>, contents: Seq<char>) -> bool {
    exists|i: int| 0 <= i < recent.len() && recent[i].file == file && recent[i].contents == contents
}

/// A remembered write to `file` newer than `generation`.
pub open spec fn remembers_newer(recent: Seq<LocalSave>, file: Seq<char>, generation: u64) -> bool {
    exists|i: int| 0 <= i < recent.len() && recent[i].file == file && recent[i].generation > generation
}

fn copy_save(p: &PendingSave) -> (r: PendingSave)
    ensures
        r@ == p@,
{
    PendingSave {
        generation: p.generation,
        due: p.due,
        file: p.file.clone(),
        contents: p.contents.clone(),
        expected_disk_text: p.expected_disk_text.clone(),
    }
}

impl SaveCoordinator {
    /// A coordinator with generation zero and nothing waiting or remembered.
    pub fn new() -> (c: Self)
        ensures
            c@.generation == 0,
            c@.pending is None,
            c@.in_flight is None,
            c@.recent.len() == 0,
    {
        SaveCoordinator {
            generation: 0,
            pending: None,
            in_flight: None,
            recent_local_saves: Vec::new(),
        }
    }

    pub fn generation(&self) -> (g: u64)
        ensures
            g == self@.generation,
    {
        self.generation
    }

    /// Forgets everything for a new workspace, one generation past `previous_generation`.
    pub fn replace_workspace(&mut self, previous_generation: u64)
        ensures
            final(self)@.generation == next_generation(previous_generation),
            final(self)@.pending is None,
            final(self)@.in_flight is None,
            final(self)@.recent.len() == 0,
    {
        self.generation = previous_generation.wrapping_add(1);
        self.pending = None;
        self.in_flight = None;
        self.recent_local_saves.clear();
    }

    /// Replaces any waiting save with one for `file`, when a note is open in an
    /// open workspace; otherwise changes nothing.
    pub fn schedule(
        &mut self,
        file: Option<EntryId>,
        workspace_open: bool,
        contents: String,
        expected_disk_text: String,
        delay: u64,
        now: u64,
    )
        ensures
            final(self)@ == save_scheduled(
                old(self)@,
                match file {
                    Some(f) => Some(f@),
                    None => None,
                },
                workspace_open,
                contents@,
                expected_disk_text@,
                delay,
                now,
            ),
    {
        let file = match file {
            Some(file) => file,
            None => return,
        };
        if !workspace_open {
            return;
        }
        self.generation = self.generation.wrapping_add(1);
        self.pending = Some(PendingSave {
            generation: self.generation,
            due: now.saturating_add(delay),
            file,
            contents,
            expected_disk_text,
        });
    }

    /// Starts an immediate save: a new generation, with any waiting save dropped.
    pub fn begin_immediate(&mut self) -> (g: u64)
        ensures
            g == next_generation(old(self)@.generation),
            final(self)@ == (SaveState { generation: g, pending: None, ..old(self)@ }),
    {
        self.generation = self.generation.wrapping_add(1);
        self.pending = None;
        self.generation
    }

    /// Moves to a new generation and forgets every waiting, running and remembered save.
    pub fn invalidate(&mut self)
        ensures
            final(self)@.generation == next_generation(old(self)@.generation),
            final(self)@.pending is None,
            final(self)@.in_flight is None,
            final(self)@.recent.len() == 0,
    {
        self.generation = self.generation.wrapping_add(1);
        self.pending = None;
        self.in_flight = None;
        self.recent_local_saves.clear();
    }

    /// Hands out the waiting save once it is due, unless another is in flight;
    /// the save handed out becomes the one in flight.
    pub fn take_due(&mut self, now: u64) -> (r: Option<PendingSave>)
        ensures
            (final(self)@, opt_save(r)) == save_taken(old(self)@, now),
    {
        if self.in_flight.is_some() {
            return None;
        }
        let due = match &self.pending {
            Some(pending) => pending.due <= now,
            None => false,
        };
        if !due {
            return None;
        }
        let pending = match self.pending.take() {
            Some(p) => p,
            None => return None,
        };
        self.in_flight = Some(copy_save(&pending));
        Some(pending)
    }

    /// Drops the save in flight and waits one second (1000 ms) before trying
    /// `contents` again under the current generation.
    pub fn retry(&mut self, now: u64, file: EntryId, contents: String, expected_disk_text: String)
        ensures
            final(self)@ == (SaveState {
                in_flight: None,
                pending: Some(
                    SaveRequest {
                        generation: old(self)@.generation,
                        due: sat_add(now, 1000),
                        file: file@,
                        contents: contents@,
                        expected_disk_text: expected_disk_text@,
                    },
                ),
                ..old(self)@
            }),
    {
        self.in_flight = None;
        self.pending = Some(PendingSave {
            generation: self.generation,
            due: now.saturating_add(1000),
            file,
            contents,
            expected_disk_text,
        });
    }

    pub fn clear_pending(&mut self)
        ensures
            final(self)@ == (SaveState { pending: None, ..old(self)@ }),
    {
        self.pending = None;
    }

    /// Marks the save in flight complete. It is handed back only when its
    /// generation is `generation`, that is, when it still belongs to this
    /// workspace and session.
    pub fn complete_in_flight(&mut self, generation: u64) -> (r: Option<PendingSave>)
        ensures
            (final(self)@, opt_save(r)) == save_completed(old(self)@, generation),
    {
        let matches = match &self.in_flight {
            Some(p) => p.generation == generation,
            None => false,
        };
        if matches {
            self.in_flight.take()
        } else {
            None
        }
    }

    /// Whether the save in flight is for `file`.
    pub fn has_in_flight_for(&self, file: &str) -> (r: bool)
        ensures
            r == match self@.in_flight {
                Some(p) => p.file == file@,
                None => false,
            },
    {
        match &self.in_flight {
            Some(p) => str_eq(p.file.as_str(), file),
            None => false,
        }
    }

    /// Remembers a write Markerup made, keeping only the newest eight.
    pub fn record_local_save(&mut self, file: EntryId, generation: u64, contents: String)
        ensures
            final(self)@ == (SaveState {
                recent: recorded(
                    old(self)@.recent,
                    LocalSave { generation, file: file@, contents: contents@ },
                ),
                ..old(self)@
            }),
    {
        let ghost before = self@.recent;
        self.recent_local_saves.push(LocalSaveRecord { generation, file, contents });
        let ghost all = before.push(LocalSave { generation, file: file@, contents: contents@ });
        proof {
            assert(self@.recent =~= all);
        }
        while self.recent_local_saves.len() > RECENT_LOCAL_SAVE_LIMIT
            invariant
                self.generation == old(self).generation,
                self.pending == old(self).pending,
                self.in_flight == old(self).in_flight,
                all.len() >= self@.recent.len(),
                all.len() > RECENT_LOCAL_SAVE_LIMIT ==> self@.recent.len() >= RECENT_LOCAL_SAVE_LIMIT,
                all.len() <= RECENT_LOCAL_SAVE_LIMIT ==> self@.recent.len() == all.len(),
                self@.recent == all.skip(all.len() - self@.recent.len()),
            decreases self.recent_local_saves@.len(),
        {
            let ghost prev = self@.recent;
            self.recent_local_saves.remove(0);
            proof {
                assert(self@.recent =~= prev.skip(1));
                assert(all.skip(all.len() - self@.recent.len()) =~= prev.skip(1));
            }
        }
        proof {
            if all.len() <= RECENT_LOCAL_SAVE_LIMIT {
                assert(all.skip(0) =~= all);
            }
        }
    }

    /// Whether Markerup recently wrote exactly `contents` to `file`.
    pub fn matches_recent_local_save(&self, file: &str, contents: &str) -> (r: bool)
        ensures
            r == remembers(self@.recent, file@, contents@),
    {
        let mut i: usize = self.recent_local_saves.len();
        while i > 0
            invariant
                i <= self.recent_local_saves@.len(),
                forall|k: int| i <= k < self@.recent.len() ==>
                    !(#[trigger] self@.recent[k].file == file@ && self@.recent[k].contents == contents@),
            decreases i,
        {
            let record = &self.recent_local_saves[i - 1];
            if str_eq(record.file.as_str(), file) && str_eq(record.contents.as_str(), contents) {
                proof {
                    assert(self@.recent[i - 1] == record_view(*record));
                }
                return true;
            }
            i = i - 1;
        }
        false
    }

    /// Whether Markerup wrote `file` under a generation newer than `generation`.
    pub fn has_newer_local_save(&self, file: &str, generation: u64) -> (r: bool)
        ensures
            r == remembers_newer(self@.recent, file@, generation),
    {
        let mut i: usize = 0;
        while i < self.recent_local_saves.len()
            invariant
                i <= self.recent_local_saves@.len(),
                forall|k: int| 0 <= k < i ==>
                    !(#[trigger] self@.recent[k].file == file@ && self@.recent[k].generation > generation),
            decreases self.recent_local_saves@.len() - i,
        {
            let record = &self.recent_local_saves[i];
            if str_eq(record.file.as_str(), file) && record.generation > generation {
                proof {
                    assert(self@.recent[i as int] == record_view(*record));
                }
                return true;
            }
            i = i + 1;
        }
        false
    }

    pub fn is_pending(&self) -> (r: bool)
        ensures
            r == (self@.pending is Some),
    {
        self.pending.is_some()
    }
}

impl Default for SaveCoordinator {
    fn default() -> (c: Self)
        ensures
            c@.generation == 0,
            c@.pending is None,
            c@.in_flight is None,
            c@.recent.len() == 0,
    {
        Self::new()
    }
}

/// At most one save is in flight: while one runs, nothing more is handed out,
/// and a save handed out is exactly the one then in flight.
pub proof fn law_one_save_in_flight(s: SaveState, now: u64)
    ensures
        s.in_flight is Some ==> save_taken(s, now) == (s, None::<SaveRequest>),
        save_taken(s, now).1 is Some ==> save_taken(s, now).0.in_flight == save_taken(s, now).1,
{
}

/// Saves coalesce: of two saves scheduled for an open note, the one handed out
/// once due is the later one.
pub proof fn law_latest_save_wins(
    s: SaveState,
    file: Seq<char>,
    first: Seq<char>,
    second: Seq<char>,
    expected: Seq<char>,
    now: u64,
    delay: u64,
    later: u64,
)
    requires
        s.in_flight is None,
        now + delay <= later,
    ensures
        ({
            let s1 = save_scheduled(s, Some(file), true, first, expected, delay, now);
            let s2 = save_scheduled(s1, Some(file), true, second, expected, delay, now);
            let (s3, out) = save_taken(s2, later);
            &&& out is Some
            &&& out->0.contents == second
            &&& out->0.file == file
            &&& s3.pending is None
            &&& s3.in_flight == out
        }),
{
}

/// The save in flight, once completed under its own generation, is handed back
/// and the next due save can then be handed out.
pub proof fn law_completion_releases_the_next_save(s: SaveState, now: u64)
    requires
        s.in_flight is Some,
        s.pending is Some,
        s.pending->0.due <= now,
    ensures
        ({
            let (s1, done) = save_completed(s, s.in_flight->0.generation);
            &&& done == s.in_flight
            &&& save_taken(s1, now).1 == s.pending
        }),
{
}

/// At most eight writes are remembered, and the write just recorded is always
/// among them.
pub proof fn law_recent_saves_are_bounded(recent: Seq<LocalSave>, save: LocalSave)
    requires
        recent.len() <= RECENT_LOCAL_SAVE_LIMIT,
    ensures
        recorded(recent, save).len() <= RECENT_LOCAL_SAVE_LIMIT,
        remembers(recorded(recent, save), save.file, save.contents),
{
    let r = recorded(recent, save);
    assert(r[r.len() - 1] == save);
}


/// A save waits for its debounce delay: `take_due(now)` hands out only the
/// waiting save, and only once its due time has come; while that time is
/// still ahead, it hands out nothing and the save keeps waiting.
pub proof fn law_saves_wait_until_due(s: SaveState, now: u64)
    ensures
        save_taken(s, now).1 matches Some(p) ==> s.pending == Some(p) && p.due <= now,
        (s.pending matches Some(p) && now < p.due) ==> save_taken(s, now) == (s, None::<SaveRequest>),
{
}
} // verus!
