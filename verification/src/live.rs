//! Decisions of the live review session: which overlay refresh loop is current,
//! how many dataset frames may still be recorded and under which file names, which
//! snapshots get logged, and how a log line reads.

use vstd::prelude::*;

use crate::text::{decimal, is_blank, push_char, push_decimal, push_str, str_eq, str_is_blank};

verus! {

/// Snapshots up to this sequence number are always logged.
pub const LIVE_SNAPSHOT_LOG_FIRST: u64 = 5;

/// After the first few, every this-many-th snapshot is logged.
pub const LIVE_SNAPSHOT_LOG_EVERY: u64 = 60;

/// Snapshots that take at least this many milliseconds are always logged.
pub const LIVE_SNAPSHOT_SLOW_MS: u128 = 100;

/// Frames a live dataset recording keeps at most.
pub const LIVE_DATASET_MAX_FRAMES: u64 = 120;

/// Whether the snapshot with this sequence number and total latency is logged:
/// the first five, every sixtieth, and every slow one.
pub fn should_log_live_snapshot(sequence: u64, total_ms: u128) -> (log: bool)
    ensures
        log == (sequence <= 5 || sequence % 60 == 0 || total_ms >= 100),
{
    sequence <= LIVE_SNAPSHOT_LOG_FIRST || sequence % LIVE_SNAPSHOT_LOG_EVERY == 0 || total_ms
        >= LIVE_SNAPSHOT_SLOW_MS
}

/// Which overlay screen is live and the generation of its refresh loop. A loop keeps
/// running only while its screen is the active one and its generation is current;
/// every activation or deactivation starts a new generation.
pub struct OverlayRefresh {
    active_screen_id: Option<String>,
    generation: u64,
}

impl View for OverlayRefresh {
    type V = (Option<Seq<char>>, u64);

    closed spec fn view(&self) -> (Option<Seq<char>>, u64) {
        (
            match self.active_screen_id {
                Some(id) => Some(id@),
                None => None,
            },
            self.generation,
        )
    }
}

/// The generation after `generation`, wrapping around at the top of `u64`.
pub open spec fn next_generation(generation: u64) -> u64 {
    if generation == u64::MAX { 0 } else { (generation + 1) as u64 }
}

/// Whether a loop for `screen_id` started at `generation` is still the current one.
pub open spec fn refresh_is_current(
    state: (Option<Seq<char>>, u64),
    screen_id: Seq<char>,
    generation: u64,
) -> bool {
    state.1 == generation && state.0 == Some(screen_id)
}

impl OverlayRefresh {
    /// No active overlay, generation zero.
    pub fn new() -> (refresh: Self)
        ensures
            refresh@ == (None::<Seq<char>>, 0u64),
    {
        OverlayRefresh { active_screen_id: None, generation: 0 }
    }

    /// Makes `screen_id` the active overlay screen and returns the new generation,
    /// which its refresh loop must carry.
    pub fn activate(&mut self, screen_id: String) -> (generation: u64)
        ensures
            generation == next_generation(old(self)@.1),
            final(self)@ == (Some(screen_id@), generation),
    {
        self.active_screen_id = Some(screen_id);
        self.generation = if self.generation == u64::MAX { 0 } else { self.generation + 1 };
        self.generation
    }

    /// Clears the active overlay screen, starts a new generation and returns the previous one.
    pub fn deactivate(&mut self) -> (previous: u64)
        ensures
            previous == old(self)@.1,
            final(self)@ == (None::<Seq<char>>, next_generation(old(self)@.1)),
    {
        let previous = self.generation;
        self.active_screen_id = None;
        self.generation = if self.generation == u64::MAX { 0 } else { self.generation + 1 };
        previous
    }

    /// Whether the refresh loop for `screen_id` started at `generation` should keep running.
    pub fn is_current(&self, screen_id: &str, generation: u64) -> (current: bool)
        ensures
            current == refresh_is_current(self@, screen_id@, generation),
    {
        if self.generation != generation {
            return false;
        }
        match &self.active_screen_id {
            Some(active) => str_eq(active.as_str(), screen_id),
            None => false,
        }
    }

    /// Whether overlay snapshots for `screen_id` should be sent to the overlay window.
    pub fn is_active_screen(&self, screen_id: &str) -> (active: bool)
        ensures
            active == (self@.0 == Some(screen_id@)),
    {
        match &self.active_screen_id {
            Some(id) => str_eq(id.as_str(), screen_id),
            None => false,
        }
    }

    /// The active overlay screen, if any.
    pub fn active_screen_id(&self) -> (id: Option<String>)
        ensures
            match id {
                Some(s) => self@.0 == Some(s@),
                None => self@.0 is None,
            },
    {
        match &self.active_screen_id {
            Some(s) => Some(s.clone()),
            None => None,
        }
    }
}

/// An activation makes its own loop current: the returned generation with the
/// activated screen passes `is_current`.
pub proof fn lemma_activated_loop_is_current(
    before: (Option<Seq<char>>, u64),
    screen_id: Seq<char>,
)
    ensures
        refresh_is_current(
            (Some(screen_id), next_generation(before.1)),
            screen_id,
            next_generation(before.1),
        ),
{
}

/// Any activation or deactivation retires every loop that was current before it:
/// no (screen, generation) pair current before a transition is current after it.
pub proof fn lemma_transition_retires_loops(
    before: (Option<Seq<char>>, u64),
    next_active: Option<Seq<char>>,
    screen_id: Seq<char>,
    generation: u64,
)
    requires
        refresh_is_current(before, screen_id, generation),
    ensures
        !refresh_is_current((next_active, next_generation(before.1)), screen_id, generation),
{
}

/// After a deactivation no loop is current, whatever screen and generation it carries.
pub proof fn lemma_deactivated_nothing_current(
    before: (Option<Seq<char>>, u64),
    screen_id: Seq<char>,
    generation: u64,
)
    ensures
        !refresh_is_current((None, next_generation(before.1)), screen_id, generation),
{
}

/// How many frames a live dataset recording has written out of its allowance.
pub struct DatasetQuota {
    frames_written: u64,
    max_frames: u64,
}

impl View for DatasetQuota {
    type V = (nat, nat);

    closed spec fn view(&self) -> (nat, nat) {
        (self.frames_written as nat, self.max_frames as nat)
    }
}

impl DatasetQuota {
    /// The recording never writes more frames than its allowance.
    pub closed spec fn wf(&self) -> bool {
        self.frames_written <= self.max_frames
    }

    /// A fresh recording allowed `max_frames` frames.
    pub fn new(max_frames: u64) -> (quota: Self)
        ensures
            quota@ == (0nat, max_frames as nat),
            quota.wf(),
    {
        DatasetQuota { frames_written: 0, max_frames }
    }

    /// Whether another frame may be recorded.
    pub fn has_room(&self) -> (room: bool)
        ensures
            room == (self@.0 < self@.1),
    {
        self.frames_written < self.max_frames
    }

    /// Counts one more written frame; returns whether that used up the allowance.
    pub fn frame_written(&mut self) -> (reached_limit: bool)
        requires
            old(self).wf(),
            old(self)@.0 < old(self)@.1,
        ensures
            final(self).wf(),
            final(self)@ == (old(self)@.0 + 1, old(self)@.1),
            reached_limit == (final(self)@.0 == final(self)@.1),
    {
        self.frames_written = self.frames_written + 1;
        self.frames_written == self.max_frames
    }

    /// Frames written so far.
    pub fn frames_written(&self) -> (n: u64)
        ensures
            n == self@.0,
    {
        self.frames_written
    }

    /// The allowance.
    pub fn max_frames(&self) -> (n: u64)
        ensures
            n == self@.1,
    {
        self.max_frames
    }
}

/// `digits` with zeros in front up to `width` characters.
pub open spec fn zero_padded(digits: Seq<char>, width: nat) -> Seq<char> {
    if digits.len() >= width {
        digits
    } else {
        Seq::new((width - digits.len()) as nat, |i: int| '0') + digits
    }
}

/// File name of the raw frame that a live dataset stores for snapshot `sequence`.
pub open spec fn frame_file_name(sequence: u64) -> Seq<char> {
    "frame-"@ + zero_padded(decimal(sequence as nat), 6) + ".rgba"@
}

/// Names the raw RGBA file of a recorded live frame: the sequence number padded to
/// six digits, such as `frame-000042.rgba`.
pub fn dataset_frame_name(sequence: u64) -> (name: String)
    ensures
        name@ == frame_file_name(sequence),
{
    let mut digits = String::new();
    push_decimal(&mut digits, sequence as u128);
    let width = digits.unicode_len();
    let mut name = String::new();
    push_str(&mut name, "frame-");
    let ghost start = name@;
    let mut k: usize = width;
    while k < 6
        invariant
            width == digits@.len(),
            width <= k <= 6 || (width > 6 && k == width),
            name@ == start + Seq::new((k - width) as nat, |i: int| '0'),
        decreases 6 - k,
    {
        push_char(&mut name, '0');
        assert(name@ =~= start + Seq::new((k + 1 - width) as nat, |i: int| '0'));
        k = k + 1;
    }
    push_str(&mut name, digits.as_str());
    push_str(&mut name, ".rgba");
    assert(name@ =~= frame_file_name(sequence)) by {
        if width >= 6 {
            assert(Seq::new((k - width) as nat, |i: int| '0') =~= Seq::<char>::empty());
        }
    }
    name
}

/// One line of the application log: time, scope and message, then the payload after a
/// bar unless it is missing or blank.
pub open spec fn log_line_text(
    millis: u128,
    scope: Seq<char>,
    message: Seq<char>,
    payload: Option<Seq<char>>,
) -> Seq<char> {
    let head = "["@ + decimal(millis as nat) + "] ["@ + scope + "] "@ + message;
    match payload {
        Some(value) => if is_blank(value) {
            head + "\n"@
        } else {
            head + " | "@ + value + "\n"@
        },
        None => head + "\n"@,
    }
}

/// Formats a line of the application log.
pub fn app_log_line(millis: u128, scope: &str, message: &str, payload: Option<&str>) -> (line: String)
    ensures
        line@ == log_line_text(
            millis,
            scope@,
            message@,
            match payload {
                Some(v) => Some(v@),
                None => None,
            },
        ),
{
    let mut line = String::new();
    push_str(&mut line, "[");
    push_decimal(&mut line, millis);
    push_str(&mut line, "] [");
    push_str(&mut line, scope);
    push_str(&mut line, "] ");
    push_str(&mut line, message);
    match payload {
        Some(value) => {
            if !str_is_blank(value) {
                push_str(&mut line, " | ");
                push_str(&mut line, value);
            }
        },
        None => {},
    }
    push_str(&mut line, "\n");
    line
}

/// Picks the screen for a live snapshot from the screens' ids and primary flags: the
/// first with the requested id, else the first primary screen, else the first screen;
/// none when there are no screens.
pub fn pick_screen(ids: &Vec<String>, primary: &Vec<bool>, wanted: &str) -> (index: Option<usize>)
    requires
        ids@.len() == primary@.len(),
    ensures
        match index {
            Some(i) => i < ids@.len() && (if exists|k: int| 0 <= k < ids@.len() && ids@[k]@ == wanted@ {
                ids@[i as int]@ == wanted@ && forall|j: int| 0 <= j < i ==> ids@[j]@ != wanted@
            } else if exists|k: int| 0 <= k < primary@.len() && primary@[k] {
                primary@[i as int] && forall|j: int| 0 <= j < i ==> !primary@[j]
            } else {
                i == 0
            }),
            None => ids@.len() == 0,
        },
{
    let mut i: usize = 0;
    while i < ids.len()
        invariant
            i <= ids@.len(),
            forall|j: int| 0 <= j < i ==> ids@[j]@ != wanted@,
        decreases ids.len() - i,
    {
        if str_eq(ids[i].as_str(), wanted) {
            return Some(i);
        }
        i = i + 1;
    }
    let mut k: usize = 0;
    while k < primary.len()
        invariant
            ids@.len() == primary@.len(),
            k <= primary@.len(),
            forall|j: int| 0 <= j < ids@.len() ==> ids@[j]@ != wanted@,
            forall|j: int| 0 <= j < k ==> !primary@[j],
        decreases primary.len() - k,
    {
        if primary[k] {
            return Some(k);
        }
        k = k + 1;
    }
    if ids.len() > 0 {
        Some(0)
    } else {
        None
    }
}

} // verus!
