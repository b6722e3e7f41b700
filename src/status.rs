use vstd::prelude::*;
use crate::text::chars_of;

verus! {

/// Schedule bucket for tasks.
#[derive(Debug, Clone, Copy, PartialEq, Eq, Structural)]
pub enum ScheduleDay {
    Today,
    Tomorrow,
}

/// Runtime status of a task or subtask.
#[derive(Debug, Clone, Copy, PartialEq, Eq, Structural)]
pub enum RunStatus {
    Idle,
    Running,
    Paused,
    Done,
    Postponed,
}

/// The status that a canonical (upper-case) tag names.
pub open spec fn status_of_tag(t: Seq<char>) -> Option<RunStatus> {
    if t == "IDLE"@ {
        Some(RunStatus::Idle)
    } else if t == "RUNNING"@ {
        Some(RunStatus::Running)
    } else if t == "PAUSED"@ {
        Some(RunStatus::Paused)
    } else if t == "DONE"@ {
        Some(RunStatus::Done)
    } else if t == "POSTPONED"@ {
        Some(RunStatus::Postponed)
    } else {
        None
    }
}

/// The text of the tag of a status.
pub open spec fn tag_text(s: RunStatus) -> Seq<char> {
    match s {
        RunStatus::Idle => "IDLE"@,
        RunStatus::Running => "RUNNING"@,
        RunStatus::Paused => "PAUSED"@,
        RunStatus::Done => "DONE"@,
        RunStatus::Postponed => "POSTPONED"@,
    }
}

/// The upper-case form of a string, as `str::to_uppercase` computes it.
pub uninterp spec fn upper_of(s: Seq<char>) -> Seq<char>;

/// Relies on str::to_uppercase: the result depends on the characters alone.
#[verifier::external_body]
fn uppercase(s: &str) -> (r: String)
    ensures
        r@ == upper_of(s@),
{
    s.to_uppercase()
}

/// Whether the characters of `t` spell `w`.
pub fn same_text(t: &str, w: &str) -> (r: bool)
    ensures
        r == (t@ == w@),
{
    let a = chars_of(t);
    let b = chars_of(w);
    if a.len() != b.len() {
        return false;
    }
    let mut i: usize = 0;
    while i < a.len()
        invariant
            a@ == t@,
            b@ == w@,
            a@.len() == b@.len(),
            i <= a@.len(),
            a@.subrange(0, i as int) == b@.subrange(0, i as int),
        decreases a@.len() - i,
    {
        if a[i] != b[i] {
            assert(t@[i as int] != w@[i as int]);
            return false;
        }
        assert(a@.subrange(0, i + 1) == a@.subrange(0, i as int).push(a@[i as int]));
        assert(b@.subrange(0, i + 1) == b@.subrange(0, i as int).push(b@[i as int]));
        i = i + 1;
    }
    assert(a@ == a@.subrange(0, a@.len() as int));
    assert(b@ == b@.subrange(0, b@.len() as int));
    true
}

/// Tags differ from each other.
pub proof fn lemma_tags_distinct()
    ensures
        forall|a: RunStatus, b: RunStatus| tag_text(a) == tag_text(b) ==> a == b,
{
    reveal_strlit("IDLE");
    reveal_strlit("RUNNING");
    reveal_strlit("PAUSED");
    reveal_strlit("DONE");
    reveal_strlit("POSTPONED");
    assert("IDLE"@.len() == 4 && "RUNNING"@.len() == 7 && "PAUSED"@.len() == 6);
    assert("DONE"@.len() == 4 && "POSTPONED"@.len() == 9);
    assert("IDLE"@[0] != "DONE"@[0]);
}

/// Reading the tag of a status gives the status back.
pub proof fn lemma_tag_round_trip(s: RunStatus)
    ensures
        status_of_tag(tag_text(s)) == Some(s),
{
    lemma_tags_distinct();
    assert(tag_text(RunStatus::Idle) == "IDLE"@);
    assert(tag_text(RunStatus::Running) == "RUNNING"@);
    assert(tag_text(RunStatus::Paused) == "PAUSED"@);
    assert(tag_text(RunStatus::Done) == "DONE"@);
}

impl RunStatus {
    /// Whether the status belongs in the active section of a daily file.
    pub open spec fn spec_is_active(self) -> bool {
        self is Idle || self is Running || self is Paused
    }

    /// The status a tag names, read without regard to case.
    pub open spec fn spec_from_tag(t: Seq<char>) -> Option<RunStatus> {
        if status_of_tag(t) is Some {
            status_of_tag(t)
        } else {
            status_of_tag(upper_of(t))
        }
    }

    /// The status that a canonical tag names (exact spelling).
    pub fn from_canonical_tag(tag: &str) -> (r: Option<Self>)
        ensures
            r == status_of_tag(tag@),
    {
        if same_text(tag, "IDLE") {
            Some(RunStatus::Idle)
        } else if same_text(tag, "RUNNING") {
            Some(RunStatus::Running)
        } else if same_text(tag, "PAUSED") {
            Some(RunStatus::Paused)
        } else if same_text(tag, "DONE") {
            Some(RunStatus::Done)
        } else if same_text(tag, "POSTPONED") {
            Some(RunStatus::Postponed)
        } else {
            None
        }
    }

    /// Parse status from a markdown tag like "RUNNING" (case-insensitive).
    pub fn from_tag(tag: &str) -> (r: Option<Self>)
        ensures
            r == Self::spec_from_tag(tag@),
    {
        let exact = Self::from_canonical_tag(tag);
        if exact.is_some() {
            exact
        } else {
            let up = uppercase(tag);
            Self::from_canonical_tag(up.as_str())
        }
    }

    /// Convert status to markdown tag.
    pub fn to_tag(&self) -> (r: &'static str)
        ensures
            r@ == tag_text(*self),
    {
        match self {
            RunStatus::Idle => "IDLE",
            RunStatus::Running => "RUNNING",
            RunStatus::Paused => "PAUSED",
            RunStatus::Done => "DONE",
            RunStatus::Postponed => "POSTPONED",
        }
    }

    /// Check if status is valid for the active section (excludes DONE/POSTPONED).
    pub fn is_active(&self) -> (r: bool)
        ensures
            r == self.spec_is_active(),
    {
        match self {
            RunStatus::Idle | RunStatus::Running | RunStatus::Paused => true,
            _ => false,
        }
    }
}

/// UI mode for the application.
#[derive(Debug, Clone, Copy, PartialEq, Eq, Structural)]
pub enum UiMode {
    Normal,
    EditingNotes,
    EditingEstimate,
    Modal,
    AddingTask,
    AddingSubtask,
    EditingTask,
    IdleCheck,
    EditingJournal,
    DayChanged,
    ModeSelector,
}

/// Global activity state for the application.
#[derive(Debug, Clone, Copy, PartialEq, Eq, Structural)]
pub enum GlobalState {
    /// At least one task is running.
    Running,
    /// No task is running, but at least one is paused.
    Paused,
    /// All tasks are idle (or there are none).
    Idle,
}

/// Global context mode representing the user's current life state.
#[derive(Debug, Clone, Copy, PartialEq, Eq, Structural)]
pub enum GlobalMode {
    /// Active focus time; timers run normally.
    Working,
    /// Short break.
    Break,
    /// Lunch break.
    Lunch,
    /// Exercise time.
    Gym,
    /// Dinner time.
    Dinner,
    /// Personal errands.
    Personal,
    /// Night time.
    Sleep,
}

impl GlobalMode {
    /// The display name of a mode.
    pub open spec fn spec_name(self) -> Seq<char> {
        match self {
            GlobalMode::Working => "Working"@,
            GlobalMode::Break => "Break"@,
            GlobalMode::Lunch => "Lunch"@,
            GlobalMode::Gym => "Gym"@,
            GlobalMode::Dinner => "Dinner"@,
            GlobalMode::Personal => "Personal"@,
            GlobalMode::Sleep => "Sleep"@,
        }
    }

    /// The symbol shown for a mode.
    pub open spec fn spec_symbol(self) -> Seq<char> {
        match self {
            GlobalMode::Working => "💼"@,
            GlobalMode::Break => "☁️"@,
            GlobalMode::Lunch => "🍽"@,
            GlobalMode::Gym => "🏋️"@,
            GlobalMode::Dinner => "🍲"@,
            GlobalMode::Personal => "🏡"@,
            GlobalMode::Sleep => "🌙"@,
        }
    }

    /// The phrase shown in the focus garden for a mode.
    pub open spec fn spec_phrase(self) -> Seq<char> {
        match self {
            GlobalMode::Working => ""@,
            GlobalMode::Break => "Breathe and reset ☁️"@,
            GlobalMode::Lunch => "Nourish before you bloom again 🍽"@,
            GlobalMode::Gym => "Strength feeds focus 🏋️"@,
            GlobalMode::Dinner => "Evening nourishment 🍲"@,
            GlobalMode::Personal => "Tending your own garden 🏡"@,
            GlobalMode::Sleep => "Rest — tomorrow's seeds await 🌙"@,
        }
    }

    /// Get the emoji symbol for this mode.
    pub fn symbol(&self) -> (r: &'static str)
        ensures
            r@ == self.spec_symbol(),
    {
        match self {
            GlobalMode::Working => "💼",
            GlobalMode::Break => "☁️",
            GlobalMode::Lunch => "🍽",
            GlobalMode::Gym => "🏋️",
            GlobalMode::Dinner => "🍲",
            GlobalMode::Personal => "🏡",
            GlobalMode::Sleep => "🌙",
        }
    }

    /// Get the display name for this mode.
    pub fn name(&self) -> (r: &'static str)
        ensures
            r@ == self.spec_name(),
    {
        match self {
            GlobalMode::Working => "Working",
            GlobalMode::Break => "Break",
            GlobalMode::Lunch => "Lunch",
            GlobalMode::Gym => "Gym",
            GlobalMode::Dinner => "Dinner",
            GlobalMode::Personal => "Personal",
            GlobalMode::Sleep => "Sleep",
        }
    }

    /// Get the contextual phrase for this mode.
    pub fn contextual_phrase(&self) -> (r: &'static str)
        ensures
            r@ == self.spec_phrase(),
    {
        match self {
            GlobalMode::Working => "",
            GlobalMode::Break => "Breathe and reset ☁️",
            GlobalMode::Lunch => "Nourish before you bloom again 🍽",
            GlobalMode::Gym => "Strength feeds focus 🏋️",
            GlobalMode::Dinner => "Evening nourishment 🍲",
            GlobalMode::Personal => "Tending your own garden 🏡",
            GlobalMode::Sleep => "Rest — tomorrow's seeds await 🌙",
        }
    }

    /// Whether timers are paused while this mode holds.
    pub open spec fn spec_pauses_timers(self) -> bool {
        !(self is Working)
    }

    /// Check if this mode should pause timers.
    pub fn should_pause_timers(&self) -> (r: bool)
        ensures
            r == self.spec_pauses_timers(),
    {
        !matches!(self, GlobalMode::Working)
    }

    /// All modes, in display order.
    pub open spec fn all_spec() -> Seq<GlobalMode> {
        seq![
            GlobalMode::Working,
            GlobalMode::Break,
            GlobalMode::Lunch,
            GlobalMode::Gym,
            GlobalMode::Dinner,
            GlobalMode::Personal,
            GlobalMode::Sleep,
        ]
    }

    /// Get all modes as a list, in display order.
    pub fn all() -> (r: Vec<GlobalMode>)
        ensures
            r@ == Self::all_spec(),
    {
        vec![
            GlobalMode::Working,
            GlobalMode::Break,
            GlobalMode::Lunch,
            GlobalMode::Gym,
            GlobalMode::Dinner,
            GlobalMode::Personal,
            GlobalMode::Sleep,
        ]
    }
}

} // verus!
