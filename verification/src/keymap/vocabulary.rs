//! The names that key maps are written in: the shipped presets, the states that a
//! binding can be for, and the actions that a key can be bound to.

use super::presets::{ATOK_PRESET, MS_IME_PRESET};
use crate::strings;
use vstd::prelude::*;

verus! {

/// The name that takes a binding away in place of adding one.
pub const UNBOUND: &'static str = "unbound";

/// The section whose bindings hold in every state.
pub const GLOBAL_SECTION: &'static str = "global";

/// A shipped key map.
#[derive(Debug, Clone, Copy, PartialEq, Eq, Structural)]
pub enum Preset {
    /// The keys of Microsoft IME.
    MsIme,
    /// The keys of ATOK.
    Atok,
}

impl Default for Preset {
    fn default() -> (r: Self)
        ensures
            r == Preset::MsIme,
    {
        Preset::MsIme
    }
}

impl Preset {
    /// Every preset, in order.
    pub const ALL: [Preset; 2] = [Preset::MsIme, Preset::Atok];

    /// The name of the preset.
    pub open spec fn name_of(self) -> Seq<char> {
        match self {
            Preset::MsIme => "ms-ime"@,
            Preset::Atok => "atok"@,
        }
    }

    /// The name of the preset.
    pub fn name(self) -> (s: &'static str)
        ensures
            s@ == self.name_of(),
    {
        match self {
            Preset::MsIme => "ms-ime",
            Preset::Atok => "atok",
        }
    }

    /// The preset of a name.
    pub open spec fn named(name: Seq<char>) -> Option<Preset> {
        if name == Preset::MsIme.name_of() {
            Some(Preset::MsIme)
        } else if name == Preset::Atok.name_of() {
            Some(Preset::Atok)
        } else {
            None
        }
    }

    /// The preset of a name.
    pub fn from_name(name: &str) -> (r: Option<Self>)
        ensures
            r == Preset::named(name@),
    {
        if strings::same_text(name, "ms-ime") {
            Some(Preset::MsIme)
        } else if strings::same_text(name, "atok") {
            Some(Preset::Atok)
        } else {
            None
        }
    }

    /// The document of the preset.
    pub open spec fn source_of(self) -> Seq<char> {
        match self {
            Preset::MsIme => MS_IME_PRESET@,
            Preset::Atok => ATOK_PRESET@,
        }
    }

    /// The document of the preset.
    pub fn source(self) -> (s: &'static str)
        ensures
            s@ == self.source_of(),
    {
        match self {
            Preset::MsIme => MS_IME_PRESET,
            Preset::Atok => ATOK_PRESET,
        }
    }
}

/// What the composition is doing, which decides what a key means.
#[derive(Debug, Clone, Copy, PartialEq, Eq, PartialOrd, Ord, Structural)]
pub enum State {
    /// There is no composition.
    Idle,
    /// Text is being typed.
    Composing,
    /// Conversion has started, and there are segments and candidates.
    Converting,
    /// A prediction is focused.
    Predicting,
}

impl State {
    /// Every state, in order.
    pub const ALL: [State; 4] = [
        State::Idle,
        State::Composing,
        State::Converting,
        State::Predicting,
    ];

    /// The name of the section for the state.
    pub open spec fn section_of(self) -> Seq<char> {
        match self {
            State::Idle => "idle"@,
            State::Composing => "composing"@,
            State::Converting => "converting"@,
            State::Predicting => "predicting"@,
        }
    }

    /// The name of the section for the state.
    pub fn section(self) -> (s: &'static str)
        ensures
            s@ == self.section_of(),
    {
        match self {
            State::Idle => "idle",
            State::Composing => "composing",
            State::Converting => "converting",
            State::Predicting => "predicting",
        }
    }

    /// The state of a section.
    pub open spec fn named(name: Seq<char>) -> Option<State> {
        if name == State::Idle.section_of() {
            Some(State::Idle)
        } else if name == State::Composing.section_of() {
            Some(State::Composing)
        } else if name == State::Converting.section_of() {
            Some(State::Converting)
        } else if name == State::Predicting.section_of() {
            Some(State::Predicting)
        } else {
            None
        }
    }

    /// The state of a section.
    pub fn from_section(name: &str) -> (r: Option<State>)
        ensures
            r == State::named(name@),
    {
        if strings::same_text(name, "idle") {
            Some(State::Idle)
        } else if strings::same_text(name, "composing") {
            Some(State::Composing)
        } else if strings::same_text(name, "converting") {
            Some(State::Converting)
        } else if strings::same_text(name, "predicting") {
            Some(State::Predicting)
        } else {
            None
        }
    }
}

/// What a key can be bound to.
#[derive(Debug, Clone, Copy, PartialEq, Eq, Structural)]
pub enum Action {
    /// Turn the input method on or off (半角/全角).
    ImeToggle,
    ImeOn,
    ImeOff,
    ModeHiragana,
    ModeKatakana,
    ModeHalfKatakana,
    ModeFullAlnum,
    ModeHalfAlnum,
    ModeDirect,
    /// Hiragana to katakana and back.
    ModeKanaToggle,
    /// Hiragana, katakana, half-width katakana, and around again.
    ModeKanaCycle,
    /// Hiragana to alphanumeric and back (英数).
    ModeAlnumToggle,
    /// Half-width to full-width alphanumeric and back.
    ModeAlnumWidthToggle,
    /// Commit what is focused.
    Commit,
    /// Commit the top prediction without focusing the list first.
    CommitFirst,
    /// Back out one stage: candidates, preedit, nothing.
    Cancel,
    /// Start conversion, or move on to the next candidate.
    Convert,
    ConvertPrev,
    CandidateNext,
    CandidatePrev,
    CandidatePageDown,
    CandidatePageUp,
    Candidate1,
    Candidate2,
    Candidate3,
    Candidate4,
    Candidate5,
    Candidate6,
    Candidate7,
    Candidate8,
    Candidate9,
    /// Open the table of all candidates.
    CandidateExpand,
    /// Focus the next prediction. The first press enters the list.
    PredictNext,
    PredictPrev,
    /// Forget the focused prediction, where it was learned.
    DeletePredictionHistory,
    SegmentPrev,
    SegmentNext,
    SegmentShrink,
    SegmentGrow,
    /// Focus the first segment.
    SegmentHome,
    /// Focus the last segment.
    SegmentEnd,
    CaretLeft,
    CaretRight,
    CaretHome,
    CaretEnd,
    DeleteBack,
    DeleteForward,
    /// Claim the key and do nothing, so that it does not reach the application.
    Swallow,
    /// The forms of the focused segment.
    TransformHiragana,
    TransformKatakana,
    TransformHalfKatakana,
    TransformFullAlnum,
    TransformHalfAlnum,
    /// Pull the selection back into composition.
    Reconvert,
    /// Take the last commit back.
    UndoCommit,
}

/// The number of actions.
pub const ACTION_COUNT: usize = 55;

impl Action {
    /// Every action, in order.
    pub const ALL: [Action; 55] = [
        Action::ImeToggle,
        Action::ImeOn,
        Action::ImeOff,
        Action::ModeHiragana,
        Action::ModeKatakana,
        Action::ModeHalfKatakana,
        Action::ModeFullAlnum,
        Action::ModeHalfAlnum,
        Action::ModeDirect,
        Action::ModeKanaToggle,
        Action::ModeKanaCycle,
        Action::ModeAlnumToggle,
        Action::ModeAlnumWidthToggle,
        Action::Commit,
        Action::CommitFirst,
        Action::Cancel,
        Action::Convert,
        Action::ConvertPrev,
        Action::CandidateNext,
        Action::CandidatePrev,
        Action::CandidatePageDown,
        Action::CandidatePageUp,
        Action::Candidate1,
        Action::Candidate2,
        Action::Candidate3,
        Action::Candidate4,
        Action::Candidate5,
        Action::Candidate6,
        Action::Candidate7,
        Action::Candidate8,
        Action::Candidate9,
        Action::CandidateExpand,
        Action::PredictNext,
        Action::PredictPrev,
        Action::DeletePredictionHistory,
        Action::SegmentPrev,
        Action::SegmentNext,
        Action::SegmentShrink,
        Action::SegmentGrow,
        Action::SegmentHome,
        Action::SegmentEnd,
        Action::CaretLeft,
        Action::CaretRight,
        Action::CaretHome,
        Action::CaretEnd,
        Action::DeleteBack,
        Action::DeleteForward,
        Action::Swallow,
        Action::TransformHiragana,
        Action::TransformKatakana,
        Action::TransformHalfKatakana,
        Action::TransformFullAlnum,
        Action::TransformHalfAlnum,
        Action::Reconvert,
        Action::UndoCommit,
    ];

    /// The place of the action in the order.
    pub open spec fn number_of(self) -> int {
        match self {
            Action::ImeToggle => 0,
            Action::ImeOn => 1,
            Action::ImeOff => 2,
            Action::ModeHiragana => 3,
            Action::ModeKatakana => 4,
            Action::ModeHalfKatakana => 5,
            Action::ModeFullAlnum => 6,
            Action::ModeHalfAlnum => 7,
            Action::ModeDirect => 8,
            Action::ModeKanaToggle => 9,
            Action::ModeKanaCycle => 10,
            Action::ModeAlnumToggle => 11,
            Action::ModeAlnumWidthToggle => 12,
            Action::Commit => 13,
            Action::CommitFirst => 14,
            Action::Cancel => 15,
            Action::Convert => 16,
            Action::ConvertPrev => 17,
            Action::CandidateNext => 18,
            Action::CandidatePrev => 19,
            Action::CandidatePageDown => 20,
            Action::CandidatePageUp => 21,
            Action::Candidate1 => 22,
            Action::Candidate2 => 23,
            Action::Candidate3 => 24,
            Action::Candidate4 => 25,
            Action::Candidate5 => 26,
            Action::Candidate6 => 27,
            Action::Candidate7 => 28,
            Action::Candidate8 => 29,
            Action::Candidate9 => 30,
            Action::CandidateExpand => 31,
            Action::PredictNext => 32,
            Action::PredictPrev => 33,
            Action::DeletePredictionHistory => 34,
            Action::SegmentPrev => 35,
            Action::SegmentNext => 36,
            Action::SegmentShrink => 37,
            Action::SegmentGrow => 38,
            Action::SegmentHome => 39,
            Action::SegmentEnd => 40,
            Action::CaretLeft => 41,
            Action::CaretRight => 42,
            Action::CaretHome => 43,
            Action::CaretEnd => 44,
            Action::DeleteBack => 45,
            Action::DeleteForward => 46,
            Action::Swallow => 47,
            Action::TransformHiragana => 48,
            Action::TransformKatakana => 49,
            Action::TransformHalfKatakana => 50,
            Action::TransformFullAlnum => 51,
            Action::TransformHalfAlnum => 52,
            Action::Reconvert => 53,
            Action::UndoCommit => 54,
        }
    }

    /// The name of the action.
    pub open spec fn name_of(self) -> Seq<char> {
        match self {
            Action::ImeToggle => "ime_toggle"@,
            Action::ImeOn => "ime_on"@,
            Action::ImeOff => "ime_off"@,
            Action::ModeHiragana => "mode_hiragana"@,
            Action::ModeKatakana => "mode_katakana"@,
            Action::ModeHalfKatakana => "mode_half_katakana"@,
            Action::ModeFullAlnum => "mode_full_alnum"@,
            Action::ModeHalfAlnum => "mode_half_alnum"@,
            Action::ModeDirect => "mode_direct"@,
            Action::ModeKanaToggle => "mode_kana_toggle"@,
            Action::ModeKanaCycle => "mode_kana_cycle"@,
            Action::ModeAlnumToggle => "mode_alnum_toggle"@,
            Action::ModeAlnumWidthToggle => "mode_alnum_width_toggle"@,
            Action::Commit => "commit"@,
            Action::CommitFirst => "commit_first"@,
            Action::Cancel => "cancel"@,
            Action::Convert => "convert"@,
            Action::ConvertPrev => "convert_prev"@,
            Action::CandidateNext => "candidate_next"@,
            Action::CandidatePrev => "candidate_prev"@,
            Action::CandidatePageDown => "candidate_page_down"@,
            Action::CandidatePageUp => "candidate_page_up"@,
            Action::Candidate1 => "candidate_1"@,
            Action::Candidate2 => "candidate_2"@,
            Action::Candidate3 => "candidate_3"@,
            Action::Candidate4 => "candidate_4"@,
            Action::Candidate5 => "candidate_5"@,
            Action::Candidate6 => "candidate_6"@,
            Action::Candidate7 => "candidate_7"@,
            Action::Candidate8 => "candidate_8"@,
            Action::Candidate9 => "candidate_9"@,
            Action::CandidateExpand => "candidate_expand"@,
            Action::PredictNext => "predict_next"@,
            Action::PredictPrev => "predict_prev"@,
            Action::DeletePredictionHistory => "delete_prediction_history"@,
            Action::SegmentPrev => "segment_prev"@,
            Action::SegmentNext => "segment_next"@,
            Action::SegmentShrink => "segment_shrink"@,
            Action::SegmentGrow => "segment_grow"@,
            Action::SegmentHome => "segment_home"@,
            Action::SegmentEnd => "segment_end"@,
            Action::CaretLeft => "caret_left"@,
            Action::CaretRight => "caret_right"@,
            Action::CaretHome => "caret_home"@,
            Action::CaretEnd => "caret_end"@,
            Action::DeleteBack => "delete_back"@,
            Action::DeleteForward => "delete_forward"@,
            Action::Swallow => "swallow"@,
            Action::TransformHiragana => "transform_hiragana"@,
            Action::TransformKatakana => "transform_katakana"@,
            Action::TransformHalfKatakana => "transform_half_katakana"@,
            Action::TransformFullAlnum => "transform_full_alnum"@,
            Action::TransformHalfAlnum => "transform_half_alnum"@,
            Action::Reconvert => "reconvert"@,
            Action::UndoCommit => "undo_commit"@,
        }
    }

    /// The name of the action.
    pub fn name(self) -> (s: &'static str)
        ensures
            s@ == self.name_of(),
    {
        match self {
            Action::ImeToggle => "ime_toggle",
            Action::ImeOn => "ime_on",
            Action::ImeOff => "ime_off",
            Action::ModeHiragana => "mode_hiragana",
            Action::ModeKatakana => "mode_katakana",
            Action::ModeHalfKatakana => "mode_half_katakana",
            Action::ModeFullAlnum => "mode_full_alnum",
            Action::ModeHalfAlnum => "mode_half_alnum",
            Action::ModeDirect => "mode_direct",
            Action::ModeKanaToggle => "mode_kana_toggle",
            Action::ModeKanaCycle => "mode_kana_cycle",
            Action::ModeAlnumToggle => "mode_alnum_toggle",
            Action::ModeAlnumWidthToggle => "mode_alnum_width_toggle",
            Action::Commit => "commit",
            Action::CommitFirst => "commit_first",
            Action::Cancel => "cancel",
            Action::Convert => "convert",
            Action::ConvertPrev => "convert_prev",
            Action::CandidateNext => "candidate_next",
            Action::CandidatePrev => "candidate_prev",
            Action::CandidatePageDown => "candidate_page_down",
            Action::CandidatePageUp => "candidate_page_up",
            Action::Candidate1 => "candidate_1",
            Action::Candidate2 => "candidate_2",
            Action::Candidate3 => "candidate_3",
            Action::Candidate4 => "candidate_4",
            Action::Candidate5 => "candidate_5",
            Action::Candidate6 => "candidate_6",
            Action::Candidate7 => "candidate_7",
            Action::Candidate8 => "candidate_8",
            Action::Candidate9 => "candidate_9",
            Action::CandidateExpand => "candidate_expand",
            Action::PredictNext => "predict_next",
            Action::PredictPrev => "predict_prev",
            Action::DeletePredictionHistory => "delete_prediction_history",
            Action::SegmentPrev => "segment_prev",
            Action::SegmentNext => "segment_next",
            Action::SegmentShrink => "segment_shrink",
            Action::SegmentGrow => "segment_grow",
            Action::SegmentHome => "segment_home",
            Action::SegmentEnd => "segment_end",
            Action::CaretLeft => "caret_left",
            Action::CaretRight => "caret_right",
            Action::CaretHome => "caret_home",
            Action::CaretEnd => "caret_end",
            Action::DeleteBack => "delete_back",
            Action::DeleteForward => "delete_forward",
            Action::Swallow => "swallow",
            Action::TransformHiragana => "transform_hiragana",
            Action::TransformKatakana => "transform_katakana",
            Action::TransformHalfKatakana => "transform_half_katakana",
            Action::TransformFullAlnum => "transform_full_alnum",
            Action::TransformHalfAlnum => "transform_half_alnum",
            Action::Reconvert => "reconvert",
            Action::UndoCommit => "undo_commit",
        }
    }

    /// The action of a name.
    pub open spec fn named(name: Seq<char>) -> Option<Action> {
        if exists|a: Action| #[trigger] a.name_of() == name {
            Some(choose|a: Action| #[trigger] a.name_of() == name)
        } else {
            None
        }
    }

    /// The action of a name.
    pub fn from_name(name: &str) -> (r: Option<Self>)
        ensures
            r == Action::named(name@),
    {
        let mut i: usize = 0;
        while i < ACTION_COUNT
            invariant
                i <= ACTION_COUNT,
                forall|k: int| 0 <= k < i ==> (#[trigger] Action::ALL@[k]).name_of() != name@,
            decreases ACTION_COUNT - i,
        {
            let action: Action = Action::ALL[i];
            if strings::same_text(action.name(), name) {
                proof {
                    assert(action.name_of() == name@);
                    let found = choose|a: Action| #[trigger] a.name_of() == name@;
                    lemma_action_names_differ(action, found);
                }
                return Some(action);
            }
            i = i + 1;
        }
        proof {
            assert forall|a: Action| #[trigger] a.name_of() != name@ by {
                lemma_action_listed(a);
                assert(Action::ALL@[a.number_of()].name_of() != name@);
            }
        }
        None
    }

    /// The place on a page of candidates that the action chooses, from zero.
    pub open spec fn offset_of(self) -> Option<usize> {
        if 22 <= self.number_of() <= 30 {
            Some((self.number_of() - 22) as usize)
        } else {
            None
        }
    }

    /// The place on a page of candidates that the action chooses, from zero.
    pub fn candidate_offset(self) -> (r: Option<usize>)
        ensures
            r == self.offset_of(),
    {
        match self {
            Action::Candidate1 => Some(0),
            Action::Candidate2 => Some(1),
            Action::Candidate3 => Some(2),
            Action::Candidate4 => Some(3),
            Action::Candidate5 => Some(4),
            Action::Candidate6 => Some(5),
            Action::Candidate7 => Some(6),
            Action::Candidate8 => Some(7),
            Action::Candidate9 => Some(8),
            _ => None,
        }
    }
}

/// Every action is in the list, at its place.
pub proof fn lemma_action_listed(action: Action)
    ensures
        0 <= action.number_of() < ACTION_COUNT,
        Action::ALL@[action.number_of()] == action,
{
}

/// The action with the name of a signature.
spec fn with_signature(n: int) -> Action {
    if n == 14764857926 {
        Action::ImeOn
    } else if n == 13691050567 {
        Action::ImeOff
    } else if n == 13121690445 {
        Action::ModeHiragana
    } else if n == 13121715021 {
        Action::ModeKatakana
    } else if n == 13132176210 {
        Action::ModeHalfKatakana
    } else if n == 14732286799 {
        Action::ModeFullAlnum
    } else if n == 14732303183 {
        Action::ModeHalfAlnum
    } else if n == 15691717451 {
        Action::ModeDirect
    } else if n == 13678508880 {
        Action::ModeKanaToggle
    } else if n == 13660683087 {
        Action::ModeKanaCycle
    } else if n == 13656406865 {
        Action::ModeAlnumToggle
    } else if n == 13656406871 {
        Action::ModeAlnumWidthToggle
    } else if n == 15570213062 {
        Action::Commit
    } else if n == 15690799308 {
        Action::CommitFirst
    } else if n == 14496405702 {
        Action::Cancel
    } else if n == 15570196679 {
        Action::Convert
    } else if n == 15944538316 {
        Action::ConvertPrev
    } else if n == 15685425358 {
        Action::CandidateNext
    } else if n == 15955957966 {
        Action::CandidatePrev
    } else if n == 14882216147 {
        Action::CandidatePageDown
    } else if n == 15150651601 {
        Action::CandidatePageUp
    } else if n == 6628874443 {
        Action::Candidate1
    } else if n == 6764140747 {
        Action::Candidate2
    } else if n == 6899407051 {
        Action::Candidate3
    } else if n == 7034673355 {
        Action::Candidate4
    } else if n == 7169939659 {
        Action::Candidate5
    } else if n == 7305205963 {
        Action::Candidate6
    } else if n == 7440472267 {
        Action::Candidate7
    } else if n == 7575738571 {
        Action::Candidate8
    } else if n == 7711004875 {
        Action::Candidate9
    } else if n == 13528504528 {
        Action::CandidateExpand
    } else if n == 15695903756 {
        Action::PredictNext
    } else if n == 15944416268 {
        Action::PredictPrev
    } else if n == 16346036505 {
        Action::DeletePredictionHistory
    } else if n == 15944506572 {
        Action::SegmentPrev
    } else if n == 15695994060 {
        Action::SegmentNext
    } else if n == 14481743054 {
        Action::SegmentShrink
    } else if n == 16089210060 {
        Action::SegmentGrow
    } else if n == 13671193804 {
        Action::SegmentHome
    } else if n == 13527538891 {
        Action::SegmentEnd
    } else if n == 15570041034 {
        Action::CaretLeft
    } else if n == 15691675851 {
        Action::CaretRight
    } else if n == 13556775114 {
        Action::CaretHome
    } else if n == 13422557385 {
        Action::CaretEnd
    } else if n == 14474328331 {
        Action::DeleteBack
    } else if n == 13547387150 {
        Action::DeleteForward
    } else if n == 15972826311 {
        Action::Swallow
    } else if n == 13129014546 {
        Action::TransformHiragana
    } else if n == 13132160274 {
        Action::TransformKatakana
    } else if n == 13129014551 {
        Action::TransformHalfKatakana
    } else if n == 14737530132 {
        Action::TransformFullAlnum
    } else if n == 14739627284 {
        Action::TransformHalfAlnum
    } else if n == 15570230409 {
        Action::Reconvert
    } else if n == 15691709771 {
        Action::UndoCommit
    } else {
        Action::ImeToggle
    }
}

proof fn lemma_action_signature(action: Action)
    ensures
        with_signature(strings::signature(action.name_of())) == action,
{
    match action {
        Action::ImeToggle => {
            reveal_strlit("ime_toggle");
        },
        Action::ImeOn => {
            reveal_strlit("ime_on");
        },
        Action::ImeOff => {
            reveal_strlit("ime_off");
        },
        Action::ModeHiragana => {
            reveal_strlit("mode_hiragana");
        },
        Action::ModeKatakana => {
            reveal_strlit("mode_katakana");
        },
        Action::ModeHalfKatakana => {
            reveal_strlit("mode_half_katakana");
        },
        Action::ModeFullAlnum => {
            reveal_strlit("mode_full_alnum");
        },
        Action::ModeHalfAlnum => {
            reveal_strlit("mode_half_alnum");
        },
        Action::ModeDirect => {
            reveal_strlit("mode_direct");
        },
        Action::ModeKanaToggle => {
            reveal_strlit("mode_kana_toggle");
        },
        Action::ModeKanaCycle => {
            reveal_strlit("mode_kana_cycle");
        },
        Action::ModeAlnumToggle => {
            reveal_strlit("mode_alnum_toggle");
        },
        Action::ModeAlnumWidthToggle => {
            reveal_strlit("mode_alnum_width_toggle");
        },
        Action::Commit => {
            reveal_strlit("commit");
        },
        Action::CommitFirst => {
            reveal_strlit("commit_first");
        },
        Action::Cancel => {
            reveal_strlit("cancel");
        },
        Action::Convert => {
            reveal_strlit("convert");
        },
        Action::ConvertPrev => {
            reveal_strlit("convert_prev");
        },
        Action::CandidateNext => {
            reveal_strlit("candidate_next");
        },
        Action::CandidatePrev => {
            reveal_strlit("candidate_prev");
        },
        Action::CandidatePageDown => {
            reveal_strlit("candidate_page_down");
        },
        Action::CandidatePageUp => {
            reveal_strlit("candidate_page_up");
        },
        Action::Candidate1 => {
            reveal_strlit("candidate_1");
        },
        Action::Candidate2 => {
            reveal_strlit("candidate_2");
        },
        Action::Candidate3 => {
            reveal_strlit("candidate_3");
        },
        Action::Candidate4 => {
            reveal_strlit("candidate_4");
        },
        Action::Candidate5 => {
            reveal_strlit("candidate_5");
        },
        Action::Candidate6 => {
            reveal_strlit("candidate_6");
        },
        Action::Candidate7 => {
            reveal_strlit("candidate_7");
        },
        Action::Candidate8 => {
            reveal_strlit("candidate_8");
        },
        Action::Candidate9 => {
            reveal_strlit("candidate_9");
        },
        Action::CandidateExpand => {
            reveal_strlit("candidate_expand");
        },
        Action::PredictNext => {
            reveal_strlit("predict_next");
        },
        Action::PredictPrev => {
            reveal_strlit("predict_prev");
        },
        Action::DeletePredictionHistory => {
            reveal_strlit("delete_prediction_history");
        },
        Action::SegmentPrev => {
            reveal_strlit("segment_prev");
        },
        Action::SegmentNext => {
            reveal_strlit("segment_next");
        },
        Action::SegmentShrink => {
            reveal_strlit("segment_shrink");
        },
        Action::SegmentGrow => {
            reveal_strlit("segment_grow");
        },
        Action::SegmentHome => {
            reveal_strlit("segment_home");
        },
        Action::SegmentEnd => {
            reveal_strlit("segment_end");
        },
        Action::CaretLeft => {
            reveal_strlit("caret_left");
        },
        Action::CaretRight => {
            reveal_strlit("caret_right");
        },
        Action::CaretHome => {
            reveal_strlit("caret_home");
        },
        Action::CaretEnd => {
            reveal_strlit("caret_end");
        },
        Action::DeleteBack => {
            reveal_strlit("delete_back");
        },
        Action::DeleteForward => {
            reveal_strlit("delete_forward");
        },
        Action::Swallow => {
            reveal_strlit("swallow");
        },
        Action::TransformHiragana => {
            reveal_strlit("transform_hiragana");
        },
        Action::TransformKatakana => {
            reveal_strlit("transform_katakana");
        },
        Action::TransformHalfKatakana => {
            reveal_strlit("transform_half_katakana");
        },
        Action::TransformFullAlnum => {
            reveal_strlit("transform_full_alnum");
        },
        Action::TransformHalfAlnum => {
            reveal_strlit("transform_half_alnum");
        },
        Action::Reconvert => {
            reveal_strlit("reconvert");
        },
        Action::UndoCommit => {
            reveal_strlit("undo_commit");
        },
    }
}

/// No two actions have the same name.
pub proof fn lemma_action_names_differ(a: Action, b: Action)
    requires
        a.name_of() == b.name_of(),
    ensures
        a == b,
{
    lemma_action_signature(a);
    lemma_action_signature(b);
}

/// No action has the name that takes a binding away.
pub proof fn lemma_unbound_is_no_action(action: Action)
    ensures
        action.name_of() != UNBOUND@,
{
    reveal_strlit("unbound");
    lemma_action_signature(action);
    let n = strings::signature("unbound"@);
    assert(with_signature(n) == Action::ImeToggle);
    assert(action.name_of() == UNBOUND@ ==> action == Action::ImeToggle);
    reveal_strlit("ime_toggle");
}

/// No state has the name of the section for every state, and no two states have
/// the same.
pub proof fn lemma_sections_differ(a: State, b: State)
    ensures
        a.section_of() != GLOBAL_SECTION@,
        a.section_of() == b.section_of() ==> a == b,
        State::named(a.section_of()) == Some(a),
{
    reveal_strlit("global");
    reveal_strlit("idle");
    reveal_strlit("composing");
    reveal_strlit("converting");
    reveal_strlit("predicting");
    assert(strings::signature("composing"@) != strings::signature("idle"@));
    assert(strings::signature("converting"@) != strings::signature("predicting"@));
}

} // verus!
