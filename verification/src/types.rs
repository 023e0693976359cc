use vstd::prelude::*;

verus! {

/// A flagged word together with the half-open character range `[start, end)`
/// that it occupies in its source text.
#[derive(Debug, Clone, PartialEq, Eq)]
pub struct UnknownIndex {
    pub word: String,
    pub start: i32,
    pub end: i32,
}

/// Mathematical model of an [`UnknownIndex`].
pub struct UnknownIndexModel {
    pub word: Seq<char>,
    pub start: int,
    pub end: int,
}

impl View for UnknownIndex {
    type V = UnknownIndexModel;

    open spec fn view(&self) -> UnknownIndexModel {
        UnknownIndexModel { word: self.word@, start: self.start as int, end: self.end as int }
    }
}

impl DeepView for UnknownIndex {
    type V = UnknownIndexModel;

    open spec fn deep_view(&self) -> UnknownIndexModel {
        self@
    }
}

/// A half-open character range `[start, end)` that carries a warning.
#[derive(Debug, Clone, PartialEq, Eq)]
pub struct WarningIndex {
    pub start: i32,
    pub end: i32,
}

/// The analysis of one utterance: its text and the ranges flagged in the
/// heard text and in the produced text.
#[derive(Debug, Clone, PartialEq, Eq)]
pub struct SoundResponse {
    pub text: String,
    pub input_unknown_indexes: Vec<UnknownIndex>,
    pub output_unknown_indexes: Vec<UnknownIndex>,
    pub output_warning_indexes: Vec<WarningIndex>,
}

/// The warning mark on a run: an identifier and, where known, the flagged word.
#[derive(Debug, Clone, PartialEq, Eq)]
pub struct UnknownAttribute {
    pub uuid: String,
    pub unknown: Option<String>,
    pub num: Option<i32>,
}

/// Mathematical model of an [`UnknownAttribute`].
pub struct UnknownAttributeModel {
    pub uuid: Seq<char>,
    pub unknown: Option<Seq<char>>,
    pub num: Option<i32>,
}

impl View for UnknownAttribute {
    type V = UnknownAttributeModel;

    open spec fn view(&self) -> UnknownAttributeModel {
        UnknownAttributeModel {
            uuid: self.uuid@,
            unknown: match self.unknown {
                Some(w) => Some(w@),
                None => None,
            },
            num: self.num,
        }
    }
}

/// The marks a run may carry.
#[derive(Debug, Clone, PartialEq, Eq)]
pub struct Attributes {
    pub warning: Option<UnknownAttribute>,
    pub caution: Option<String>,
}

/// Mathematical model of [`Attributes`].
pub struct AttributesModel {
    pub warning: Option<UnknownAttributeModel>,
    pub caution: Option<Seq<char>>,
}

impl View for Attributes {
    type V = AttributesModel;

    open spec fn view(&self) -> AttributesModel {
        AttributesModel {
            warning: match self.warning {
                Some(w) => Some(w@),
                None => None,
            },
            caution: match self.caution {
                Some(c) => Some(c@),
                None => None,
            },
        }
    }
}

/// A subtitle cue: how many whole seconds it is shown, and its rendered text.
#[derive(Debug, Clone, PartialEq, Eq)]
pub struct Srt {
    pub duration: u64,
    pub text: String,
}

/// Mathematical model of an [`Srt`].
pub struct SrtModel {
    pub duration: nat,
    pub text: Seq<char>,
}

impl View for Srt {
    type V = SrtModel;

    open spec fn view(&self) -> SrtModel {
        SrtModel { duration: self.duration as nat, text: self.text@ }
    }
}

impl DeepView for Srt {
    type V = SrtModel;

    open spec fn deep_view(&self) -> SrtModel {
        self@
    }
}

/// A run: a fragment of text and the marks it carries, if any.
#[derive(Debug, Clone, PartialEq, Eq)]
pub struct Delta {
    pub insert: String,
    pub attributes: Option<Attributes>,
}

/// Mathematical model of a [`Delta`].
pub struct DeltaModel {
    pub insert: Seq<char>,
    pub attributes: Option<AttributesModel>,
}

impl View for Delta {
    type V = DeltaModel;

    open spec fn view(&self) -> DeltaModel {
        DeltaModel {
            insert: self.insert@,
            attributes: match self.attributes {
                Some(a) => Some(a@),
                None => None,
            },
        }
    }
}

impl DeepView for Delta {
    type V = DeltaModel;

    open spec fn deep_view(&self) -> DeltaModel {
        self@
    }
}

/// The runs of the heard text and of the produced text.
#[derive(Debug, Clone, PartialEq, Eq)]
pub struct SoundDelta {
    pub input: Vec<Delta>,
    pub output: Vec<Delta>,
}

/// The text of all runs in order, joined.
pub open spec fn inserted_text(runs: Seq<DeltaModel>) -> Seq<char> {
    runs.map_values(|r: DeltaModel| r.insert).flatten()
}

/// Adds a cue at the end of `cues`.
pub fn push_cue(cues: &mut Vec<Srt>, cue: Srt)
    ensures
        final(cues)@ == old(cues)@.push(cue),
        final(cues).deep_view() == old(cues).deep_view().push(cue@),
{
    cues.push(cue);
    assert(cues.deep_view() =~= old(cues).deep_view().push(cue@));
}

/// Adds a run at the end of `runs`.
pub fn push_run(runs: &mut Vec<Delta>, run: Delta)
    ensures
        final(runs)@ == old(runs)@.push(run),
        final(runs).deep_view() == old(runs).deep_view().push(run@),
{
    runs.push(run);
    assert(runs.deep_view() =~= old(runs).deep_view().push(run@));
}

} // verus!
