pub mod annotate;
pub mod cue;
pub mod measure;
pub mod text;
pub mod timecode;
pub mod types;
pub mod wrap;

use vstd::prelude::*;
use crate::annotate::{annotate, annotates, is_beginning, reach_within};
use crate::cue::{lemma_sequence_single_valued, line_to_sequence, sequences_to, SequenceModel};
use crate::measure::{accepts_all, single_valued};
use crate::timecode::{generate_subtitle, subtitle_text};
use crate::types::{inserted_text, Delta, DeltaModel, SoundDelta, SoundResponse, SrtModel};
use crate::wrap::{are_token_runs, lemma_wrap_single_valued, token_to_lines, wraps_to};

verus! {

/// Cuts the heard text and the produced text into runs at the ranges that
/// the response flags in each, and marks the run of every range with a fresh
/// random identifier and the flagged word. Of either text, what follows its
/// last range is left out. The warning ranges of the response play no part.
pub fn format_sound(input: &str, output: &str, response: SoundResponse) -> (delta: SoundDelta)
    ensures
        annotates(input@, response.input_unknown_indexes.deep_view(), delta.input.deep_view()),
        annotates(output@, response.output_unknown_indexes.deep_view(), delta.output.deep_view()),
        delta.input.len() == 2 * response.input_unknown_indexes.len(),
        delta.output.len() == 2 * response.output_unknown_indexes.len(),
        is_beginning(input@, inserted_text(delta.input.deep_view())),
        is_beginning(output@, inserted_text(delta.output.deep_view())),
        reach_within(input@, response.input_unknown_indexes.deep_view()) ==> inserted_text(
            delta.input.deep_view(),
        ) == input@.take(response.input_unknown_indexes.deep_view().last().end),
        reach_within(output@, response.output_unknown_indexes.deep_view()) ==> inserted_text(
            delta.output.deep_view(),
        ) == output@.take(response.output_unknown_indexes.deep_view().last().end),
{
    let input_delta = annotate(input, &response.input_unknown_indexes);
    let output_delta = annotate(output, &response.output_unknown_indexes);
    SoundDelta { input: input_delta, output: output_delta }
}

/// The lines that the tokens were wrapped into, the runs of these lines, the
/// warning categories met, and the subtitle file of the cues.
#[derive(Debug, Clone, PartialEq, Eq)]
pub struct NewLineResponse {
    pub lines: Vec<String>,
    pub input: Vec<Delta>,
    pub errors: Vec<String>,
    pub subtitle: String,
}

/// Mathematical model of a [`NewLineResponse`].
pub struct NewLineModel {
    pub lines: Seq<Seq<char>>,
    pub input: Seq<DeltaModel>,
    pub errors: Seq<Seq<char>>,
    pub subtitle: Seq<char>,
}

impl View for NewLineResponse {
    type V = NewLineModel;

    open spec fn view(&self) -> NewLineModel {
        NewLineModel {
            lines: self.lines.deep_view(),
            input: self.input.deep_view(),
            errors: self.errors.deep_view(),
            subtitle: self.subtitle@,
        }
    }
}

/// `out` is what the tokens come to: its lines are a wrapping of the tokens,
/// its runs and warning categories a sequencing of these lines, and its
/// subtitle file that of the cues of the same sequencing.
pub open spec fn formats_to<M: Fn(&str) -> i64>(
    measure: &M,
    tokens: Seq<Seq<char>>,
    max_width: int,
    out: NewLineModel,
) -> bool {
    &&& wraps_to(measure, tokens, max_width, out.lines)
    &&& exists|cues: Seq<SrtModel>|
        sequences_to(measure, out.lines, max_width, cues, out.input, out.errors) && out.subtitle
            == #[trigger] subtitle_text(cues)
}

/// Where `measure` answers every text with one width only, the tokens come
/// to one result only: doing the work again gives the same lines, runs,
/// warning categories and subtitle file.
pub proof fn lemma_format_single_valued<M: Fn(&str) -> i64>(
    measure: &M,
    tokens: Seq<Seq<char>>,
    max_width: int,
    first: NewLineModel,
    second: NewLineModel,
)
    requires
        single_valued(measure),
        formats_to(measure, tokens, max_width, first),
        formats_to(measure, tokens, max_width, second),
    ensures
        first == second,
{
    lemma_wrap_single_valued(measure, tokens, max_width, first.lines, second.lines);
    let c1 = choose|cues: Seq<SrtModel>|
        sequences_to(measure, first.lines, max_width, cues, first.input, first.errors) && first.subtitle
            == #[trigger] subtitle_text(cues);
    let c2 = choose|cues: Seq<SrtModel>|
        sequences_to(measure, second.lines, max_width, cues, second.input, second.errors)
            && second.subtitle == #[trigger] subtitle_text(cues);
    lemma_sequence_single_valued(
        measure,
        first.lines,
        max_width,
        SequenceModel { cues: c1, runs: first.input, errors: first.errors, pending: None, count: 0 },
        SequenceModel { cues: c2, runs: second.input, errors: second.errors, pending: None, count: 0 },
    );
}

/// Wraps the tokens into lines no wider than `max_width` as `measure` finds
/// them, groups the lines into cues, and writes the subtitle file of the
/// cues.
pub fn format_newline<M: Fn(&str) -> i64>(measure: &M, tokens: Vec<String>, max_width: i32) -> (response:
    NewLineResponse)
    requires
        accepts_all(measure),
    ensures
        formats_to(measure, tokens.deep_view(), max_width as int, response@),
        are_token_runs(tokens.deep_view(), response.lines.deep_view()),
        response.lines.deep_view().flatten() == tokens.deep_view().flatten(),
        response.errors.len() <= 1,
{
    let lines = token_to_lines(measure, tokens, max_width);
    let (partials, deltas, errors) = line_to_sequence(measure, &lines, max_width);
    let ghost cues = partials.deep_view();
    let subtitle = generate_subtitle(partials);
    let response = NewLineResponse { lines, input: deltas, errors, subtitle };
    assert(response@.subtitle == subtitle_text(cues));
    response
}

} // verus!
