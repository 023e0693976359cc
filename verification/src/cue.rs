use vstd::prelude::*;
use vstd::string::*;
use crate::measure::{accepts_all, measure_text, measures, single_valued};
use crate::text::{byte_len, byte_length, trimmed};
use crate::types::{
    push_cue, push_run, Attributes, AttributesModel, Delta, DeltaModel, Srt, SrtModel,
};

verus! {

/// Length, in bytes, of the text that is read in `BASE_TIME_TENTHS` tenths of a second.
pub const MAX_LENGTH: u64 = 30;

/// Tenths of a second that a text of `MAX_LENGTH` bytes is shown.
pub const BASE_TIME_TENTHS: u64 = 75;

/// Shortest time, in seconds, that a cue of one line is shown.
pub const MIN_SECONDS: u64 = 2;

/// Longest time, in seconds, that a cue of one line is shown.
pub const MAX_SECONDS: u64 = 15;

/// Whole seconds needed to read `bytes` bytes: 7.5 seconds for every 30
/// bytes, rounded up.
pub open spec fn reading_seconds(bytes: nat) -> nat {
    ((bytes * BASE_TIME_TENTHS + (10 * MAX_LENGTH - 1)) / (10 * MAX_LENGTH as int)) as nat
}

/// Reading takes a second for every four bytes, rounded up.
pub proof fn lemma_reading_seconds(bytes: nat)
    ensures
        reading_seconds(bytes) == (bytes + 3) / 4,
{
}

/// The line that stands for silence: a single white star.
pub open spec fn is_placeholder(text: Seq<char>) -> bool {
    text.len() == 1 && text[0] == '\u{2606}'
}

/// Seconds that a cue of the single line `text` is shown: two for the
/// placeholder, else the reading time kept between two and fifteen.
pub open spec fn single_seconds(text: Seq<char>) -> nat {
    if is_placeholder(text) {
        2
    } else {
        let s = reading_seconds(byte_len(text));
        if s < MIN_SECONDS {
            MIN_SECONDS as nat
        } else if s > MAX_SECONDS {
            MAX_SECONDS as nat
        } else {
            s
        }
    }
}

/// `text` in bold.
pub open spec fn bold(text: Seq<char>) -> Seq<char> {
    "<b>"@ + text + "</b>"@
}

/// The cue that shows one line alone.
pub open spec fn single_cue(text: Seq<char>) -> SrtModel {
    SrtModel { duration: single_seconds(text), text: bold(text) }
}

/// The cue that shows two lines, one above the other.
pub open spec fn paired_cue(first: Seq<char>, second: Seq<char>) -> SrtModel {
    SrtModel {
        duration: reading_seconds(byte_len(first) + byte_len(second)),
        text: bold(first) + "\n"@ + bold(second),
    }
}

/// A cue of one line is shown for at least two and at most fifteen seconds.
pub proof fn lemma_single_seconds_clamped(text: Seq<char>)
    ensures
        2 <= single_seconds(text) <= 15,
{
}

/// Whether the line is the placeholder for silence.
pub fn placeholder(text: &str) -> (b: bool)
    ensures
        b == is_placeholder(text@),
{
    if text.unicode_len() == 1 {
        text.get_char(0) == '\u{2606}'
    } else {
        false
    }
}

/// Whole seconds needed to read two texts of `first` and `second` bytes.
pub fn reading_time(first: usize, second: usize) -> (seconds: u64)
    ensures
        seconds == reading_seconds((first + second) as nat),
{
    let bytes: u128 = first as u128 + second as u128;
    ((bytes * 75 + 299) / 300) as u64
}

/// Appends `text` in bold to `out`.
pub fn push_bold(out: &mut String, text: &str)
    ensures
        final(out)@ == old(out)@ + bold(text@),
{
    out.append("<b>");
    out.append(text);
    out.append("</b>");
    assert(out@ =~= old(out)@ + bold(text@));
}

/// Makes the cue of one line, or of two where `text2` is given.
pub fn calc_srt(text1: String, text2: Option<&str>) -> (srt: Srt)
    ensures
        srt@ == match text2 {
            Some(second) => paired_cue(text1@, second@),
            None => single_cue(text1@),
        },
        text2 is None ==> 2 <= srt.duration <= 15,
{
    let mut text = String::new();
    push_bold(&mut text, text1.as_str());
    match text2 {
        Some(second) => {
            let duration: u64 = reading_time(byte_length(text1.as_str()), byte_length(second));
            text.append("\n");
            push_bold(&mut text, second);
            assert(text@ =~= bold(text1@) + "\n"@ + bold(second@));
            Srt { duration, text }
        },
        None => {
            let mut duration: u64 = MIN_SECONDS;
            if !placeholder(text1.as_str()) {
                let seconds: u64 = reading_time(byte_length(text1.as_str()), 0);
                if seconds < MIN_SECONDS {
                    duration = MIN_SECONDS;
                } else if seconds > MAX_SECONDS {
                    duration = MAX_SECONDS;
                } else {
                    duration = seconds;
                }
            }
            assert(text@ =~= bold(text1@));
            Srt { duration, text }
        },
    }
}

/// The caution that marks a line too long to be split.
pub open spec fn caution_text() -> Seq<char> {
    "too long sentence, cannot be splitted"@
}

/// The warning category that a line too long to be split falls under.
pub open spec fn overlong_category() -> Seq<char> {
    "Sentences continue for more than three lines."@
}

/// A line that ends what came before: an empty line, or an ideographic full
/// stop alone.
pub open spec fn is_pause(text: Seq<char>) -> bool {
    text.len() == 0 || (text.len() == 1 && text[0] == '\u{3002}')
}

/// The run of a line: its text and a line feed, with a caution where the
/// line is too wide.
pub open spec fn line_run(text: Seq<char>, too_wide: bool) -> DeltaModel {
    DeltaModel {
        insert: text + "\n"@,
        attributes: if too_wide {
            Some(AttributesModel { warning: None, caution: Some(caution_text()) })
        } else {
            None
        },
    }
}

/// The run that breaks the stream of lines: a line feed without marks.
pub open spec fn break_run() -> DeltaModel {
    DeltaModel { insert: "\n"@, attributes: None }
}

/// `errors` with `category` in it once.
pub open spec fn with_category(errors: Seq<Seq<char>>, category: Seq<char>) -> Seq<Seq<char>> {
    if errors.contains(category) {
        errors
    } else {
        errors.push(category)
    }
}

/// Mathematical model of a [`Sequencer`]: the cues and runs made so far, the
/// warning categories met, the line that waits for a partner, and how many
/// lines came since the run stream was last broken or paused.
pub struct SequenceModel {
    pub cues: Seq<SrtModel>,
    pub runs: Seq<DeltaModel>,
    pub errors: Seq<Seq<char>>,
    pub pending: Option<Seq<char>>,
    pub count: nat,
}

/// The sequencer before any line.
pub open spec fn sequence_start() -> SequenceModel {
    SequenceModel {
        cues: Seq::empty(),
        runs: Seq::empty(),
        errors: Seq::empty(),
        pending: None,
        count: 0,
    }
}

/// The sequencer after one more line, given trimmed. `too_wide` says whether
/// the line is wider than allowed.
///
/// Every line gives a run; a line that is too wide also gives the warning
/// category. A pause lets a waiting line become a cue of its own. Any other
/// line joins the waiting line in a cue of two, or waits itself; before the
/// third such line in a row the run stream is broken by a line feed.
pub open spec fn sequence_step(st: SequenceModel, text: Seq<char>, too_wide: bool) -> SequenceModel {
    let errors = if too_wide {
        with_category(st.errors, overlong_category())
    } else {
        st.errors
    };
    if is_pause(text) {
        SequenceModel {
            cues: match st.pending {
                Some(waiting) => st.cues.push(single_cue(waiting)),
                None => st.cues,
            },
            runs: st.runs.push(line_run(text, too_wide)),
            errors,
            pending: None,
            count: 0,
        }
    } else {
        let forced = st.count + 1 > 2;
        let runs = if forced {
            st.runs.push(break_run())
        } else {
            st.runs
        };
        SequenceModel {
            cues: match st.pending {
                Some(waiting) => st.cues.push(paired_cue(waiting, text)),
                None => st.cues,
            },
            runs: runs.push(line_run(text, too_wide)),
            errors,
            pending: match st.pending {
                Some(_) => None,
                None => Some(text),
            },
            count: if forced {
                0
            } else {
                st.count + 1
            },
        }
    }
}

/// The sequencer once the lines have ended: a waiting line becomes a cue of
/// its own.
pub open spec fn sequence_finish(st: SequenceModel) -> SequenceModel {
    SequenceModel {
        cues: match st.pending {
            Some(waiting) => st.cues.push(single_cue(waiting)),
            None => st.cues,
        },
        runs: st.runs,
        errors: st.errors,
        pending: None,
        count: st.count,
    }
}

/// The sequencer after the first `n` lines, where `widths[j]` is the width
/// measured for line `j`, trimmed.
pub open spec fn sequence_state(
    lines: Seq<Seq<char>>,
    widths: Seq<i64>,
    max_width: int,
    n: nat,
) -> SequenceModel
    decreases n,
{
    if n == 0 {
        sequence_start()
    } else {
        let j = (n - 1) as int;
        sequence_step(
            sequence_state(lines, widths, max_width, j as nat),
            trimmed(lines[j]),
            widths[j] > max_width,
        )
    }
}

/// What the lines are sequenced into when the measured widths are `widths`.
pub open spec fn sequence_result(lines: Seq<Seq<char>>, widths: Seq<i64>, max_width: int) -> SequenceModel {
    sequence_finish(sequence_state(lines, widths, max_width, lines.len()))
}

/// `widths` holds, for every line, a width that `measure` may give for the
/// line, trimmed.
pub open spec fn sequence_widths<M: Fn(&str) -> i64>(
    measure: &M,
    lines: Seq<Seq<char>>,
    widths: Seq<i64>,
) -> bool {
    &&& widths.len() == lines.len()
    &&& forall|j: int|
        0 <= j < lines.len() ==> measures(measure, trimmed(lines[j]), #[trigger] widths[j])
}

/// The cues, runs and warning categories are a sequencing of the lines under
/// widths that `measure` may give.
pub open spec fn sequences_to<M: Fn(&str) -> i64>(
    measure: &M,
    lines: Seq<Seq<char>>,
    max_width: int,
    cues: Seq<SrtModel>,
    runs: Seq<DeltaModel>,
    errors: Seq<Seq<char>>,
) -> bool {
    exists|widths: Seq<i64>|
        {
            let result = #[trigger] sequence_result(lines, widths, max_width);
            &&& sequence_widths(measure, lines, widths)
            &&& cues == result.cues
            &&& runs == result.runs
            &&& errors == result.errors
        }
}

/// The sequencer after `n` lines depends on the first `n` widths only.
pub proof fn lemma_sequence_state_prefix(
    lines: Seq<Seq<char>>,
    first: Seq<i64>,
    second: Seq<i64>,
    max_width: int,
    n: nat,
)
    requires
        forall|j: int| 0 <= j < n ==> first[j] == second[j],
    ensures
        sequence_state(lines, first, max_width, n) == sequence_state(lines, second, max_width, n),
    decreases n,
{
    if n > 0 {
        lemma_sequence_state_prefix(lines, first, second, max_width, (n - 1) as nat);
    }
}

/// Whatever the widths, after `n` lines the warning categories are none
/// where no line so far was too wide, and else the one category, once.
pub proof fn lemma_sequence_errors(
    lines: Seq<Seq<char>>,
    widths: Seq<i64>,
    max_width: int,
    n: nat,
)
    ensures
        sequence_state(lines, widths, max_width, n).errors == if exists|j: int|
            0 <= j < n && #[trigger] widths[j] > max_width {
            seq![overlong_category()]
        } else {
            Seq::empty()
        },
    decreases n,
{
    if n > 0 {
        let j = (n - 1) as int;
        lemma_sequence_errors(lines, widths, max_width, j as nat);
        let prev = sequence_state(lines, widths, max_width, j as nat);
        let st = sequence_state(lines, widths, max_width, n);
        if widths[j] > max_width {
            if prev.errors.len() == 0 {
                assert(st.errors =~= seq![overlong_category()]);
            } else {
                assert(prev.errors[0] == overlong_category());
            }
        } else {
            if exists|k: int| 0 <= k < n && #[trigger] widths[k] > max_width {
                let k = choose|k: int| 0 <= k < n && #[trigger] widths[k] > max_width;
                assert(0 <= k < j && widths[k] > max_width);
            }
        }
    }
}

/// Where `measure` answers every text with one width only, the lines have
/// one sequencing only.
pub proof fn lemma_sequence_single_valued<M: Fn(&str) -> i64>(
    measure: &M,
    lines: Seq<Seq<char>>,
    max_width: int,
    first: SequenceModel,
    second: SequenceModel,
)
    requires
        single_valued(measure),
        sequences_to(measure, lines, max_width, first.cues, first.runs, first.errors),
        sequences_to(measure, lines, max_width, second.cues, second.runs, second.errors),
    ensures
        first.cues == second.cues,
        first.runs == second.runs,
        first.errors == second.errors,
{
    let w1 = choose|widths: Seq<i64>|
        {
            let result = #[trigger] sequence_result(lines, widths, max_width);
            &&& sequence_widths(measure, lines, widths)
            &&& first.cues == result.cues
            &&& first.runs == result.runs
            &&& first.errors == result.errors
        };
    let w2 = choose|widths: Seq<i64>|
        {
            let result = #[trigger] sequence_result(lines, widths, max_width);
            &&& sequence_widths(measure, lines, widths)
            &&& second.cues == result.cues
            &&& second.runs == result.runs
            &&& second.errors == result.errors
        };
    assert forall|j: int| 0 <= j < lines.len() implies w1[j] == w2[j] by {
        assert(measures(measure, trimmed(lines[j]), w1[j]));
        assert(measures(measure, trimmed(lines[j]), w2[j]));
    }
    lemma_sequence_state_prefix(lines, w1, w2, max_width, lines.len());
}

/// Lines on their way to becoming cues and runs.
#[derive(Debug, Clone, PartialEq, Eq)]
pub struct Sequencer {
    pub cues: Vec<Srt>,
    pub runs: Vec<Delta>,
    pub errors: Vec<String>,
    pub pending: Option<String>,
    pub count: u8,
}

impl View for Sequencer {
    type V = SequenceModel;

    open spec fn view(&self) -> SequenceModel {
        SequenceModel {
            cues: self.cues.deep_view(),
            runs: self.runs.deep_view(),
            errors: self.errors.deep_view(),
            pending: match self.pending {
                Some(waiting) => Some(waiting@),
                None => None,
            },
            count: self.count as nat,
        }
    }
}

/// Whether the line is a pause.
pub fn pause(text: &str) -> (b: bool)
    ensures
        b == is_pause(text@),
{
    let n: usize = text.unicode_len();
    if n == 0 {
        true
    } else if n == 1 {
        text.get_char(0) == '\u{3002}'
    } else {
        false
    }
}

/// Puts `category` among `errors` unless it is there already.
pub fn insert_category(errors: &mut Vec<String>, category: &str)
    ensures
        final(errors).deep_view() == with_category(old(errors).deep_view(), category@),
{
    let wanted = String::from_str(category);
    let mut i: usize = 0;
    while i < errors.len()
        invariant
            i <= errors.len(),
            *errors == *old(errors),
            wanted@ == category@,
            forall|j: int| 0 <= j < i ==> errors.deep_view()[j] != category@,
        decreases errors.len() - i,
    {
        if errors[i] == wanted {
            assert(errors.deep_view()[i as int] == category@);
            return ;
        }
        i += 1;
    }
    assert(!errors.deep_view().contains(category@));
    errors.push(wanted);
    assert(errors.deep_view() =~= old(errors).deep_view().push(category@));
}

impl Sequencer {
    /// A sequencer that has seen no line.
    pub fn new() -> (s: Sequencer)
        ensures
            s@ == sequence_start(),
    {
        let s = Sequencer {
            cues: Vec::new(),
            runs: Vec::new(),
            errors: Vec::new(),
            pending: None,
            count: 0,
        };
        assert(s.cues.deep_view() =~= Seq::<SrtModel>::empty());
        assert(s.runs.deep_view() =~= Seq::<DeltaModel>::empty());
        assert(s.errors.deep_view() =~= Seq::<Seq<char>>::empty());
        s
    }

    /// Takes the next line, trimmed. `width` is its measured width.
    pub fn feed(&mut self, text: &str, width: i64, max_width: i32)
        ensures
            final(self)@ == sequence_step(old(self)@, text@, width > max_width),
    {
        let too_wide = width > max_width as i64;
        let mut insert = String::from_str(text);
        insert.append("\n");
        let mut attributes: Option<Attributes> = None;
        if too_wide {
            attributes =
            Some(
                Attributes {
                    warning: None,
                    caution: Some(String::from_str("too long sentence, cannot be splitted")),
                },
            );
            insert_category(&mut self.errors, "Sentences continue for more than three lines.");
        }
        let run = Delta { insert, attributes };
        assert(run@ == line_run(text@, too_wide));
        let waiting = self.pending.take();
        if pause(text) {
            self.count = 0;
            match waiting {
                Some(first) => {
                    push_cue(&mut self.cues, calc_srt(first, None));
                },
                None => {},
            }
        } else {
            if self.count >= 2 {
                push_run(&mut self.runs, Delta { insert: String::from_str("\n"), attributes: None });
                self.count = 0;
            } else {
                self.count = self.count + 1;
            }
            match waiting {
                Some(first) => {
                    push_cue(&mut self.cues, calc_srt(first, Some(text)));
                },
                None => {
                    self.pending = Some(String::from_str(text));
                },
            }
        }
        push_run(&mut self.runs, run);
    }

    /// Ends the lines and hands out the cues, the runs and the warning
    /// categories.
    pub fn finish(self) -> (result: (Vec<Srt>, Vec<Delta>, Vec<String>))
        ensures
            result.0.deep_view() == sequence_finish(self@).cues,
            result.1.deep_view() == sequence_finish(self@).runs,
            result.2.deep_view() == sequence_finish(self@).errors,
    {
        let mut cues = self.cues;
        match self.pending {
            Some(first) => {
                push_cue(&mut cues, calc_srt(first, None));
            },
            None => {},
        }
        (cues, self.runs, self.errors)
    }
}

/// Groups the lines into cues of one or two lines, gives every line its run,
/// and collects the warning categories. A line is trimmed before anything
/// else, and is too wide where `measure` finds it wider than `max_width`.
pub fn line_to_sequence<M: Fn(&str) -> i64>(measure: &M, lines: &Vec<String>, max_width: i32) -> (result: (
    Vec<Srt>,
    Vec<Delta>,
    Vec<String>,
))
    requires
        accepts_all(measure),
    ensures
        sequences_to(
            measure,
            lines.deep_view(),
            max_width as int,
            result.0.deep_view(),
            result.1.deep_view(),
            result.2.deep_view(),
        ),
        result.2.len() <= 1,
{
    let ghost texts = lines.deep_view();
    let ghost max = max_width as int;
    let ghost mut widths: Seq<i64> = Seq::empty();
    let mut state = Sequencer::new();
    let mut i: usize = 0;
    while i < lines.len()
        invariant
            i <= lines.len(),
            texts == lines.deep_view(),
            max == max_width as int,
            accepts_all(measure),
            widths.len() == i,
            state@ == sequence_state(texts, widths, max, i as nat),
            forall|j: int| 0 <= j < i ==> measures(measure, trimmed(texts[j]), #[trigger] widths[j]),
        decreases lines.len() - i,
    {
        let text = lines[i].as_str().trim();
        assert(text@ == trimmed(texts[i as int]));
        let width: i64 = measure_text(measure, text);
        state.feed(text, width, max_width);
        proof {
            let before = widths;
            widths = widths.push(width);
            lemma_sequence_state_prefix(texts, widths, before, max, i as nat);
        }
        i += 1;
    }
    proof {
        assert(sequence_widths(measure, texts, widths));
        lemma_sequence_errors(texts, widths, max, texts.len());
        let result = sequence_result(texts, widths, max);
        assert(result.errors.len() <= 1);
    }
    state.finish()
}

} // verus!
