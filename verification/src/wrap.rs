use vstd::prelude::*;
use vstd::string::*;
use crate::measure::{accepts_all, measure_text, measures, single_valued};
use crate::text::push_line;

verus! {

/// The marks after which a line always ends: the ideographic full stop, the
/// fullwidth exclamation and question marks, and the hyphen.
pub open spec fn is_break_mark(c: char) -> bool {
    c == '\u{3002}' || c == '\u{FF01}' || c == '\u{FF1F}' || c == '-'
}

/// The token closes a clause: its last character is a break mark.
pub open spec fn ends_clause(token: Seq<char>) -> bool {
    token.len() > 0 && is_break_mark(token.last())
}

/// Mathematical model of a [`LineWrapper`]: the finished lines, the text of
/// the line in progress, and how many empty tokens came last (counted up to 2).
pub struct WrapModel {
    pub lines: Seq<Seq<char>>,
    pub line: Seq<char>,
    pub blanks: nat,
}

/// The wrapper before any token.
pub open spec fn wrap_start() -> WrapModel {
    WrapModel { lines: Seq::empty(), line: Seq::empty(), blanks: 0 }
}

/// The wrapper after one more token. `too_wide` says whether the line in
/// progress followed by the token is wider than allowed.
///
/// An empty token ends the line in progress; a second one in a row adds an
/// empty line; further ones do nothing. Any other token goes to the line in
/// progress, unless that would make a non-empty line too wide: then the line
/// ends first and the token starts the next one. A token that closes a clause
/// ends the line it was added to.
pub open spec fn wrap_step(st: WrapModel, token: Seq<char>, too_wide: bool) -> WrapModel {
    if token.len() == 0 {
        if st.blanks == 0 {
            WrapModel {
                lines: if st.line.len() > 0 {
                    st.lines.push(st.line)
                } else {
                    st.lines
                },
                line: Seq::empty(),
                blanks: 1,
            }
        } else if st.blanks == 1 {
            WrapModel { lines: st.lines.push(Seq::empty()), line: st.line, blanks: 2 }
        } else {
            st
        }
    } else if too_wide && st.line.len() > 0 {
        WrapModel { lines: st.lines.push(st.line), line: token, blanks: 0 }
    } else if ends_clause(token) {
        WrapModel { lines: st.lines.push(st.line + token), line: Seq::empty(), blanks: 0 }
    } else {
        WrapModel { lines: st.lines, line: st.line + token, blanks: 0 }
    }
}

/// All lines once the tokens have ended: a line in progress is finished.
pub open spec fn wrap_finish(st: WrapModel) -> Seq<Seq<char>> {
    if st.line.len() > 0 {
        st.lines.push(st.line)
    } else {
        st.lines
    }
}

/// The wrapper after the first `n` tokens, where `widths[j]` is the width
/// measured when token `j` arrived.
pub open spec fn wrap_state(
    tokens: Seq<Seq<char>>,
    widths: Seq<i64>,
    max_width: int,
    n: nat,
) -> WrapModel
    decreases n,
{
    if n == 0 {
        wrap_start()
    } else {
        let j = (n - 1) as nat;
        wrap_step(wrap_state(tokens, widths, max_width, j), tokens[j as int], widths[j as int] > max_width)
    }
}

/// The text that is measured when token `j` arrives: the line in progress
/// followed by the token.
pub open spec fn wrap_candidate(
    tokens: Seq<Seq<char>>,
    widths: Seq<i64>,
    max_width: int,
    j: int,
) -> Seq<char> {
    wrap_state(tokens, widths, max_width, j as nat).line + tokens[j]
}

/// The lines into which the tokens are wrapped when the measured widths are `widths`.
pub open spec fn wrap_lines(tokens: Seq<Seq<char>>, widths: Seq<i64>, max_width: int) -> Seq<
    Seq<char>,
> {
    wrap_finish(wrap_state(tokens, widths, max_width, tokens.len()))
}

/// `widths` holds, for every token that is not empty, a width that `measure`
/// may give for the text measured when that token arrives.
pub open spec fn wrap_widths<M: Fn(&str) -> i64>(
    measure: &M,
    tokens: Seq<Seq<char>>,
    widths: Seq<i64>,
    max_width: int,
) -> bool {
    &&& widths.len() == tokens.len()
    &&& forall|j: int|
        0 <= j < tokens.len() && tokens[j].len() > 0 ==> measures(
            measure,
            #[trigger] wrap_candidate(tokens, widths, max_width, j),
            widths[j],
        )
}

/// `lines` is a wrapping of the tokens under widths that `measure` may give.
pub open spec fn wraps_to<M: Fn(&str) -> i64>(
    measure: &M,
    tokens: Seq<Seq<char>>,
    max_width: int,
    lines: Seq<Seq<char>>,
) -> bool {
    exists|widths: Seq<i64>|
        wrap_widths(measure, tokens, widths, max_width) && lines == #[trigger] wrap_lines(
            tokens,
            widths,
            max_width,
        )
}

/// `cuts` marks off, among the tokens, one run of tokens for every line, the
/// runs in the order of the lines and none reaching into the next, and every
/// line is the text of its run: the cuts are positions among the tokens that
/// never go back, and line `k` is made of the tokens from `cuts[k]` up to,
/// not including, `cuts[k + 1]`.
pub open spec fn cut_at(tokens: Seq<Seq<char>>, lines: Seq<Seq<char>>, cuts: Seq<int>) -> bool {
    &&& cuts.len() == lines.len() + 1
    &&& forall|i: int, j: int|
        0 <= i <= j < cuts.len() ==> 0 <= #[trigger] cuts[i] <= #[trigger] cuts[j] <= tokens.len()
    &&& forall|k: int|
        0 <= k < lines.len() ==> #[trigger] lines[k] == tokens.subrange(cuts[k], cuts[k + 1]).flatten()
}

/// Every line is the text of whole tokens that follow one another, and the
/// lines take their tokens in order, no two lines sharing a token.
pub open spec fn are_token_runs(tokens: Seq<Seq<char>>, lines: Seq<Seq<char>>) -> bool {
    exists|cuts: Seq<int>| cut_at(tokens, lines, cuts)
}

/// The wrapper after `n` tokens depends on the first `n` widths only.
pub proof fn lemma_wrap_state_prefix(
    tokens: Seq<Seq<char>>,
    first: Seq<i64>,
    second: Seq<i64>,
    max_width: int,
    n: nat,
)
    requires
        forall|j: int| 0 <= j < n ==> first[j] == second[j],
    ensures
        wrap_state(tokens, first, max_width, n) == wrap_state(tokens, second, max_width, n),
    decreases n,
{
    if n > 0 {
        lemma_wrap_state_prefix(tokens, first, second, max_width, (n - 1) as nat);
    }
}

proof fn lemma_subrange_flatten_push(tokens: Seq<Seq<char>>, a: int, b: int)
    requires
        0 <= a <= b < tokens.len(),
    ensures
        tokens.subrange(a, b + 1).flatten() == tokens.subrange(a, b).flatten() + tokens[b],
{
    assert(tokens.subrange(a, b + 1) =~= tokens.subrange(a, b).push(tokens[b]));
    tokens.subrange(a, b).lemma_flatten_push(tokens[b]);
}

proof fn lemma_empty_run(tokens: Seq<Seq<char>>, a: int)
    requires
        0 <= a <= tokens.len(),
    ensures
        tokens.subrange(a, a).flatten() == Seq::<char>::empty(),
{
    assert(tokens.subrange(a, a) =~= Seq::<Seq<char>>::empty());
    assert(tokens.subrange(a, a).flatten() =~= Seq::<char>::empty());
}

proof fn lemma_cut_push(
    tokens: Seq<Seq<char>>,
    lines: Seq<Seq<char>>,
    cuts: Seq<int>,
    line: Seq<char>,
    to: int,
)
    requires
        cut_at(tokens, lines, cuts),
        cuts[lines.len() as int] <= to <= tokens.len(),
        line == tokens.subrange(cuts[lines.len() as int], to).flatten(),
    ensures
        cut_at(tokens, lines.push(line), cuts.push(to)),
{
    let lines2 = lines.push(line);
    let cuts2 = cuts.push(to);
    let last = lines.len() as int;
    assert forall|i: int, j: int| 0 <= i <= j < cuts2.len() implies 0 <= #[trigger] cuts2[i]
        <= #[trigger] cuts2[j] <= tokens.len() by {
        if j < cuts.len() {
            assert(0 <= cuts[i] <= cuts[j] <= tokens.len());
        } else if i < cuts.len() {
            assert(0 <= cuts[i] <= cuts[last] <= tokens.len());
        } else {
            assert(0 <= cuts[last] <= cuts[last] <= tokens.len());
        }
    }
    assert forall|k: int| 0 <= k < lines2.len() implies #[trigger] lines2[k] == tokens.subrange(
        cuts2[k],
        cuts2[k + 1],
    ).flatten() by {
        if k < lines.len() {
            assert(lines2[k] == lines[k]);
        }
    }
}

/// The finished lines are cut at `cuts`, and the line in progress is the text
/// of the tokens from the last cut up to token `n`.
pub open spec fn cut_up_to(tokens: Seq<Seq<char>>, st: WrapModel, cuts: Seq<int>, n: int) -> bool {
    &&& cut_at(tokens, st.lines, cuts)
    &&& cuts[st.lines.len() as int] <= n
    &&& st.line == tokens.subrange(cuts[st.lines.len() as int], n).flatten()
}

/// Whatever the widths, after `n` tokens the finished lines and the line in
/// progress are the texts of runs of whole tokens that follow one another in
/// order, together they hold the text of the first `n` tokens, and no line
/// is in progress after an empty token.
pub proof fn lemma_wrap_state_runs(
    tokens: Seq<Seq<char>>,
    widths: Seq<i64>,
    max_width: int,
    n: nat,
)
    requires
        n <= tokens.len(),
    ensures
        exists|cuts: Seq<int>|
            cut_up_to(tokens, wrap_state(tokens, widths, max_width, n), cuts, n as int),
        wrap_state(tokens, widths, max_width, n).lines.flatten() + wrap_state(
            tokens,
            widths,
            max_width,
            n,
        ).line == tokens.take(n as int).flatten(),
        wrap_state(tokens, widths, max_width, n).blanks > 0 ==> wrap_state(
            tokens,
            widths,
            max_width,
            n,
        ).line.len() == 0,
    decreases n,
{
    let st = wrap_state(tokens, widths, max_width, n);
    if n == 0 {
        lemma_empty_run(tokens, 0);
        assert(cut_up_to(tokens, st, seq![0int], 0));
        assert(tokens.take(0) =~= Seq::<Seq<char>>::empty());
        assert(st.lines.flatten() + st.line =~= tokens.take(0).flatten());
    } else {
        let j = (n - 1) as int;
        let prev = wrap_state(tokens, widths, max_width, j as nat);
        lemma_wrap_state_runs(tokens, widths, max_width, j as nat);
        let cuts = choose|cuts: Seq<int>| cut_up_to(tokens, prev, cuts, j);
        let from = cuts[prev.lines.len() as int];
        assert(0 <= cuts[prev.lines.len() as int] <= cuts[prev.lines.len() as int]);
        let token = tokens[j];
        let too_wide = widths[j] > max_width;
        assert(st == wrap_step(prev, token, too_wide));
        lemma_subrange_flatten_push(tokens, from, j);
        lemma_subrange_flatten_push(tokens, j, j);
        lemma_empty_run(tokens, j);
        lemma_empty_run(tokens, n as int);
        assert(tokens.take(n as int) =~= tokens.take(j).push(token));
        tokens.take(j).lemma_flatten_push(token);
        prev.lines.lemma_flatten_push(prev.line);
        prev.lines.lemma_flatten_push(prev.line + token);
        prev.lines.lemma_flatten_push(Seq::<char>::empty());
        assert(tokens.subrange(from, n as int).flatten() == prev.line + token);
        assert(tokens.subrange(j, n as int).flatten() =~= token);
        assert(tokens.take(n as int).flatten() =~= prev.lines.flatten() + prev.line + token);
        if token.len() == 0 {
            assert(prev.line + token =~= prev.line);
            if prev.blanks == 0 && prev.line.len() > 0 {
                lemma_cut_push(tokens, prev.lines, cuts, prev.line, n as int);
                assert(cut_up_to(tokens, st, cuts.push(n as int), n as int));
                assert(st.lines.flatten() + st.line =~= prev.lines.flatten() + prev.line);
            } else if prev.blanks == 0 {
                assert(st.line =~= prev.line);
                assert(cut_up_to(tokens, st, cuts, n as int));
            } else if prev.blanks == 1 {
                assert(prev.line =~= Seq::<char>::empty());
                lemma_cut_push(tokens, prev.lines, cuts, Seq::<char>::empty(), n as int);
                assert(cut_up_to(tokens, st, cuts.push(n as int), n as int));
                assert(st.lines.flatten() + st.line =~= prev.lines.flatten() + prev.line);
            } else {
                assert(cut_up_to(tokens, st, cuts, n as int));
            }
        } else if too_wide && prev.line.len() > 0 {
            lemma_cut_push(tokens, prev.lines, cuts, prev.line, j);
            assert(cut_up_to(tokens, st, cuts.push(j), n as int));
            assert(st.lines.flatten() + st.line =~= prev.lines.flatten() + prev.line + token);
        } else if ends_clause(token) {
            lemma_cut_push(tokens, prev.lines, cuts, prev.line + token, n as int);
            assert(cut_up_to(tokens, st, cuts.push(n as int), n as int));
            assert(st.lines.flatten() + st.line =~= prev.lines.flatten() + prev.line + token);
        } else {
            assert(cut_up_to(tokens, st, cuts, n as int));
            assert(st.lines.flatten() + st.line =~= prev.lines.flatten() + prev.line + token);
        }
    }
}

/// Whatever the widths, the lines of a wrapping are the texts of runs of
/// whole tokens that follow one another in order, so no token is ever split
/// or used twice, and the lines together hold the text of all tokens.
pub proof fn lemma_wrap_lines_are_token_runs(
    tokens: Seq<Seq<char>>,
    widths: Seq<i64>,
    max_width: int,
)
    ensures
        are_token_runs(tokens, wrap_lines(tokens, widths, max_width)),
        wrap_lines(tokens, widths, max_width).flatten() == tokens.flatten(),
{
    let n = tokens.len();
    let st = wrap_state(tokens, widths, max_width, n);
    lemma_wrap_state_runs(tokens, widths, max_width, n);
    let cuts = choose|cuts: Seq<int>| cut_up_to(tokens, st, cuts, n as int);
    assert(tokens.take(n as int) =~= tokens);
    st.lines.lemma_flatten_push(st.line);
    if st.line.len() > 0 {
        lemma_cut_push(tokens, st.lines, cuts, st.line, n as int);
        assert(cut_at(tokens, wrap_lines(tokens, widths, max_width), cuts.push(n as int)));
    } else {
        assert(st.lines.flatten() + st.line =~= st.lines.flatten());
        assert(cut_at(tokens, wrap_lines(tokens, widths, max_width), cuts));
    }
}

/// Where `measure` answers every text with one width only, the tokens have
/// one wrapping only.
pub proof fn lemma_wrap_single_valued<M: Fn(&str) -> i64>(
    measure: &M,
    tokens: Seq<Seq<char>>,
    max_width: int,
    first: Seq<Seq<char>>,
    second: Seq<Seq<char>>,
)
    requires
        single_valued(measure),
        wraps_to(measure, tokens, max_width, first),
        wraps_to(measure, tokens, max_width, second),
    ensures
        first == second,
{
    let w1 = choose|w: Seq<i64>|
        wrap_widths(measure, tokens, w, max_width) && first == #[trigger] wrap_lines(
            tokens,
            w,
            max_width,
        );
    let w2 = choose|w: Seq<i64>|
        wrap_widths(measure, tokens, w, max_width) && second == #[trigger] wrap_lines(
            tokens,
            w,
            max_width,
        );
    lemma_wrap_states_agree(measure, tokens, max_width, w1, w2, tokens.len());
}

proof fn lemma_wrap_states_agree<M: Fn(&str) -> i64>(
    measure: &M,
    tokens: Seq<Seq<char>>,
    max_width: int,
    w1: Seq<i64>,
    w2: Seq<i64>,
    n: nat,
)
    requires
        single_valued(measure),
        wrap_widths(measure, tokens, w1, max_width),
        wrap_widths(measure, tokens, w2, max_width),
        n <= tokens.len(),
    ensures
        wrap_state(tokens, w1, max_width, n) == wrap_state(tokens, w2, max_width, n),
    decreases n,
{
    if n > 0 {
        let j = (n - 1) as int;
        lemma_wrap_states_agree(measure, tokens, max_width, w1, w2, j as nat);
        if tokens[j].len() > 0 {
            let text = wrap_candidate(tokens, w1, max_width, j);
            assert(text == wrap_candidate(tokens, w2, max_width, j));
            assert(measures(measure, text, w1[j]));
            assert(measures(measure, text, w2[j]));
        }
    }
}

/// The words of a text, gathered into lines.
#[derive(Debug, Clone, PartialEq, Eq)]
pub struct LineWrapper {
    pub lines: Vec<String>,
    pub line: String,
    pub blanks: u8,
}

impl View for LineWrapper {
    type V = WrapModel;

    open spec fn view(&self) -> WrapModel {
        WrapModel { lines: self.lines.deep_view(), line: self.line@, blanks: self.blanks as nat }
    }
}

/// Whether the token closes a clause.
pub fn closes_clause(token: &str) -> (b: bool)
    ensures
        b == ends_clause(token@),
{
    let n: usize = token.unicode_len();
    if n == 0 {
        false
    } else {
        let c = token.get_char(n - 1);
        c == '\u{3002}' || c == '\u{FF01}' || c == '\u{FF1F}' || c == '-'
    }
}

impl LineWrapper {
    /// A wrapper that has seen no token.
    pub fn new() -> (w: LineWrapper)
        ensures
            w@ == wrap_start(),
    {
        let w = LineWrapper { lines: Vec::new(), line: String::new(), blanks: 0 };
        assert(w.lines.deep_view() =~= Seq::<Seq<char>>::empty());
        w
    }

    /// The text to measure before `token` is fed: the line in progress
    /// followed by the token.
    pub fn candidate(&self, token: &str) -> (text: String)
        ensures
            text@ == self@.line + token@,
    {
        let mut text = self.line.clone();
        text.append(token);
        text
    }

    /// Takes the next token. `width` is the measured width of
    /// `self.candidate(token)`.
    pub fn feed(&mut self, token: &str, width: i64, max_width: i32)
        ensures
            final(self)@ == wrap_step(old(self)@, token@, width > max_width),
    {
        if token.is_empty() {
            if self.blanks == 0 {
                if !self.line.as_str().is_empty() {
                    let done = self.line.clone();
                    push_line(&mut self.lines, done);
                    self.line = String::new();
                }
                self.blanks = 1;
                assert(self.line@ =~= Seq::<char>::empty());
            } else if self.blanks == 1 {
                push_line(&mut self.lines, String::new());
                self.blanks = 2;
            }
        } else if width > max_width as i64 && !self.line.as_str().is_empty() {
            let done = self.line.clone();
            push_line(&mut self.lines, done);
            self.line = String::from_str(token);
            self.blanks = 0;
        } else if closes_clause(token) {
            let mut done = self.line.clone();
            done.append(token);
            push_line(&mut self.lines, done);
            self.line = String::new();
            self.blanks = 0;
        } else {
            self.line.append(token);
            self.blanks = 0;
        }
    }

    /// Ends the text and hands out all lines.
    pub fn finish(self) -> (lines: Vec<String>)
        ensures
            lines.deep_view() == wrap_finish(self@),
    {
        let mut lines = self.lines;
        if !self.line.as_str().is_empty() {
            push_line(&mut lines, self.line);
        }
        lines
    }
}

/// Wraps the tokens into lines that `measure` finds no wider than
/// `max_width`, as far as whole tokens allow.
pub fn token_to_lines<M: Fn(&str) -> i64>(measure: &M, tokens: Vec<String>, max_width: i32) -> (lines:
    Vec<String>)
    requires
        accepts_all(measure),
    ensures
        wraps_to(measure, tokens.deep_view(), max_width as int, lines.deep_view()),
        are_token_runs(tokens.deep_view(), lines.deep_view()),
        lines.deep_view().flatten() == tokens.deep_view().flatten(),
{
    let ghost toks = tokens.deep_view();
    let ghost max = max_width as int;
    let ghost mut widths: Seq<i64> = Seq::empty();
    let mut state = LineWrapper::new();
    let mut i: usize = 0;
    while i < tokens.len()
        invariant
            i <= tokens.len(),
            toks == tokens.deep_view(),
            max == max_width as int,
            accepts_all(measure),
            widths.len() == i,
            state@ == wrap_state(toks, widths, max, i as nat),
            forall|j: int|
                0 <= j < i && toks[j].len() > 0 ==> measures(
                    measure,
                    #[trigger] wrap_candidate(toks, widths, max, j),
                    widths[j],
                ),
        decreases tokens.len() - i,
    {
        let token = tokens[i].as_str();
        assert(token@ == toks[i as int]);
        let mut width: i64 = 0;
        if !token.is_empty() {
            let text = state.candidate(token);
            width = measure_text(measure, text.as_str());
        }
        state.feed(token, width, max_width);
        proof {
            let before = widths;
            widths = widths.push(width);
            lemma_wrap_state_prefix(toks, widths, before, max, i as nat);
            assert forall|j: int| 0 <= j < i + 1 && toks[j].len() > 0 implies measures(
                measure,
                #[trigger] wrap_candidate(toks, widths, max, j),
                widths[j],
            ) by {
                lemma_wrap_state_prefix(toks, widths, before, max, j as nat);
                assert(wrap_candidate(toks, widths, max, j) == wrap_candidate(toks, before, max, j));
            }
        }
        i += 1;
    }
    proof {
        assert(wrap_widths(measure, toks, widths, max));
        lemma_wrap_lines_are_token_runs(toks, widths, max);
    }
    state.finish()
}

} // verus!
