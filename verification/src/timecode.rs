use vstd::prelude::*;
use vstd::string::*;
use crate::text::{decimal, digit, digit_char, push_decimal};
use crate::types::{Srt, SrtModel};

verus! {

/// The last two characters of `00` followed by the decimal numeral of `v`.
pub open spec fn pad2(v: nat) -> Seq<char> {
    let s = seq!['0', '0'] + decimal(v);
    s.skip(s.len() - 2)
}

/// The decimal numeral of `n` is not empty and ends in the digit `n % 10`.
pub proof fn lemma_decimal_last(n: nat)
    ensures
        decimal(n).len() >= 1,
        decimal(n).last() == digit_char(n % 10),
    decreases n,
{
    if n >= 10 {
        lemma_decimal_last(n / 10);
    }
}

/// Padding to two places keeps the tens and the units of `v` and drops what
/// is above them.
pub proof fn lemma_pad2_digits(v: nat)
    ensures
        pad2(v) == seq![digit_char((v / 10) % 10), digit_char(v % 10)],
{
    let s = seq!['0', '0'] + decimal(v);
    if v < 10 {
        assert(pad2(v) =~= seq![digit_char((v / 10) % 10), digit_char(v % 10)]);
    } else {
        lemma_decimal_last(v / 10);
        let hi = decimal(v / 10);
        assert(decimal(v) == hi.push(digit_char(v % 10)));
        assert(s.len() == hi.len() + 3);
        assert(s[s.len() - 1] == digit_char(v % 10));
        assert(s[s.len() - 2] == hi.last());
        assert(pad2(v) =~= seq![digit_char((v / 10) % 10), digit_char(v % 10)]);
    }
}

/// The three fields of a time code, two characters each.
#[derive(Debug, Clone, PartialEq, Eq)]
pub struct SubtitleTime {
    pub hour: String,
    pub minute: String,
    pub second: String,
}

/// Mathematical model of a [`SubtitleTime`].
pub struct SubtitleTimeModel {
    pub hour: Seq<char>,
    pub minute: Seq<char>,
    pub second: Seq<char>,
}

impl View for SubtitleTime {
    type V = SubtitleTimeModel;

    open spec fn view(&self) -> SubtitleTimeModel {
        SubtitleTimeModel { hour: self.hour@, minute: self.minute@, second: self.second@ }
    }
}

/// The fields written for a time of `seconds` seconds. The hour field is one
/// more than the whole hours; the minute field is the seconds less the whole
/// hours; the second field is the seconds within the minute. Each is padded
/// to two places.
pub open spec fn time_fields(seconds: nat) -> SubtitleTimeModel {
    SubtitleTimeModel {
        hour: pad2(seconds / 3600 + 1),
        minute: pad2((seconds - seconds / 3600) as nat),
        second: pad2(seconds % 60),
    }
}

/// `v` padded to two places.
pub fn two_places(v: u128) -> (s: String)
    ensures
        s@ == pad2(v as nat),
{
    let tens: u8 = ((v / 10) % 10) as u8;
    let units: u8 = (v % 10) as u8;
    let mut s = String::new();
    s.push(digit(tens));
    s.push(digit(units));
    proof {
        lemma_pad2_digits(v as nat);
        assert(s@ =~= seq![digit_char(tens as nat), digit_char(units as nat)]);
    }
    s
}

/// The fields of the time code for a time of `second_s` seconds.
pub fn calc_subtitle_time(second_s: u128) -> (time: SubtitleTime)
    ensures
        time@ == time_fields(second_s as nat),
{
    let hour: u128 = second_s / 3600;
    let minute: u128 = second_s - hour;
    let second: u128 = second_s % 60;
    SubtitleTime { hour: two_places(hour + 1), minute: two_places(minute), second: two_places(second) }
}

/// The time code of a time of `seconds` seconds: `HH:MM:SS,000`.
pub open spec fn time_code(seconds: nat) -> Seq<char> {
    let t = time_fields(seconds);
    t.hour + ":"@ + t.minute + ":"@ + t.second + ",000"@
}

/// When cue `i` begins: the durations of all cues before it, added up.
pub open spec fn cue_start(cues: Seq<SrtModel>, i: nat) -> nat
    decreases i,
{
    if i == 0 {
        0
    } else {
        cue_start(cues, (i - 1) as nat) + cues[i - 1].duration
    }
}

/// When cue `i` ends: its duration after its beginning.
pub open spec fn cue_end(cues: Seq<SrtModel>, i: nat) -> nat {
    cue_start(cues, i) + cues[i as int].duration
}

/// The first cue begins at zero, and every other cue begins when the cue
/// before it ends.
pub proof fn lemma_cues_back_to_back(cues: Seq<SrtModel>, i: nat)
    requires
        i < cues.len(),
    ensures
        i == 0 ==> cue_start(cues, i) == 0,
        i > 0 ==> cue_start(cues, i) == cue_end(cues, (i - 1) as nat),
{
}

/// The block of cue `i`: its number counted from one, the time codes of its
/// beginning and end, its text, and an empty line.
pub open spec fn cue_block(cues: Seq<SrtModel>, i: nat) -> Seq<char> {
    decimal(i + 1) + "\n"@ + time_code(cue_start(cues, i)) + " --> "@ + time_code(cue_end(cues, i))
        + "\n"@ + cues[i as int].text + "\n\n"@
}

/// The blocks of the first `n` cues, one after the other.
pub open spec fn cue_blocks(cues: Seq<SrtModel>, n: nat) -> Seq<char>
    decreases n,
{
    if n == 0 {
        Seq::empty()
    } else {
        cue_blocks(cues, (n - 1) as nat) + cue_block(cues, (n - 1) as nat)
    }
}

/// The subtitle file of the cues.
pub open spec fn subtitle_text(cues: Seq<SrtModel>) -> Seq<char> {
    cue_blocks(cues, cues.len())
}

/// Appends the time code of `seconds` to `out`.
pub fn push_time_code(out: &mut String, seconds: u128)
    ensures
        final(out)@ == old(out)@ + time_code(seconds as nat),
{
    let t = calc_subtitle_time(seconds);
    out.append(t.hour.as_str());
    out.append(":");
    out.append(t.minute.as_str());
    out.append(":");
    out.append(t.second.as_str());
    out.append(",000");
    assert(out@ =~= old(out)@ + time_code(seconds as nat));
}

proof fn lemma_cue_start_bound(cues: Seq<SrtModel>, i: nat)
    requires
        i <= cues.len(),
        forall|j: int| 0 <= j < cues.len() ==> (#[trigger] cues[j]).duration <= u64::MAX,
    ensures
        cue_start(cues, i) <= i * u64::MAX,
    decreases i,
{
    if i > 0 {
        lemma_cue_start_bound(cues, (i - 1) as nat);
        assert(cue_start(cues, i) <= (i - 1) * u64::MAX + u64::MAX);
        assert((i - 1) * u64::MAX + u64::MAX == i * u64::MAX) by (nonlinear_arith);
    }
}

/// Writes the subtitle file of the cues: the cues follow one another without
/// a gap, the first one beginning at zero.
pub fn generate_subtitle(partials: Vec<Srt>) -> (result: String)
    ensures
        result@ == subtitle_text(partials.deep_view()),
{
    let ghost cues = partials.deep_view();
    let mut result = String::new();
    let mut start: u128 = 0;
    let mut i: usize = 0;
    while i < partials.len()
        invariant
            i <= partials.len(),
            cues == partials.deep_view(),
            start == cue_start(cues, i as nat),
            result@ == cue_blocks(cues, i as nat),
        decreases partials.len() - i,
    {
        let srt = &partials[i];
        assert(cues[i as int] == srt@);
        proof {
            lemma_cue_start_bound(cues, i as nat);
            assert(i * u64::MAX + u64::MAX <= usize::MAX * u64::MAX + u64::MAX) by (nonlinear_arith)
                requires
                    i <= usize::MAX,
            ;
            assert(usize::MAX * u64::MAX + u64::MAX < u128::MAX) by (nonlinear_arith)
                requires
                    usize::MAX <= u64::MAX,
            ;
        }
        let end: u128 = start + srt.duration as u128;
        let ghost before = result@;
        push_decimal(&mut result, i + 1);
        result.append("\n");
        push_time_code(&mut result, start);
        result.append(" --> ");
        push_time_code(&mut result, end);
        result.append("\n");
        result.append(srt.text.as_str());
        result.append("\n\n");
        assert(result@ =~= before + cue_block(cues, i as nat));
        start = end;
        i += 1;
    }
    result
}

} // verus!
