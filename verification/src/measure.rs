use vstd::prelude::*;

verus! {

/// `width` is an answer that `measure` may give for `text`.
pub open spec fn measures<M: Fn(&str) -> i64>(measure: &M, text: Seq<char>, width: i64) -> bool {
    exists|s: &str| s@ == text && call_ensures(*measure, (s,), width)
}

/// `measure` can be asked about every text.
pub open spec fn accepts_all<M: Fn(&str) -> i64>(measure: &M) -> bool {
    forall|s: &str| call_requires(*measure, (s,))
}

/// `measure` answers every text with one width only.
pub open spec fn single_valued<M: Fn(&str) -> i64>(measure: &M) -> bool {
    forall|text: Seq<char>, w1: i64, w2: i64|
        measures(measure, text, w1) && measures(measure, text, w2) ==> w1 == w2
}

/// Asks `measure` for the width of `text`.
pub fn measure_text<M: Fn(&str) -> i64>(measure: &M, text: &str) -> (width: i64)
    requires
        accepts_all(measure),
    ensures
        measures(measure, text@, width),
{
    measure(text)
}

} // verus!
