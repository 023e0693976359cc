use std::str::Chars;
use vstd::prelude::*;
use vstd::std_specs::iter::IteratorSpec;
use vstd::string::*;
use crate::text::push_line;
use crate::types::{
    inserted_text, push_run, Attributes, AttributesModel, Delta, DeltaModel, UnknownAttribute,
    UnknownAttributeModel, UnknownIndex, UnknownIndexModel,
};

verus! {

/// How many characters are taken when `size` are asked for and `available`
/// are left: none for a size below one, and never more than are left.
pub open spec fn take_count(available: nat, size: int) -> nat {
    if size <= 0 {
        0
    } else if size >= available {
        available
    } else {
        size as nat
    }
}

/// Takes up to `size` characters from the iterator and returns them as a
/// string. Fewer come back where the iterator ends first; none for a `size`
/// below one.
pub fn take_text(iter: &mut Chars, size: i64) -> (string: String)
    ensures
        string@ == <Chars as IteratorSpec>::remaining(old(iter)).take(
            take_count(<Chars as IteratorSpec>::remaining(old(iter)).len(), size as int) as int,
        ),
        <Chars as IteratorSpec>::remaining(final(iter)) == <Chars as IteratorSpec>::remaining(
            old(iter),
        ).skip(take_count(<Chars as IteratorSpec>::remaining(old(iter)).len(), size as int) as int),
{
    broadcast use vstd::string::group_string_axioms;

    let mut string = String::new();
    let mut n: i64 = 0;
    loop
        invariant_except_break
            0 <= n,
            n <= size || n == 0,
            n <= <Chars as IteratorSpec>::remaining(old(iter)).len(),
            string@ == <Chars as IteratorSpec>::remaining(old(iter)).take(n as int),
            <Chars as IteratorSpec>::remaining(iter) == <Chars as IteratorSpec>::remaining(
                old(iter),
            ).skip(n as int),
        ensures
            string@ == <Chars as IteratorSpec>::remaining(old(iter)).take(
                take_count(<Chars as IteratorSpec>::remaining(old(iter)).len(), size as int) as int,
            ),
            <Chars as IteratorSpec>::remaining(iter) == <Chars as IteratorSpec>::remaining(
                old(iter),
            ).skip(
                take_count(<Chars as IteratorSpec>::remaining(old(iter)).len(), size as int) as int,
            ),
        decreases size - n,
    {
        if n >= size {
            break ;
        }
        let ghost before = <Chars as IteratorSpec>::remaining(iter);
        match iter.next() {
            Some(c) => {
                string.push(c);
                assert(before.len() > 0);
                assert(string@ =~= <Chars as IteratorSpec>::remaining(old(iter)).take(n + 1));
                assert(<Chars as IteratorSpec>::remaining(iter) =~= <Chars as IteratorSpec>::remaining(
                    old(iter),
                ).skip(n + 1));
                n += 1;
            },
            None => {
                assert(before.len() == 0);
                break ;
            },
        }
    }
    string
}

/// Takes up to `size` characters from the iterator and returns them as a
/// string. Fewer come back where the iterator ends first; none for a `size`
/// below one.
pub fn text_iterator(iter: &mut Chars, size: i32) -> (string: String)
    ensures
        string@ == <Chars as IteratorSpec>::remaining(old(iter)).take(
            take_count(<Chars as IteratorSpec>::remaining(old(iter)).len(), size as int) as int,
        ),
        <Chars as IteratorSpec>::remaining(final(iter)) == <Chars as IteratorSpec>::remaining(
            old(iter),
        ).skip(take_count(<Chars as IteratorSpec>::remaining(old(iter)).len(), size as int) as int),
{
    take_text(iter, size as i64)
}

/// A run without marks.
pub open spec fn plain_run(text: Seq<char>) -> DeltaModel {
    DeltaModel { insert: text, attributes: None }
}

/// A run marked with a warning that carries the identifier and the flagged word.
pub open spec fn warning_run(text: Seq<char>, id: Seq<char>, word: Seq<char>) -> DeltaModel {
    DeltaModel {
        insert: text,
        attributes: Some(
            AttributesModel {
                warning: Some(UnknownAttributeModel { uuid: id, unknown: Some(word), num: None }),
                caution: None,
            },
        ),
    }
}

/// The runs made so far and how many characters of the text they hold.
pub struct AnnotateModel {
    pub runs: Seq<DeltaModel>,
    pub pos: nat,
}

/// Where the range before range `k` ends; zero before the first range.
pub open spec fn end_before(ranges: Seq<UnknownIndexModel>, k: nat) -> int {
    if k == 0 {
        0
    } else {
        ranges[k - 1].end
    }
}

/// The runs after the first `k` ranges. Each range gives two runs, taken
/// from the text where the runs before them stopped: a plain one, as long as
/// the range's start lies after the end of the range before, and a marked
/// one, as long as the range. A run is shorter where the text ends first.
pub open spec fn annotate_state(
    base: Seq<char>,
    ranges: Seq<UnknownIndexModel>,
    ids: Seq<Seq<char>>,
    k: nat,
) -> AnnotateModel
    decreases k,
{
    if k == 0 {
        AnnotateModel { runs: Seq::empty(), pos: 0 }
    } else {
        let j = (k - 1) as nat;
        let prev = annotate_state(base, ranges, ids, j);
        let range = ranges[j as int];
        let from = prev.pos + take_count((base.len() - prev.pos) as nat, range.start - end_before(ranges, j));
        let to = from + take_count((base.len() - from) as nat, range.end - range.start);
        AnnotateModel {
            runs: prev.runs.push(plain_run(base.subrange(prev.pos as int, from as int))).push(
                warning_run(base.subrange(from as int, to as int), ids[j as int], range.word),
            ),
            pos: to,
        }
    }
}

/// The runs that the ranges cut from the text, marked with the identifiers.
pub open spec fn annotate_runs(
    base: Seq<char>,
    ranges: Seq<UnknownIndexModel>,
    ids: Seq<Seq<char>>,
) -> Seq<DeltaModel> {
    annotate_state(base, ranges, ids, ranges.len()).runs
}

/// The ranges are well formed and ascending: none starts below zero or ends
/// before it starts, and none starts before the one before it has ended.
pub open spec fn ranges_in_order(ranges: Seq<UnknownIndexModel>) -> bool {
    forall|k: int|
        0 <= k < ranges.len() ==> {
            &&& 0 <= (#[trigger] ranges[k]).start <= ranges[k].end
            &&& k > 0 ==> ranges[k - 1].end <= ranges[k].start
        }
}

/// `pos`, but no more than `len`.
pub open spec fn clip(pos: int, len: nat) -> nat {
    if pos < 0 {
        0
    } else if pos > len {
        len
    } else {
        pos as nat
    }
}

/// Whatever the ranges, two runs are made for each, and the runs together
/// hold the beginning of the text, as far as they went.
pub proof fn lemma_annotate_prefix(
    base: Seq<char>,
    ranges: Seq<UnknownIndexModel>,
    ids: Seq<Seq<char>>,
    k: nat,
)
    ensures
        annotate_state(base, ranges, ids, k).pos <= base.len(),
        annotate_state(base, ranges, ids, k).runs.len() == 2 * k,
        inserted_text(annotate_state(base, ranges, ids, k).runs) == base.take(
            annotate_state(base, ranges, ids, k).pos as int,
        ),
    decreases k,
{
    let st = annotate_state(base, ranges, ids, k);
    let texts = st.runs.map_values(|r: DeltaModel| r.insert);
    if k == 0 {
        assert(texts =~= Seq::<Seq<char>>::empty());
        assert(texts.flatten() =~= base.take(0));
    } else {
        let j = (k - 1) as nat;
        lemma_annotate_prefix(base, ranges, ids, j);
        let prev = annotate_state(base, ranges, ids, j);
        let range = ranges[j as int];
        let from = prev.pos + take_count((base.len() - prev.pos) as nat, range.start - end_before(ranges, j));
        let plain = base.subrange(prev.pos as int, from as int);
        let marked = base.subrange(from as int, st.pos as int);
        let before = prev.runs.map_values(|r: DeltaModel| r.insert);
        assert(texts =~= before.push(plain).push(marked));
        before.lemma_flatten_push(plain);
        before.push(plain).lemma_flatten_push(marked);
        assert(texts.flatten() =~= base.take(st.pos as int));
    }
}

/// The plain run of range `j` where the ranges are in order: the text
/// between the range before and the range, as far as the text goes.
pub open spec fn gap_run(base: Seq<char>, ranges: Seq<UnknownIndexModel>, j: int) -> DeltaModel {
    plain_run(
        base.subrange(
            clip(end_before(ranges, j as nat), base.len()) as int,
            clip(ranges[j].start, base.len()) as int,
        ),
    )
}

/// The marked run of range `j` where the ranges are in order: the text of
/// the range, as far as the text goes.
pub open spec fn word_run(
    base: Seq<char>,
    ranges: Seq<UnknownIndexModel>,
    ids: Seq<Seq<char>>,
    j: int,
) -> DeltaModel {
    warning_run(
        base.subrange(clip(ranges[j].start, base.len()) as int, clip(ranges[j].end, base.len()) as int),
        ids[j],
        ranges[j].word,
    )
}

/// Where the ranges are in order, the runs after `k` ranges hold the text up
/// to the end of range `k - 1`, or all of it where it is shorter: the plain
/// run of a range is the text between it and the range before, and its
/// marked run is the text of the range.
pub proof fn lemma_annotate_in_order(
    base: Seq<char>,
    ranges: Seq<UnknownIndexModel>,
    ids: Seq<Seq<char>>,
    k: nat,
)
    requires
        ranges_in_order(ranges),
        k <= ranges.len(),
    ensures
        annotate_state(base, ranges, ids, k).pos == clip(end_before(ranges, k), base.len()),
        annotate_state(base, ranges, ids, k).runs.len() == 2 * k,
        forall|j: int|
            0 <= j < k ==> {
                &&& annotate_state(base, ranges, ids, k).runs[2 * j] == #[trigger] gap_run(base, ranges, j)
                &&& annotate_state(base, ranges, ids, k).runs[2 * j + 1] == word_run(base, ranges, ids, j)
            },
    decreases k,
{
    if k > 0 {
        let j = (k - 1) as nat;
        lemma_annotate_in_order(base, ranges, ids, j);
        let prev = annotate_state(base, ranges, ids, j);
        let st = annotate_state(base, ranges, ids, k);
        assert(0 <= ranges[j as int].start);
        if j > 0 {
            assert(0 <= ranges[j - 1].start <= ranges[j - 1].end);
        }
        assert forall|i: int| 0 <= i < k implies {
            &&& st.runs[2 * i] == #[trigger] gap_run(base, ranges, i)
            &&& st.runs[2 * i + 1] == word_run(base, ranges, ids, i)
        } by {
            if i < j {
                assert(st.runs[2 * i] == prev.runs[2 * i]);
                assert(st.runs[2 * i + 1] == prev.runs[2 * i + 1]);
            }
        }
    }
}

/// There are ranges, they are in order, and the last one ends within the text.
pub open spec fn reach_within(base: Seq<char>, ranges: Seq<UnknownIndexModel>) -> bool {
    &&& ranges_in_order(ranges)
    &&& ranges.len() > 0
    &&& ranges.last().end <= base.len()
}

/// Where the ranges are in order and the last one ends within the text, the
/// runs together hold the text up to the end of the last range, and nothing
/// of what follows it.
pub proof fn lemma_runs_reassemble(
    base: Seq<char>,
    ranges: Seq<UnknownIndexModel>,
    ids: Seq<Seq<char>>,
)
    requires
        reach_within(base, ranges),
    ensures
        inserted_text(annotate_runs(base, ranges, ids)) == base.take(ranges.last().end),
{
    lemma_annotate_prefix(base, ranges, ids, ranges.len());
    lemma_annotate_in_order(base, ranges, ids, ranges.len());
    assert(0 <= ranges[ranges.len() - 1].start);
}

/// The text form of a random identifier: 32 lower-case hexadecimal digits in
/// groups of 8, 4, 4, 4 and 12 with hyphens between them, the third group
/// beginning with `4` and the fourth with `8`, `9`, `a` or `b`.
pub open spec fn is_random_id(id: Seq<char>) -> bool {
    &&& id.len() == 36
    &&& forall|i: int|
        0 <= i < 36 ==> if i == 8 || i == 13 || i == 18 || i == 23 {
            #[trigger] id[i] == '-'
        } else {
            is_lower_hex(id[i])
        }
    &&& id[14] == '4'
    &&& (id[19] == '8' || id[19] == '9' || id[19] == 'a' || id[19] == 'b')
}

/// A digit, or a letter from `a` to `f`.
pub open spec fn is_lower_hex(c: char) -> bool {
    ('0' as u32 <= c as u32 <= '9' as u32) || ('a' as u32 <= c as u32 <= 'f' as u32)
}

/// Every entry is the text form of a random identifier.
pub open spec fn are_random_ids(ids: Seq<Seq<char>>) -> bool {
    forall|i: int| 0 <= i < ids.len() ==> is_random_id(#[trigger] ids[i])
}

/// `uuid::Uuid::new_v4` draws a version 4 identifier from the system's
/// random source, and its `Display` form, which `to_string` gives, is the
/// hyphenated lower-case one. Nothing is said about which identifier comes
/// back. The call panics where the system gives no random bytes.
#[verifier::external_body]
fn random_id() -> (id: String)
    ensures
        is_random_id(id@),
{
    uuid::Uuid::new_v4().to_string()
}

/// `count` random identifiers.
pub fn random_ids(count: usize) -> (ids: Vec<String>)
    ensures
        ids.len() == count,
        are_random_ids(ids.deep_view()),
{
    let mut ids: Vec<String> = Vec::new();
    let mut i: usize = 0;
    assert(ids.deep_view() =~= Seq::<Seq<char>>::empty());
    while i < count
        invariant
            i <= count,
            ids.len() == i,
            are_random_ids(ids.deep_view()),
        decreases count - i,
    {
        let id = random_id();
        let ghost before = ids.deep_view();
        push_line(&mut ids, id);
        assert forall|k: int| 0 <= k < ids.deep_view().len() implies is_random_id(
            #[trigger] ids.deep_view()[k],
        ) by {
            if k < i {
                assert(ids.deep_view()[k] == before[k]);
            }
        }
        i += 1;
    }
    ids
}

/// Cuts the text into runs at the ranges and marks the run of range `k` with
/// `ids[k]` and the range's word. What follows the last range is left out.
pub fn annotate_with_ids(text: &str, ranges: &Vec<UnknownIndex>, ids: &Vec<String>) -> (runs: Vec<Delta>)
    requires
        ids.len() == ranges.len(),
    ensures
        runs.deep_view() == annotate_runs(text@, ranges.deep_view(), ids.deep_view()),
        runs.len() == 2 * ranges.len(),
        reach_within(text@, ranges.deep_view()) ==> inserted_text(runs.deep_view()) == text@.take(
            ranges.deep_view().last().end,
        ),
{
    broadcast use vstd::string::group_string_axioms;

    let ghost base = text@;
    let ghost rs = ranges.deep_view();
    let ghost idv = ids.deep_view();
    let mut runs: Vec<Delta> = Vec::new();
    let mut chars = text.chars();
    let mut last: i32 = 0;
    let mut i: usize = 0;
    assert(runs.deep_view() =~= Seq::<DeltaModel>::empty());
    assert(base.skip(0) =~= base);
    while i < ranges.len()
        invariant
            i <= ranges.len(),
            ids.len() == ranges.len(),
            base == text@,
            rs == ranges.deep_view(),
            idv == ids.deep_view(),
            last == end_before(rs, i as nat),
            annotate_state(base, rs, idv, i as nat).pos <= base.len(),
            <Chars as IteratorSpec>::remaining(&chars) == base.skip(
                annotate_state(base, rs, idv, i as nat).pos as int,
            ),
            runs.deep_view() == annotate_state(base, rs, idv, i as nat).runs,
        decreases ranges.len() - i,
    {
        let range = &ranges[i];
        assert(rs[i as int] == range@);
        assert(idv[i as int] == ids[i as int]@);
        let ghost pos = annotate_state(base, rs, idv, i as nat).pos;
        let ghost from = pos + take_count((base.len() - pos) as nat, range.start - last);
        let ghost to = from + take_count((base.len() - from) as nat, range.end - range.start);
        let plain = take_text(&mut chars, range.start as i64 - last as i64);
        assert(plain@ =~= base.subrange(pos as int, from as int));
        assert(<Chars as IteratorSpec>::remaining(&chars) =~= base.skip(from as int));
        let marked = take_text(&mut chars, range.end as i64 - range.start as i64);
        assert(marked@ =~= base.subrange(from as int, to as int));
        assert(<Chars as IteratorSpec>::remaining(&chars) =~= base.skip(to as int));
        push_run(&mut runs, Delta { insert: plain, attributes: None });
        push_run(
            &mut runs,
            Delta {
                insert: marked,
                attributes: Some(
                    Attributes {
                        warning: Some(
                            UnknownAttribute {
                                uuid: ids[i].clone(),
                                unknown: Some(range.word.clone()),
                                num: None,
                            },
                        ),
                        caution: None,
                    },
                ),
            },
        );
        last = range.end;
        i += 1;
    }
    proof {
        lemma_annotate_prefix(base, rs, idv, rs.len());
        assert(runs.deep_view().len() == runs.len());
        if reach_within(base, rs) {
            lemma_runs_reassemble(base, rs, idv);
        }
    }
    runs
}

/// The runs are those that the ranges cut from the text, marked with random
/// identifiers of some kind.
pub open spec fn annotates(
    base: Seq<char>,
    ranges: Seq<UnknownIndexModel>,
    runs: Seq<DeltaModel>,
) -> bool {
    exists|ids: Seq<Seq<char>>|
        {
            &&& ids.len() == ranges.len()
            &&& are_random_ids(ids)
            &&& runs == #[trigger] annotate_runs(base, ranges, ids)
        }
}

/// `part` is the text from its first character up to some place.
pub open spec fn is_beginning(text: Seq<char>, part: Seq<char>) -> bool {
    exists|n: int| 0 <= n <= text.len() && part == #[trigger] text.take(n)
}

/// Cuts the text into runs at the ranges and marks the run of each range
/// with a fresh random identifier and the range's word. What follows the
/// last range is left out.
pub fn annotate(text: &str, ranges: &Vec<UnknownIndex>) -> (runs: Vec<Delta>)
    ensures
        annotates(text@, ranges.deep_view(), runs.deep_view()),
        runs.len() == 2 * ranges.len(),
        is_beginning(text@, inserted_text(runs.deep_view())),
        reach_within(text@, ranges.deep_view()) ==> inserted_text(runs.deep_view()) == text@.take(
            ranges.deep_view().last().end,
        ),
{
    let ids = random_ids(ranges.len());
    let runs = annotate_with_ids(text, ranges, &ids);
    proof {
        lemma_annotate_prefix(text@, ranges.deep_view(), ids.deep_view(), ranges.len() as nat);
        let n = annotate_state(text@, ranges.deep_view(), ids.deep_view(), ranges.len() as nat).pos as int;
        assert(inserted_text(runs.deep_view()) == text@.take(n));
    }
    runs
}

} // verus!
