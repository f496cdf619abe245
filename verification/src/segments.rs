//! The files that make up one log: the rotated segments, oldest first, and
//! the live file last.
//!
//! A rotated segment is named after the live file, with the time of its
//! rotation as a suffix; where two were rotated in the same second the later
//! ones carry a number as well. Segments are ordered by comparing the
//! suffixes as text, so the suffixes of one log have to be written alike.

use crate::calendar::{lemma_week_earlier, DateTime};
use crate::text::{
    digits_only, fixed_decimal, keep_digits, lemma_fixed_decimal_order, lemma_fixed_decimal_shape,
    lemma_lex_lt_concat, lemma_lex_lt_irreflexive, lemma_lex_lt_transitive, lemma_lex_total, lex_le,
    lex_lt, pow10, precedes, precedes_or_equals, push_fixed_decimal, push_text, same_text,
};
use vstd::prelude::*;

verus! {

/// One file of a log.
#[derive(Clone, Debug, PartialEq, Eq)]
pub struct Segment {
    /// Where the file is.
    pub path: String,
    /// The time of rotation as the file's name has it; empty for the live
    /// file.
    pub key: String,
    /// The number behind the time, where the name has one.
    pub number: Option<usize>,
    /// Whether the file is compressed.
    pub compressed: bool,
}

/// A `Segment` as plain values.
pub struct SegmentView {
    pub path: Seq<char>,
    pub key: Seq<char>,
    pub number: Option<usize>,
    pub compressed: bool,
}

impl DeepView for Segment {
    type V = SegmentView;

    open spec fn deep_view(&self) -> SegmentView {
        SegmentView {
            path: self.path@,
            key: self.key@,
            number: self.number,
            compressed: self.compressed,
        }
    }
}

/// The order of the numbers behind a time: no number first, then the numbers
/// as they grow.
pub open spec fn number_le(a: Option<usize>, b: Option<usize>) -> bool {
    match (a, b) {
        (None, _) => true,
        (Some(_), None) => false,
        (Some(x), Some(y)) => x <= y,
    }
}

/// `a` was rotated before `b`, or the two carry the same suffix.
pub open spec fn comes_before(a: SegmentView, b: SegmentView) -> bool {
    lex_lt(a.key, b.key) || (a.key == b.key && number_le(a.number, b.number))
}

/// No segment of `segments` stands behind one that was rotated later.
pub open spec fn in_order(segments: Seq<SegmentView>) -> bool {
    forall|i: int, j: int|
        0 <= i < j < segments.len() ==> comes_before(#[trigger] segments[i], #[trigger] segments[j])
}

/// The segment is young enough to be read: its key is not below the
/// retention horizon, nor below the digits of the bound the caller gave.
pub open spec fn admitted(
    segment: SegmentView,
    horizon: Seq<char>,
    after: Option<Seq<char>>,
) -> bool {
    lex_le(horizon, segment.key) && match after {
        None => true,
        Some(bound) => lex_le(digits_only(bound), segment.key),
    }
}

/// The live file of a log: not compressed, and without a key.
pub open spec fn live(base: Seq<char>) -> SegmentView {
    SegmentView { path: base, key: Seq::empty(), number: None, compressed: false }
}

/// An optional bound as characters.
pub open spec fn bound_view(bound: Option<&str>) -> Option<Seq<char>> {
    match bound {
        None => None,
        Some(text) => Some(text@),
    }
}

/// Of two segments one comes before the other.
pub proof fn lemma_comes_before_total(a: SegmentView, b: SegmentView)
    ensures
        comes_before(a, b) || comes_before(b, a),
{
    lemma_lex_total(a.key, b.key);
}

/// What comes before a segment comes before everything behind that segment.
pub proof fn lemma_comes_before_transitive(a: SegmentView, b: SegmentView, c: SegmentView)
    requires
        comes_before(a, b),
        comes_before(b, c),
    ensures
        comes_before(a, c),
{
    if lex_lt(a.key, b.key) && lex_lt(b.key, c.key) {
        lemma_lex_lt_transitive(a.key, b.key, c.key);
    }
}

/// In a list that is in order the keys never decrease.
pub proof fn lemma_keys_never_decrease(segments: Seq<SegmentView>, i: int, j: int)
    requires
        in_order(segments),
        0 <= i <= j < segments.len(),
    ensures
        lex_le(segments[i].key, segments[j].key),
{
}

/// A list that holds what is left of `found` when the segments that are too
/// old are taken out holds a segment exactly if `found` holds it and it is
/// young enough.
pub proof fn lemma_kept_segments(
    kept: Seq<SegmentView>,
    found: Seq<SegmentView>,
    horizon: Seq<char>,
    after: Option<Seq<char>>,
)
    requires
        kept.to_multiset() == found.filter(
            |segment: SegmentView| admitted(segment, horizon, after),
        ).to_multiset(),
    ensures
        forall|segment: SegmentView|
            kept.contains(segment) <==> found.contains(segment) && admitted(
                segment,
                horizon,
                after,
            ),
{
    let young = |segment: SegmentView| admitted(segment, horizon, after);
    let chosen = found.filter(young);
    kept.to_multiset_ensures();
    chosen.to_multiset_ensures();
    assert forall|segment: SegmentView| kept.contains(segment) <==> found.contains(segment)
        && admitted(segment, horizon, after) by {
        assert(kept.contains(segment) <==> chosen.contains(segment)) by {
            assert(kept.contains(segment) <==> kept.to_multiset().count(segment) > 0);
            assert(chosen.contains(segment) <==> chosen.to_multiset().count(segment) > 0);
        }
        if chosen.contains(segment) {
            found.lemma_filter_contains_rev(young, segment);
            let at = choose|at: int| 0 <= at < chosen.len() && chosen[at] == segment;
            found.lemma_filter_pred(young, at);
        }
        if found.contains(segment) && admitted(segment, horizon, after) {
            let at = choose|at: int| 0 <= at < found.len() && found[at] == segment;
            found.lemma_filter_contains(young, at);
        }
    }
}

/// Putting one more item into a sequence, anywhere, adds it to what the
/// sequence holds.
proof fn lemma_insert_to_multiset<A>(s: Seq<A>, at: int, item: A)
    requires
        0 <= at <= s.len(),
    ensures
        s.insert(at, item).to_multiset() == s.to_multiset().insert(item),
{
    let longer = s.insert(at, item);
    assert(longer.remove(at) =~= s);
    assert(longer[at] == item);
    longer.to_multiset_ensures();
    assert(longer.to_multiset().count(item) > 0) by {
        assert(longer.contains(item));
    }
    assert(longer.to_multiset() =~= s.to_multiset().insert(item));
}

/// Whether `a` was rotated before `b` or carries the same suffix.
pub fn older_or_same(a: &Segment, b: &Segment) -> (before: bool)
    ensures
        before == comes_before(a.deep_view(), b.deep_view()),
{
    if precedes(a.key.as_str(), b.key.as_str()) {
        true
    } else if same_text(a.key.as_str(), b.key.as_str()) {
        match (a.number, b.number) {
            (None, _) => true,
            (Some(_), None) => false,
            (Some(x), Some(y)) => x <= y,
        }
    } else {
        false
    }
}

/// Whether a segment is young enough to be read: whether its key is below
/// neither `horizon` nor `digits`. Both are compared as they stand.
pub fn is_admitted(segment: &Segment, horizon: &str, digits: Option<&str>) -> (young: bool)
    ensures
        young == (lex_le(horizon@, segment.key@) && match digits {
            None => true,
            Some(bound) => lex_le(bound@, segment.key@),
        }),
{
    if !precedes_or_equals(horizon, segment.key.as_str()) {
        return false;
    }
    match digits {
        None => true,
        Some(bound) => precedes_or_equals(bound, segment.key.as_str()),
    }
}

/// A copy of a segment.
fn copy_of(segment: &Segment) -> (copy: Segment)
    ensures
        copy.deep_view() == segment.deep_view(),
{
    Segment {
        path: segment.path.clone(),
        key: segment.key.clone(),
        number: segment.number,
        compressed: segment.compressed,
    }
}

/// The place of `segment` among `sorted`: behind everything that comes
/// before it or carries the same suffix.
fn place_of(sorted: &Vec<Segment>, segment: &Segment) -> (at: usize)
    requires
        in_order(sorted.deep_view()),
    ensures
        at <= sorted.len(),
        in_order(sorted.deep_view().insert(at as int, segment.deep_view())),
{
    let ghost views = sorted.deep_view();
    let ghost new = segment.deep_view();
    let mut at: usize = sorted.len();
    while at > 0 && !older_or_same(&sorted[at - 1], segment)
        invariant
            at <= sorted.len(),
            views == sorted.deep_view(),
            new == segment.deep_view(),
            forall|j: int| at <= j < views.len() ==> comes_before(new, #[trigger] views[j]),
        decreases at,
    {
        proof {
            lemma_comes_before_total(views[at - 1], new);
        }
        at -= 1;
    }
    proof {
        let longer = views.insert(at as int, new);
        assert forall|i: int, j: int| 0 <= i < j < longer.len() implies comes_before(
            #[trigger] longer[i],
            #[trigger] longer[j],
        ) by {
            if j < at {
                assert(longer[i] == views[i] && longer[j] == views[j]);
            } else if j == at {
                assert(longer[i] == views[i]);
                assert(comes_before(views[at - 1], new));
                if i < at - 1 {
                    lemma_comes_before_transitive(views[i], views[at - 1], new);
                }
            } else if i < at {
                assert(longer[i] == views[i] && longer[j] == views[j - 1]);
            } else if i == at {
                assert(longer[j] == views[j - 1]);
            } else {
                assert(longer[i] == views[i - 1] && longer[j] == views[j - 1]);
            }
        }
    }
    at
}

/// The key of a segment that was rotated at `at`: `YYYYMMDDTHHMMSS`.
pub open spec fn key_of(at: DateTime) -> Seq<char> {
    fixed_decimal(at.year as nat, 4) + fixed_decimal(at.month as nat, 2) + fixed_decimal(
        at.day as nat,
        2,
    ) + seq!['T'] + fixed_decimal(at.hour as nat, 2) + fixed_decimal(at.minute as nat, 2)
        + fixed_decimal(at.second as nat, 2)
}

/// The key of a segment that was rotated at `at`.
pub fn segment_key(at: &DateTime) -> (key: String)
    ensures
        key@ == key_of(*at),
{
    let mut key = String::new();
    push_fixed_decimal(&mut key, at.year, 4);
    push_fixed_decimal(&mut key, at.month, 2);
    push_fixed_decimal(&mut key, at.day, 2);
    key.push('T');
    push_fixed_decimal(&mut key, at.hour, 2);
    push_fixed_decimal(&mut key, at.minute, 2);
    push_fixed_decimal(&mut key, at.second, 2);
    assert(key@ =~= key_of(*at));
    key
}

/// The keys of two segments are ordered as the seconds in which the segments
/// were rotated: comparing keys as text compares times.
pub proof fn lemma_key_order_is_time_order(a: DateTime, b: DateTime)
    requires
        a.is_valid(),
        b.is_valid(),
    ensures
        lex_lt(key_of(a), key_of(b)) == a.earlier_second(b),
        (key_of(a) == key_of(b)) == a.same_second(b),
{
    assert(pow10(2) == 100 && pow10(4) == 10000) by {
        reveal_with_fuel(pow10, 5);
    }
    let mark = seq!['T'];
    let (ya, yb) = (fixed_decimal(a.year as nat, 4), fixed_decimal(b.year as nat, 4));
    let (oa, ob) = (fixed_decimal(a.month as nat, 2), fixed_decimal(b.month as nat, 2));
    let (da, db) = (fixed_decimal(a.day as nat, 2), fixed_decimal(b.day as nat, 2));
    let (ha, hb) = (fixed_decimal(a.hour as nat, 2), fixed_decimal(b.hour as nat, 2));
    let (ia, ib) = (fixed_decimal(a.minute as nat, 2), fixed_decimal(b.minute as nat, 2));
    let (sa, sb) = (fixed_decimal(a.second as nat, 2), fixed_decimal(b.second as nat, 2));
    lemma_fixed_decimal_order(a.year as nat, b.year as nat, 4);
    lemma_fixed_decimal_order(a.month as nat, b.month as nat, 2);
    lemma_fixed_decimal_order(a.day as nat, b.day as nat, 2);
    lemma_fixed_decimal_order(a.hour as nat, b.hour as nat, 2);
    lemma_fixed_decimal_order(a.minute as nat, b.minute as nat, 2);
    lemma_fixed_decimal_order(a.second as nat, b.second as nat, 2);
    lemma_fixed_decimal_shape(a.year as nat, 4);
    lemma_fixed_decimal_shape(b.year as nat, 4);
    lemma_fixed_decimal_shape(a.month as nat, 2);
    lemma_fixed_decimal_shape(b.month as nat, 2);
    lemma_fixed_decimal_shape(a.day as nat, 2);
    lemma_fixed_decimal_shape(b.day as nat, 2);
    lemma_fixed_decimal_shape(a.hour as nat, 2);
    lemma_fixed_decimal_shape(b.hour as nat, 2);
    lemma_fixed_decimal_shape(a.minute as nat, 2);
    lemma_fixed_decimal_shape(b.minute as nat, 2);
    lemma_lex_lt_irreflexive(mark);
    lemma_lex_lt_concat(ya, oa, yb, ob);
    lemma_lex_lt_concat(ya + oa, da, yb + ob, db);
    lemma_lex_lt_concat(ya + oa + da, mark, yb + ob + db, mark);
    lemma_lex_lt_concat(ya + oa + da + mark, ha, yb + ob + db + mark, hb);
    lemma_lex_lt_concat(ya + oa + da + mark + ha, ia, yb + ob + db + mark + hb, ib);
    lemma_lex_lt_concat(ya + oa + da + mark + ha + ia, sa, yb + ob + db + mark + hb + ib, sb);
}

/// The retention horizon at the time `now`: the key of a segment rotated one
/// week earlier. Where there is no such time the horizon is empty, which
/// keeps every segment.
pub open spec fn horizon_at(now: DateTime) -> Seq<char> {
    match now.week_earlier() {
        Some(earlier) => key_of(earlier),
        None => Seq::empty(),
    }
}

/// A segment that carries the key of the time at which it was rotated is
/// kept by the retention horizon exactly if it was rotated within the last
/// week.
pub proof fn lemma_horizon_keeps_one_week(now: DateTime, rotated: DateTime)
    requires
        now.is_valid(),
        rotated.is_valid(),
    ensures
        lex_le(horizon_at(now), key_of(rotated)) == match now.week_earlier() {
            Some(earlier) => !rotated.earlier_second(earlier),
            None => true,
        },
{
    match now.week_earlier() {
        Some(earlier) => {
            lemma_week_earlier(now);
            lemma_key_order_is_time_order(earlier, rotated);
        },
        None => {
            let key = key_of(rotated);
            if key.len() > 0 {
                assert(lex_lt(Seq::<char>::empty(), key));
            } else {
                assert(key =~= Seq::<char>::empty());
            }
        },
    }
}

/// The key below which segments are too old to be read at the time `now`:
/// segments are kept for one week.
pub fn retention_horizon(now: &DateTime) -> (horizon: String)
    ensures
        horizon@ == horizon_at(*now),
{
    match now.week_before() {
        Some(earlier) => segment_key(&earlier),
        None => String::new(),
    }
}

/// Lists the files of a log in the order in which they are to be read.
///
/// `found` holds the rotated segments as they were found, in any order;
/// `horizon` is the key of the oldest segment still kept, and `after`, where
/// given, a time of which only the digits count. The result holds the
/// segments whose key is below neither bound, oldest first, and the live file
/// `base` behind them.
pub fn discover(base: &str, found: &Vec<Segment>, horizon: &str, after: Option<&str>) -> (files:
    Vec<Segment>)
    ensures
        files.len() >= 1,
        files.deep_view().last() == live(base@),
        in_order(files.deep_view().drop_last()),
        files.deep_view().drop_last().to_multiset() == found.deep_view().filter(
            |segment: SegmentView| admitted(segment, horizon@, bound_view(after)),
        ).to_multiset(),
        forall|i: int, j: int|
            0 <= i <= j < files.len() - 1 ==> lex_le(
                (#[trigger] files.deep_view()[i]).key,
                (#[trigger] files.deep_view()[j]).key,
            ),
        forall|segment: SegmentView|
            files.deep_view().drop_last().contains(segment) <==> found.deep_view().contains(segment)
                && admitted(segment, horizon@, bound_view(after)),
        found.len() == 0 ==> files.len() == 1,
{
    let ghost young = |segment: SegmentView| admitted(segment, horizon@, bound_view(after));
    let ghost all = found.deep_view();
    let digits: Option<String> = match after {
        None => None,
        Some(text) => Some(keep_digits(text)),
    };
    let mut files: Vec<Segment> = Vec::new();
    let mut i: usize = 0;
    assert(files.deep_view() =~= all.take(0).filter(young));
    while i < found.len()
        invariant
            i <= found.len(),
            all == found.deep_view(),
            young == (|segment: SegmentView| admitted(segment, horizon@, bound_view(after))),
            match after {
                None => digits is None,
                Some(text) => digits matches Some(kept) && kept@ == digits_only(text@),
            },
            in_order(files.deep_view()),
            files.deep_view().to_multiset() == all.take(i as int).filter(young).to_multiset(),
            files.len() <= i,
        decreases found.len() - i,
    {
        let bound: Option<&str> = match &digits {
            None => None,
            Some(kept) => Some(kept.as_str()),
        };
        proof {
            assert(all.take(i + 1) =~= all.take(i as int).push(all[i as int]));
            all.take(i as int).lemma_filter_push(all[i as int], young);
        }
        if is_admitted(&found[i], horizon, bound) {
            let ghost before = files.deep_view();
            let at: usize = place_of(&files, &found[i]);
            let copy = copy_of(&found[i]);
            files.insert(at, copy);
            proof {
                assert(files.deep_view() =~= before.insert(at as int, all[i as int]));
                lemma_insert_to_multiset(before, at as int, all[i as int]);
                all.take(i as int).filter(young).to_multiset_ensures();
            }
        }
        i += 1;
    }
    assert(all.take(i as int) =~= all);
    let ghost rotated = files.deep_view();
    let mut path = String::new();
    push_text(&mut path, base);
    files.push(Segment { path, key: String::new(), number: None, compressed: false });
    proof {
        assert(files.deep_view().drop_last() =~= rotated);
        lemma_kept_segments(rotated, all, horizon@, bound_view(after));
        assert forall|i: int, j: int| 0 <= i <= j < files.len() - 1 implies lex_le(
            (#[trigger] files.deep_view()[i]).key,
            (#[trigger] files.deep_view()[j]).key,
        ) by {
            assert(files.deep_view()[i] == rotated[i] && files.deep_view()[j] == rotated[j]);
            lemma_keys_never_decrease(rotated, i, j);
        }
    }
    files
}

} // verus!
