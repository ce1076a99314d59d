//! Properties of the rule table and of the derivation, proved from the
//! contracts of the operations.
use crate::availability::{conflict_from, derive_in_range};
use crate::datetime::DateTime;
use crate::derive::{
    clip_all, clip_one, contribution, fill_from, gap, insert_sorted, keep_positive, layer_spans,
    merge_from, merge_overlap, rule_spans, sorted_by_start, stacked, with_head, with_tail, Span,
};
use crate::error::AvailabilityError;
use crate::rule::Rule;
use vstd::prelude::*;

verus! {

/// Two relative rules whose spans overlap may share a layer exactly when their
/// weekday sets are disjoint: with the first in the layer, adding the second
/// meets no conflict if no weekday is shared, and `WeekdayConflict` otherwise.
pub proof fn lemma_relative_rules_share_layer<T>(first: Rule<T>, second: Rule<T>)
    requires
        !first.absolute(),
        !second.absolute(),
        first.overlaps(second),
    ensures
        conflict_from(seq![first], second, 0) == if first.weekdays.unwrap() & second.weekdays.unwrap()
            == 0 {
            None::<AvailabilityError>
        } else {
            Some(AvailabilityError::WeekdayConflict)
        },
{
    assert(conflict_from(seq![first], second, 1) == None::<AvailabilityError>);
}

/// A span that is not empty, between valid dates and times.
pub open spec fn span_ok(s: Span) -> bool {
    s.start.wf() && s.end.wf() && s.start.before(s.end)
}

/// A span that is not empty and lies within `[start, end)`.
pub open spec fn span_in(s: Span, start: DateTime, end: DateTime) -> bool {
    span_ok(s) && start.not_after(s.start) && s.end.not_after(end)
}

pub open spec fn all_in(q: Seq<Span>, start: DateTime, end: DateTime) -> bool {
    forall|k: int| 0 <= k < q.len() ==> span_in(#[trigger] q[k], start, end)
}

/// Each span ends no later than the next one starts.
pub open spec fn no_overlap(q: Seq<Span>) -> bool {
    forall|k: int| 0 <= k < q.len() - 1 ==> (#[trigger] q[k]).end.not_after(q[k + 1].start)
}

/// Each span ends where the next one starts.
pub open spec fn chained(q: Seq<Span>) -> bool {
    forall|k: int| 0 <= k < q.len() - 1 ==> (#[trigger] q[k]).end == q[k + 1].start
}

/// The frames partition `[start, end)`: each lasts at least a second, each
/// ends at the instant the next starts, the first starts at `start` and the
/// last ends at `end`; so their starts strictly increase.
pub open spec fn partitions(q: Seq<Span>, start: DateTime, end: DateTime) -> bool {
    &&& q.len() > 0
    &&& q[0].start.instant() == start.instant()
    &&& q.last().end.instant() == end.instant()
    &&& forall|k: int| 0 <= k < q.len() ==> (#[trigger] q[k]).start.instant() < q[k].end.instant()
    &&& forall|k: int|
        0 <= k < q.len() - 1 ==> (#[trigger] q[k]).end.instant() == q[k + 1].start.instant()
    &&& forall|k: int|
        0 <= k < q.len() - 1 ==> (#[trigger] q[k]).start.instant() < q[k + 1].start.instant()
}

proof fn lemma_before_instant(a: DateTime, b: DateTime)
    requires
        a.wf(),
        b.wf(),
    ensures
        a.before(b) ==> a.instant() <= b.instant(),
        a.instant() < b.instant() ==> a.before(b),
{
}

proof fn lemma_rule_spans_ok<T>(rule: Rule<T>, p: int, i: int)
    requires
        rule.wf(),
    ensures
        forall|k: int|
            0 <= k < rule_spans(rule, p, i).len() ==> span_ok(#[trigger] rule_spans(rule, p, i)[k]),
{
}

proof fn lemma_layer_spans_ok<T>(layer: Seq<Rule<T>>, p: int)
    requires
        forall|i: int| 0 <= i < layer.len() ==> (#[trigger] layer[i]).wf(),
    ensures
        forall|k: int| 0 <= k < layer_spans(layer, p).len() ==> span_ok(#[trigger] layer_spans(layer, p)[k]),
    decreases layer.len(),
{
    if layer.len() > 0 {
        let rest = layer.drop_last();
        lemma_layer_spans_ok(rest, p);
        lemma_rule_spans_ok(layer.last(), p, layer.len() - 1);
        let a = layer_spans(rest, p);
        let b = rule_spans(layer.last(), p, layer.len() - 1);
        assert forall|k: int| 0 <= k < (a + b).len() implies span_ok(#[trigger] (a + b)[k]) by {
            if k < a.len() {
                assert((a + b)[k] == a[k]);
            } else {
                assert((a + b)[k] == b[k - a.len()]);
            }
        }
    }
}

proof fn lemma_clip_all_in(q: Seq<Span>, start: DateTime, end: DateTime)
    requires
        start.wf(),
        end.wf(),
        start.before(end),
        forall|k: int| 0 <= k < q.len() ==> span_ok(#[trigger] q[k]),
    ensures
        all_in(clip_all(q, start, end), start, end),
    decreases q.len(),
{
    if q.len() > 0 {
        lemma_clip_all_in(q.drop_last(), start, end);
        let a = clip_all(q.drop_last(), start, end);
        let b = clip_one(q.last(), start, end);
        assert(span_ok(q.last()));
        assert forall|k: int| 0 <= k < (a + b).len() implies span_in(#[trigger] (a + b)[k], start, end) by {
            if k < a.len() {
                assert((a + b)[k] == a[k]);
            } else {
                assert((a + b)[k] == b[k - a.len()]);
            }
        }
    }
}

proof fn lemma_insert_sorted_in(q: Seq<Span>, x: Span, start: DateTime, end: DateTime)
    requires
        all_in(q, start, end),
        span_in(x, start, end),
    ensures
        all_in(insert_sorted(q, x), start, end),
        insert_sorted(q, x).len() == q.len() + 1,
    decreases q.len(),
{
    if q.len() > 0 && x.start.before(q.last().start) {
        lemma_insert_sorted_in(q.drop_last(), x, start, end);
        let r = insert_sorted(q.drop_last(), x);
        assert forall|k: int| 0 <= k < r.push(q.last()).len() implies span_in(
            #[trigger] r.push(q.last())[k],
            start,
            end,
        ) by {
            if k < r.len() {
                assert(r.push(q.last())[k] == r[k]);
            }
        }
    } else if q.len() > 0 {
        assert forall|k: int| 0 <= k < q.push(x).len() implies span_in(#[trigger] q.push(x)[k], start, end) by {
            if k < q.len() {
                assert(q.push(x)[k] == q[k]);
            }
        }
    }
}

proof fn lemma_sorted_in(q: Seq<Span>, start: DateTime, end: DateTime)
    requires
        all_in(q, start, end),
    ensures
        all_in(sorted_by_start(q), start, end),
        sorted_by_start(q).len() == q.len(),
    decreases q.len(),
{
    if q.len() > 0 {
        let rest = q.drop_last();
        assert forall|k: int| 0 <= k < rest.len() implies span_in(#[trigger] rest[k], start, end) by {
            assert(rest[k] == q[k]);
        }
        lemma_sorted_in(rest, start, end);
        lemma_insert_sorted_in(sorted_by_start(rest), q.last(), start, end);
    }
}

proof fn lemma_merge_in(h: Seq<Span>, l: Seq<Span>, i: int, j: int, start: DateTime, end: DateTime)
    requires
        all_in(h, start, end),
        all_in(l, start, end),
    ensures
        all_in(merge_from(h, l, i, j), start, end),
    decreases h.len() - i + l.len() - j,
{
    if i < 0 || j < 0 || i > h.len() || j > l.len() || (i == h.len() && j == l.len()) {
    } else {
        let (head, i2, j2) = if i == h.len() {
            (seq![l[j]], i, j + 1)
        } else if j == l.len() {
            (seq![h[i]], i + 1, j)
        } else if !h[i].start.before(l[j].end) {
            (seq![l[j]], i, j + 1)
        } else if !l[j].start.before(h[i].end) {
            (seq![h[i]], i + 1, j)
        } else {
            (merge_overlap(h[i], l[j]), i + 1, j + 1)
        };
        assert(merge_from(h, l, i, j) == head + merge_from(h, l, i2, j2));
        lemma_merge_in(h, l, i2, j2, start, end);
        let tail = merge_from(h, l, i2, j2);
        if i < h.len() && j < l.len() && h[i].start.before(l[j].end) && l[j].start.before(h[i].end) {
            assert(span_in(h[i], start, end));
            assert(span_in(l[j], start, end));
        }
        assert(all_in(head, start, end)) by {
            if i < h.len() {
                assert(span_in(h[i], start, end));
            }
            if j < l.len() {
                assert(span_in(l[j], start, end));
            }
        }
        assert forall|k: int| 0 <= k < (head + tail).len() implies span_in(
            #[trigger] (head + tail)[k],
            start,
            end,
        ) by {
            if k < head.len() {
                assert((head + tail)[k] == head[k]);
            } else {
                assert((head + tail)[k] == tail[k - head.len()]);
            }
        }
    }
}

proof fn lemma_stacked_in<T>(layers: Seq<Seq<Rule<T>>>, p: int, start: DateTime, end: DateTime)
    requires
        start.wf(),
        end.wf(),
        start.before(end),
        forall|q: int, i: int|
            0 <= q < layers.len() && 0 <= i < layers[q].len() ==> (#[trigger] layers[q][i]).wf(),
    ensures
        all_in(stacked(layers, p, Some((start, end))), start, end),
    decreases layers.len() - p,
{
    if p >= 0 && p < layers.len() {
        lemma_stacked_in(layers, p + 1, start, end);
        let layer = layers[p];
        assert forall|i: int| 0 <= i < layer.len() implies (#[trigger] layer[i]).wf() by {
            assert(layers[p][i] == layer[i]);
        }
        lemma_layer_spans_ok(layer, p);
        lemma_clip_all_in(layer_spans(layer, p), start, end);
        let higher = stacked(layers, p + 1, Some((start, end)));
        let lower = contribution(layers, p, Some((start, end)));
        if higher.len() > 0 {
            lemma_sorted_in(higher, start, end);
            lemma_sorted_in(lower, start, end);
            lemma_merge_in(sorted_by_start(higher), sorted_by_start(lower), 0, 0, start, end);
        }
    }
}

proof fn lemma_chained_concat(a: Seq<Span>, b: Seq<Span>)
    requires
        chained(a),
        chained(b),
        a.len() > 0,
        b.len() > 0,
        a.last().end == b[0].start,
    ensures
        chained(a + b),
        (a + b)[0] == a[0],
        (a + b).last() == b.last(),
{
    let c = a + b;
    assert forall|k: int| 0 <= k < c.len() - 1 implies (#[trigger] c[k]).end == c[k + 1].start by {
        if k < a.len() - 1 {
            assert(c[k] == a[k] && c[k + 1] == a[k + 1]);
        } else if k == a.len() - 1 {
            assert(c[k] == a[k] && c[k + 1] == b[0]);
        } else {
            assert(c[k] == b[k - a.len()] && c[k + 1] == b[k + 1 - a.len()]);
        }
    }
}

proof fn lemma_all_in_concat(a: Seq<Span>, b: Seq<Span>, start: DateTime, end: DateTime)
    requires
        all_in(a, start, end),
        all_in(b, start, end),
    ensures
        all_in(a + b, start, end),
{
    assert forall|k: int| 0 <= k < (a + b).len() implies span_in(#[trigger] (a + b)[k], start, end) by {
        if k < a.len() {
            assert((a + b)[k] == a[k]);
        } else {
            assert((a + b)[k] == b[k - a.len()]);
        }
    }
}

proof fn lemma_fill(h: Seq<Span>, k: int, start: DateTime, end: DateTime)
    requires
        0 <= k < h.len(),
        all_in(h, start, end),
        no_overlap(h),
    ensures
        fill_from(h, k).len() > 0,
        fill_from(h, k)[0] == h[k],
        fill_from(h, k).last().end == h.last().end,
        chained(fill_from(h, k)),
        all_in(fill_from(h, k), start, end),
    decreases h.len() - k,
{
    let mid = if k + 1 < h.len() && h[k].end.before(h[k + 1].start) {
        seq![gap(h[k].end, h[k + 1].start)]
    } else {
        Seq::<Span>::empty()
    };
    assert(fill_from(h, k) == seq![h[k]] + mid + fill_from(h, k + 1));
    assert(span_in(h[k], start, end));
    if k + 1 == h.len() {
        assert(fill_from(h, k) =~= seq![h[k]]);
    } else {
        lemma_fill(h, k + 1, start, end);
        let t = fill_from(h, k + 1);
        assert(span_in(h[k + 1], start, end));
        assert(h[k].end.not_after(h[k + 1].start));
        let front = seq![h[k]] + mid;
        assert(chained(front)) by {
            if mid.len() > 0 {
                assert(front[0] == h[k] && front[1] == mid[0]);
            }
        }
        assert(all_in(front, start, end)) by {
            assert(front[0] == h[k]);
            if mid.len() > 0 {
                assert(front[1] == mid[0]);
            }
        }
        assert(front.last().end == t[0].start);
        lemma_chained_concat(front, t);
        lemma_all_in_concat(front, t, start, end);
    }
}

/// The spans before dropping empty ones: chained from `start` to `end`.
proof fn lemma_before_drop(q: Seq<Span>, start: DateTime, end: DateTime)
    requires
        start.wf(),
        end.wf(),
        start.before(end),
        all_in(q, start, end),
        no_overlap(q),
    ensures
        ({
            let e = with_tail(fill_from(with_head(q, start), 0), start, end);
            &&& e.len() > 0
            &&& e[0].start == start
            &&& e.last().end == end
            &&& chained(e)
            &&& forall|k: int| 0 <= k < e.len() ==> span_ok(#[trigger] e[k])
        }),
{
    let h = with_head(q, start);
    if q.len() > 0 {
        assert(span_in(q[0], start, end));
        if start.before(q[0].start) {
            let g = gap(start, q[0].start);
            assert(h == seq![g] + q);
            assert(all_in(seq![g], start, end));
            lemma_all_in_concat(seq![g], q, start, end);
            assert forall|k: int| 0 <= k < h.len() - 1 implies (#[trigger] h[k]).end.not_after(
                h[k + 1].start,
            ) by {
                if k > 0 {
                    assert(h[k] == q[k - 1] && h[k + 1] == q[k]);
                }
            }
        }
        assert(h[0].start == start);
        lemma_fill(h, 0, start, end);
    }
    let c = fill_from(h, 0);
    let e = with_tail(c, start, end);
    if c.len() == 0 {
    } else if c.last().end.before(end) {
        assert(span_in(c.last(), start, end));
        let g = gap(c.last().end, end);
        assert(chained(e)) by {
            assert forall|k: int| 0 <= k < e.len() - 1 implies (#[trigger] e[k]).end == e[k + 1].start by {
                if k < c.len() - 1 {
                    assert(e[k] == c[k] && e[k + 1] == c[k + 1]);
                }
            }
        }
        assert forall|k: int| 0 <= k < e.len() implies span_ok(#[trigger] e[k]) by {
            if k < c.len() {
                assert(e[k] == c[k]);
                assert(span_in(c[k], start, end));
            }
        }
    } else {
        assert(span_in(c.last(), start, end));
        assert forall|k: int| 0 <= k < e.len() implies span_ok(#[trigger] e[k]) by {
            assert(span_in(c[k], start, end));
        }
    }
}

/// Dropping the spans that last no time from a chained sequence leaves a
/// partition of its extent, in instants.
proof fn lemma_keep_positive(c: Seq<Span>)
    requires
        c.len() > 0,
        chained(c),
        forall|k: int| 0 <= k < c.len() ==> span_ok(#[trigger] c[k]),
    ensures
        c[0].start.instant() <= c.last().end.instant(),
        c[0].start.instant() < c.last().end.instant() ==> partitions(
            keep_positive(c),
            c[0].start,
            c.last().end,
        ),
        c[0].start.instant() == c.last().end.instant() ==> keep_positive(c).len() == 0,
    decreases c.len(),
{
    let x = c.last();
    assert(span_ok(x));
    lemma_before_instant(x.start, x.end);
    let rest = c.drop_last();
    if c.len() == 1 {
        assert(rest.len() == 0);
        assert(keep_positive(rest).len() == 0);
        if x.end.instant() - x.start.instant() > 0 {
            assert(keep_positive(c) =~= seq![x]);
        } else {
            assert(keep_positive(c) =~= Seq::<Span>::empty());
        }
    } else {
        assert(chained(rest)) by {
            assert forall|k: int| 0 <= k < rest.len() - 1 implies (#[trigger] rest[k]).end
                == rest[k + 1].start by {
                assert(rest[k] == c[k] && rest[k + 1] == c[k + 1]);
            }
        }
        assert forall|k: int| 0 <= k < rest.len() implies span_ok(#[trigger] rest[k]) by {
            assert(rest[k] == c[k]);
        }
        lemma_keep_positive(rest);
        assert(rest.last() == c[c.len() - 2]);
        assert(rest.last().end == x.start);
        assert(rest[0] == c[0]);
        let kr = keep_positive(rest);
        if x.end.instant() - x.start.instant() > 0 {
            assert(keep_positive(c) == kr.push(x));
            if c[0].start.instant() == rest.last().end.instant() {
                assert(keep_positive(c) =~= seq![x]);
            } else {
                let kc = kr.push(x);
                assert forall|k: int| 0 <= k < kc.len() implies (#[trigger] kc[k]).start.instant()
                    < kc[k].end.instant() by {
                    if k < kr.len() {
                        assert(kc[k] == kr[k]);
                    }
                }
                assert forall|k: int| 0 <= k < kc.len() - 1 implies (#[trigger] kc[k]).end.instant()
                    == kc[k + 1].start.instant() by {
                    assert(kc[k] == kr[k]);
                    if k < kr.len() - 1 {
                        assert(kc[k + 1] == kr[k + 1]);
                    }
                }
                assert forall|k: int| 0 <= k < kc.len() - 1 implies (#[trigger] kc[k]).start.instant()
                    < kc[k + 1].start.instant() by {
                    assert(kc[k] == kr[k]);
                    if k < kr.len() - 1 {
                        assert(kc[k + 1] == kr[k + 1]);
                    }
                }
            }
        } else {
            assert(keep_positive(c) =~= kr);
        }
    }
}

/// The frames derived over a window `[start, end)` that lasts at least a
/// second are strictly ordered by start, each ends at the instant the next
/// one starts, and together they run from `start` to `end`, whenever the
/// pieces of the rule layers, once laid over each other and sorted, do not
/// overlap. (Where one lower piece reaches across two higher ones, the
/// overlay merge emits overlapping pieces, which the derivation keeps.)
pub proof fn lemma_window_frames_partition<T>(
    layers: Seq<Seq<Rule<T>>>,
    start: DateTime,
    end: DateTime,
)
    requires
        forall|q: int, i: int|
            0 <= q < layers.len() && 0 <= i < layers[q].len() ==> (#[trigger] layers[q][i]).wf(),
        start.wf(),
        end.wf(),
        start.instant() < end.instant(),
        no_overlap(sorted_by_start(stacked(layers, 1, Some((start, end))))),
    ensures
        partitions(derive_in_range(layers, start, end), start, end),
{
    lemma_before_instant(start, end);
    let merged = stacked(layers, 1, Some((start, end)));
    lemma_stacked_in(layers, 1, start, end);
    lemma_sorted_in(merged, start, end);
    let q = sorted_by_start(merged);
    lemma_before_drop(q, start, end);
    let e = with_tail(fill_from(with_head(q, start), 0), start, end);
    lemma_keep_positive(e);
}

proof fn lemma_insert_sorted_keeps(q: Seq<Span>, x: Span)
    ensures
        insert_sorted(q, x).contains(x),
        forall|k: int| 0 <= k < q.len() ==> insert_sorted(q, x).contains(#[trigger] q[k]),
    decreases q.len(),
{
    let r = insert_sorted(q, x);
    if q.len() > 0 && x.start.before(q.last().start) {
        let rest = q.drop_last();
        lemma_insert_sorted_keeps(rest, x);
        let rr = insert_sorted(rest, x);
        assert(r == rr.push(q.last()));
        let i = choose|i: int| 0 <= i < rr.len() && rr[i] == x;
        assert(r[i] == x);
        assert forall|k: int| 0 <= k < q.len() implies r.contains(#[trigger] q[k]) by {
            if k < rest.len() {
                assert(rest[k] == q[k]);
                assert(rr.contains(rest[k]));
                let j = choose|j: int| 0 <= j < rr.len() && rr[j] == rest[k];
                assert(r[j] == q[k]);
            } else {
                assert(r[rr.len() as int] == q[k]);
            }
        }
    } else if q.len() > 0 {
        assert(r == q.push(x));
        assert(r[q.len() as int] == x);
        assert forall|k: int| 0 <= k < q.len() implies r.contains(#[trigger] q[k]) by {
            assert(r[k] == q[k]);
        }
    } else {
        assert(r[0] == x);
    }
}

proof fn lemma_sorted_keeps(q: Seq<Span>)
    ensures
        forall|k: int| 0 <= k < q.len() ==> sorted_by_start(q).contains(#[trigger] q[k]),
    decreases q.len(),
{
    if q.len() > 0 {
        let rest = q.drop_last();
        lemma_sorted_keeps(rest);
        let sr = sorted_by_start(rest);
        lemma_insert_sorted_keeps(sr, q.last());
        let r = sorted_by_start(q);
        assert forall|k: int| 0 <= k < q.len() implies r.contains(#[trigger] q[k]) by {
            if k < rest.len() {
                assert(rest[k] == q[k]);
                assert(sr.contains(rest[k]));
                let j = choose|j: int| 0 <= j < sr.len() && sr[j] == rest[k];
                assert(r.contains(sr[j]));
            }
        }
    }
}

proof fn lemma_merge_keeps_higher(h: Seq<Span>, l: Seq<Span>, i: int, j: int)
    requires
        0 <= i <= h.len(),
        0 <= j <= l.len(),
    ensures
        forall|m: int| i <= m < h.len() ==> merge_from(h, l, i, j).contains(#[trigger] h[m]),
    decreases h.len() - i + l.len() - j,
{
    if i == h.len() && j == l.len() {
    } else {
        let (head, i2, j2) = if i == h.len() {
            (seq![l[j]], i, j + 1)
        } else if j == l.len() {
            (seq![h[i]], i + 1, j)
        } else if !h[i].start.before(l[j].end) {
            (seq![l[j]], i, j + 1)
        } else if !l[j].start.before(h[i].end) {
            (seq![h[i]], i + 1, j)
        } else {
            (merge_overlap(h[i], l[j]), i + 1, j + 1)
        };
        assert(merge_from(h, l, i, j) == head + merge_from(h, l, i2, j2));
        lemma_merge_keeps_higher(h, l, i2, j2);
        let tail = merge_from(h, l, i2, j2);
        let r = head + tail;
        assert forall|m: int| i <= m < h.len() implies r.contains(#[trigger] h[m]) by {
            if m >= i2 {
                let w = choose|w: int| 0 <= w < tail.len() && tail[w] == h[m];
                assert(r[head.len() + w] == h[m]);
            } else {
                assert(m == i);
                if head.len() == 1 {
                    assert(r[0] == h[m]);
                } else {
                    let pre = if l[j].start.before(h[i].start) {
                        1int
                    } else {
                        0int
                    };
                    assert(head[pre] == h[i]);
                    assert(r[pre] == h[m]);
                }
            }
        }
    }
}

/// A higher-priority span is never split: whatever the layers from priority
/// `q` up derive appears whole among what the layers from `p <= q` up
/// derive; lower layers only fill around it.
pub proof fn lemma_higher_spans_kept<T>(
    layers: Seq<Seq<Rule<T>>>,
    p: int,
    q: int,
    window: Option<(DateTime, DateTime)>,
)
    requires
        0 <= p <= q,
    ensures
        forall|k: int|
            0 <= k < stacked(layers, q, window).len() ==> stacked(layers, p, window).contains(
                #[trigger] stacked(layers, q, window)[k],
            ),
    decreases q - p,
{
    if p < q {
        lemma_higher_spans_kept(layers, p + 1, q, window);
        let upper = stacked(layers, q, window);
        let mid = stacked(layers, p + 1, window);
        let here = stacked(layers, p, window);
        if p < layers.len() && mid.len() > 0 {
            let lower = contribution(layers, p, window);
            lemma_sorted_keeps(mid);
            lemma_merge_keeps_higher(sorted_by_start(mid), sorted_by_start(lower), 0, 0);
            assert(here == merge_from(sorted_by_start(mid), sorted_by_start(lower), 0, 0));
            assert forall|k: int| 0 <= k < upper.len() implies here.contains(#[trigger] upper[k]) by {
                let a = choose|a: int| 0 <= a < mid.len() && mid[a] == upper[k];
                assert(sorted_by_start(mid).contains(mid[a]));
                let b = choose|b: int|
                    0 <= b < sorted_by_start(mid).len() && sorted_by_start(mid)[b] == mid[a];
                assert(sorted_by_start(mid).len() == mid.len()) by {
                    lemma_sorted_len(mid);
                }
            }
        } else if p >= layers.len() {
            assert(upper.len() == 0);
        } else {
            assert(upper.len() == 0) by {
                if upper.len() > 0 {
                    let a = choose|a: int| 0 <= a < mid.len() && mid[a] == upper[0];
                }
            }
        }
    }
}

proof fn lemma_fill_keeps(h: Seq<Span>, k: int)
    requires
        0 <= k,
    ensures
        forall|m: int| k <= m < h.len() ==> fill_from(h, k).contains(#[trigger] h[m]),
    decreases h.len() - k,
{
    if k < h.len() {
        lemma_fill_keeps(h, k + 1);
        let mid = if k + 1 < h.len() && h[k].end.before(h[k + 1].start) {
            seq![gap(h[k].end, h[k + 1].start)]
        } else {
            Seq::<Span>::empty()
        };
        let front = seq![h[k]] + mid;
        let tail = fill_from(h, k + 1);
        assert(fill_from(h, k) == front + tail);
        assert forall|m: int| k <= m < h.len() implies fill_from(h, k).contains(#[trigger] h[m]) by {
            if m == k {
                assert((front + tail)[0] == h[k]);
            } else {
                let w = choose|w: int| 0 <= w < tail.len() && tail[w] == h[m];
                assert((front + tail)[front.len() + w] == h[m]);
            }
        }
    }
}

proof fn lemma_keep_positive_keeps(c: Seq<Span>, x: Span)
    requires
        c.contains(x),
        x.end.instant() - x.start.instant() > 0,
    ensures
        keep_positive(c).contains(x),
    decreases c.len(),
{
    let rest = c.drop_last();
    let kr = keep_positive(rest);
    if c.last() == x {
        assert(keep_positive(c) == kr.push(x));
        assert(kr.push(x)[kr.len() as int] == x);
    } else {
        let i = choose|i: int| 0 <= i < c.len() && c[i] == x;
        assert(rest[i] == x);
        lemma_keep_positive_keeps(rest, x);
        let w = choose|w: int| 0 <= w < kr.len() && kr[w] == x;
        if c.last().end.instant() - c.last().start.instant() > 0 {
            assert(keep_positive(c)[w] == x);
        } else {
            assert(keep_positive(c) == kr);
        }
    }
}

/// The frames of a window hold, unsplit, every span that lasts at least a
/// second and that the layers from priority `q >= 1` up derive: a lower
/// layer never reaches into the time of a higher one's span, whose frame
/// keeps its status and, through its tag, its rule's payload.
pub proof fn lemma_higher_priority_prevails<T>(
    layers: Seq<Seq<Rule<T>>>,
    q: int,
    start: DateTime,
    end: DateTime,
    s: Span,
)
    requires
        1 <= q,
        stacked(layers, q, Some((start, end))).contains(s),
        s.end.instant() - s.start.instant() > 0,
    ensures
        derive_in_range(layers, start, end).contains(s),
{
    let window = Some((start, end));
    lemma_higher_spans_kept(layers, 1, q, window);
    let upper = stacked(layers, q, window);
    let merged = stacked(layers, 1, window);
    let a = choose|a: int| 0 <= a < upper.len() && upper[a] == s;
    assert(merged.contains(upper[a]));
    let b = choose|b: int| 0 <= b < merged.len() && merged[b] == s;
    lemma_sorted_keeps(merged);
    let sorted = sorted_by_start(merged);
    assert(sorted.contains(merged[b]));
    let c = choose|c: int| 0 <= c < sorted.len() && sorted[c] == s;
    let h = with_head(sorted, start);
    let ci = if sorted.len() > 0 && start.before(sorted[0].start) {
        c + 1
    } else {
        c
    };
    assert(h[ci] == s);
    lemma_fill_keeps(h, 0);
    let f = fill_from(h, 0);
    assert(f.contains(h[ci]));
    let d = choose|d: int| 0 <= d < f.len() && f[d] == s;
    let e = with_tail(f, start, end);
    assert(e[d] == s);
    lemma_keep_positive_keeps(e, s);
}

proof fn lemma_sorted_len(q: Seq<Span>)
    ensures
        sorted_by_start(q).len() == q.len(),
    decreases q.len(),
{
    if q.len() > 0 {
        lemma_sorted_len(q.drop_last());
        lemma_insert_len(sorted_by_start(q.drop_last()), q.last());
    }
}

proof fn lemma_insert_len(q: Seq<Span>, x: Span)
    ensures
        insert_sorted(q, x).len() == q.len() + 1,
    decreases q.len(),
{
    if q.len() > 0 {
        lemma_insert_len(q.drop_last(), x);
    }
}

} // verus!
