//! The derivation of frames from rules, on spans: intervals with a status and
//! the priority and index of the rule they come from.
use crate::datetime::DateTime;
use crate::rule::{relative_to_absolute_rules, Rule};
use vstd::prelude::*;

verus! {

/// A derived interval `[start, end)` with its status, tagged with the layer
/// (`prio`) and the position in that layer (`idx`) of the rule it comes from.
/// Filler intervals carry the tag of the base rule, `(0, 0)`.
#[derive(Clone, Copy, PartialEq, Eq, Structural, Debug)]
pub struct Span {
    pub start: DateTime,
    pub end: DateTime,
    pub off: bool,
    pub prio: usize,
    pub idx: usize,
}

/// An off interval with the base rule's tag.
pub open spec fn gap(start: DateTime, end: DateTime) -> Span {
    Span { start, end, off: true, prio: 0, idx: 0 }
}

/// `s` with the interval `[start, end)` in place of its own.
pub open spec fn reshape(s: Span, start: DateTime, end: DateTime) -> Span {
    Span { start, end, off: s.off, prio: s.prio, idx: s.idx }
}

/// Inserts `x` into the sorted `s` after every span that does not start later.
pub open spec fn insert_sorted(s: Seq<Span>, x: Span) -> Seq<Span>
    decreases s.len(),
{
    if s.len() == 0 {
        seq![x]
    } else if x.start.before(s.last().start) {
        insert_sorted(s.drop_last(), x).push(s.last())
    } else {
        s.push(x)
    }
}

/// The stable sort of `s` by start.
pub open spec fn sorted_by_start(s: Seq<Span>) -> Seq<Span>
    decreases s.len(),
{
    if s.len() == 0 {
        s
    } else {
        insert_sorted(sorted_by_start(s.drop_last()), s.last())
    }
}

/// The overlay merge of higher-priority spans `h` and lower-priority spans `l`,
/// from cursor positions `i` and `j` on.
pub open spec fn merge_from(h: Seq<Span>, l: Seq<Span>, i: int, j: int) -> Seq<Span>
    decreases h.len() - i + l.len() - j,
{
    if i < 0 || j < 0 || i > h.len() || j > l.len() || (i == h.len() && j == l.len()) {
        Seq::empty()
    } else if i == h.len() {
        seq![l[j]] + merge_from(h, l, i, j + 1)
    } else if j == l.len() {
        seq![h[i]] + merge_from(h, l, i + 1, j)
    } else if !h[i].start.before(l[j].end) {
        seq![l[j]] + merge_from(h, l, i, j + 1)
    } else if !l[j].start.before(h[i].end) {
        seq![h[i]] + merge_from(h, l, i + 1, j)
    } else {
        merge_overlap(h[i], l[j]) + merge_from(h, l, i + 1, j + 1)
    }
}

/// The spans emitted for a higher span `hs` that overlaps a lower span `ls`:
/// the part of `ls` before `hs`, `hs` whole, the part of `ls` after `hs`.
pub open spec fn merge_overlap(hs: Span, ls: Span) -> Seq<Span> {
    (if ls.start.before(hs.start) {
        seq![reshape(ls, ls.start, hs.start)]
    } else {
        Seq::empty()
    }) + seq![hs] + (if hs.end.before(ls.end) {
        seq![reshape(ls, hs.end, ls.end)]
    } else {
        Seq::empty()
    })
}

/// Lays the spans of a lower layer under those already derived from higher layers.
pub open spec fn overlay(higher: Seq<Span>, lower: Seq<Span>) -> Seq<Span> {
    if higher.len() == 0 {
        lower
    } else {
        merge_from(sorted_by_start(higher), sorted_by_start(lower), 0, 0)
    }
}

/// A span clamped to the window `[start, end)`, or nothing if it lies outside.
pub open spec fn clip_one(s: Span, start: DateTime, end: DateTime) -> Seq<Span> {
    if !start.before(s.end) || !s.start.before(end) {
        Seq::empty()
    } else {
        seq![
            reshape(
                s,
                if s.start.before(start) {
                    start
                } else {
                    s.start
                },
                if s.end.before(end) {
                    s.end
                } else {
                    end
                },
            ),
        ]
    }
}

/// Every span clamped to the window, those outside it dropped.
pub open spec fn clip_all(s: Seq<Span>, start: DateTime, end: DateTime) -> Seq<Span>
    decreases s.len(),
{
    if s.len() == 0 {
        s
    } else {
        clip_all(s.drop_last(), start, end) + clip_one(s.last(), start, end)
    }
}

/// The spans from position `k` on, each followed by an off filler up to the
/// next one's start where a gap separates them.
pub open spec fn fill_from(s: Seq<Span>, k: int) -> Seq<Span>
    decreases s.len() - k,
{
    if k < 0 || k >= s.len() {
        Seq::empty()
    } else {
        seq![s[k]] + (if k + 1 < s.len() && s[k].end.before(s[k + 1].start) {
            seq![gap(s[k].end, s[k + 1].start)]
        } else {
            Seq::empty()
        }) + fill_from(s, k + 1)
    }
}

/// The spans that last at least one second.
pub open spec fn keep_positive(s: Seq<Span>) -> Seq<Span>
    decreases s.len(),
{
    if s.len() == 0 {
        s
    } else {
        keep_positive(s.drop_last()) + (if s.last().end.instant() - s.last().start.instant() > 0 {
            seq![s.last()]
        } else {
            Seq::empty()
        })
    }
}

/// Sorted spans with an off filler before the first when it starts after
/// `start`.
pub open spec fn with_head(s: Seq<Span>, start: DateTime) -> Seq<Span> {
    if s.len() > 0 && start.before(s[0].start) {
        seq![gap(start, s[0].start)] + s
    } else {
        s
    }
}

/// Spans with an off filler after the last when it ends before `end`, and a
/// single filler over the window when there is no span at all.
pub open spec fn with_tail(s: Seq<Span>, start: DateTime, end: DateTime) -> Seq<Span> {
    if s.len() == 0 {
        seq![gap(start, end)]
    } else if s.last().end.before(end) {
        s.push(gap(s.last().end, end))
    } else {
        s
    }
}

/// The frames of a window from the merged spans of its layers: sorted, gaps
/// filled with off fillers, and empty intervals dropped.
pub open spec fn finish(s: Seq<Span>, start: DateTime, end: DateTime) -> Seq<Span> {
    keep_positive(with_tail(fill_from(with_head(sorted_by_start(s), start), 0), start, end))
}

/// The spans of rule `i` of layer `p`: the rule's own interval if it is
/// absolute, one interval per enabled day if it is relative, none if it cannot
/// be split.
pub open spec fn rule_spans<T>(rule: Rule<T>, p: int, i: int) -> Seq<Span> {
    if rule.split_error().is_some() {
        Seq::empty()
    } else if rule.absolute() {
        seq![Span { start: rule.start, end: rule.end, off: rule.off, prio: p as usize, idx: i as usize }]
    } else {
        rule.piece_days().map_values(
            |d: int|
                Span {
                    start: DateTime { day: d as i32, secs: rule.start.secs },
                    end: DateTime { day: d as i32, secs: rule.end.secs },
                    off: rule.off,
                    prio: p as usize,
                    idx: i as usize,
                },
        )
    }
}

/// The spans of all rules of layer `p`, rule by rule.
pub open spec fn layer_spans<T>(layer: Seq<Rule<T>>, p: int) -> Seq<Span>
    decreases layer.len(),
{
    if layer.len() == 0 {
        Seq::empty()
    } else {
        layer_spans(layer.drop_last(), p) + rule_spans(layer.last(), p, layer.len() - 1)
    }
}

/// What layer `p` contributes: its spans, clipped to the window if there is one.
pub open spec fn contribution<T>(
    layers: Seq<Seq<Rule<T>>>,
    p: int,
    window: Option<(DateTime, DateTime)>,
) -> Seq<Span> {
    match window {
        Some(w) => clip_all(layer_spans(layers[p], p), w.0, w.1),
        None => layer_spans(layers[p], p),
    }
}

/// The spans of the layers from the highest down to `p`, each layer laid under
/// those above it.
pub open spec fn stacked<T>(
    layers: Seq<Seq<Rule<T>>>,
    p: int,
    window: Option<(DateTime, DateTime)>,
) -> Seq<Span>
    decreases layers.len() - p,
{
    if p < 0 || p >= layers.len() {
        Seq::empty()
    } else {
        overlay(stacked(layers, p + 1, window), contribution(layers, p, window))
    }
}

/// The spans of all rules of a layer (see `layer_spans`).
pub fn spans_of_layer<T: Clone>(layer: &Vec<Rule<T>>, p: usize) -> (r: Vec<Span>)
    requires
        forall|i: int| 0 <= i < layer@.len() ==> (#[trigger] layer@[i]).wf(),
    ensures
        r@ == layer_spans(layer@, p as int),
{
    let mut out: Vec<Span> = Vec::new();
    let mut i: usize = 0;
    while i < layer.len()
        invariant
            i <= layer@.len(),
            forall|i: int| 0 <= i < layer@.len() ==> (#[trigger] layer@[i]).wf(),
            out@ == layer_spans(layer@.take(i as int), p as int),
        decreases layer@.len() - i,
    {
        let rule = &layer[i];
        let ghost before = out@;
        let ghost want = rule_spans(*rule, p as int, i as int);
        assert(layer@.take(i as int + 1).drop_last() =~= layer@.take(i as int));
        let dup = rule.duplicate();
        let ghost d = dup;
        match relative_to_absolute_rules(dup) {
            Ok(pieces) => {
                let mut k: usize = 0;
                while k < pieces.len()
                    invariant
                        k <= pieces@.len(),
                        rule.split_error().is_none(),
                        rule.absolute() ==> pieces@.len() == 1 && pieces@[0].start == rule.start
                            && pieces@[0].end == rule.end && pieces@[0].off == rule.off,
                        d.start == rule.start && d.end == rule.end && d.weekdays == rule.weekdays
                            && d.off == rule.off,
                        !rule.absolute() ==> pieces@.len() == d.piece_days().len() && forall|k: int|
                            0 <= k < pieces@.len() ==> d.is_piece(k, #[trigger] pieces@[k]),
                        want == rule_spans(*rule, p as int, i as int),
                        want.len() == pieces@.len(),
                        out@ == before + want.take(k as int),
                    decreases pieces@.len() - k,
                {
                    let piece = &pieces[k];
                    out.push(Span { start: piece.start, end: piece.end, off: piece.off, prio: p, idx: i });
                    assert(out@ =~= before + want.take(k as int + 1));
                    k = k + 1;
                }
                assert(want.take(want.len() as int) =~= want);
            },
            Err(_) => {
                assert(want =~= Seq::<Span>::empty());
                assert(out@ =~= before + want);
            },
        }
        i = i + 1;
    }
    assert(layer@.take(layer@.len() as int) =~= layer@);
    out
}

/// Stable sort by start.
pub fn sort_spans(v: &Vec<Span>) -> (r: Vec<Span>)
    ensures
        r@ == sorted_by_start(v@),
{
    let mut out: Vec<Span> = Vec::new();
    let mut k: usize = 0;
    while k < v.len()
        invariant
            k <= v@.len(),
            out@ == sorted_by_start(v@.take(k as int)),
        decreases v@.len() - k,
    {
        let x = v[k];
        let ghost s = out@;
        assert(v@.take(k as int + 1).drop_last() =~= v@.take(k as int));
        out.push(x);
        let mut pos: usize = out.len() - 1;
        assert(s.take(pos as int) =~= s);
        assert(s.skip(pos as int) =~= Seq::<Span>::empty());
        assert(out@ =~= s.take(pos as int).push(x) + s.skip(pos as int));
        while pos > 0 && x.start.is_before(&out[pos - 1].start)
            invariant
                pos <= s.len(),
                out@.len() == s.len() + 1,
                out@ == s.take(pos as int).push(x) + s.skip(pos as int),
                insert_sorted(s, x) == insert_sorted(s.take(pos as int), x) + s.skip(pos as int),
            decreases pos,
        {
            let y = out[pos - 1];
            assert(y == s[pos - 1]);
            out.set(pos, y);
            out.set(pos - 1, x);
            assert(s.take(pos as int).drop_last() =~= s.take(pos - 1));
            assert(s.take(pos as int).last() == s[pos - 1]);
            assert(insert_sorted(s.take(pos as int), x) == insert_sorted(s.take(pos - 1), x).push(
                s[pos - 1],
            ));
            assert(insert_sorted(s.take(pos - 1), x).push(s[pos - 1]) + s.skip(pos as int)
                =~= insert_sorted(s.take(pos - 1), x) + s.skip(pos - 1));
            pos = pos - 1;
            assert(out@ =~= s.take(pos as int).push(x) + s.skip(pos as int));
        }
        if pos > 0 {
            assert(s.take(pos as int).last() == s[pos - 1]);
            assert(insert_sorted(s.take(pos as int), x) == s.take(pos as int).push(x));
        } else {
            assert(s.take(0) =~= Seq::<Span>::empty());
        }
        assert(out@ =~= insert_sorted(s, x));
        k = k + 1;
    }
    assert(v@.take(v@.len() as int) =~= v@);
    out
}

/// The overlay merge of two sorted span sequences (see `merge_from`).
pub fn merge(h: &Vec<Span>, l: &Vec<Span>) -> (r: Vec<Span>)
    ensures
        r@ == merge_from(h@, l@, 0, 0),
{
    let mut out: Vec<Span> = Vec::new();
    let mut i: usize = 0;
    let mut j: usize = 0;
    assert(out@ + merge_from(h@, l@, 0, 0) =~= merge_from(h@, l@, 0, 0));
    while i < h.len() || j < l.len()
        invariant
            i <= h@.len(),
            j <= l@.len(),
            out@ + merge_from(h@, l@, i as int, j as int) == merge_from(h@, l@, 0, 0),
        decreases h@.len() - i + l@.len() - j,
    {
        let ghost before = out@;
        let ghost (i0, j0) = (i as int, j as int);
        if i >= h.len() {
            out.push(l[j]);
            j = j + 1;
        } else if j >= l.len() {
            out.push(h[i]);
            i = i + 1;
        } else {
            let hf = h[i];
            let lf = l[j];
            if !hf.start.is_before(&lf.end) {
                out.push(lf);
                j = j + 1;
            } else if !lf.start.is_before(&hf.end) {
                out.push(hf);
                i = i + 1;
            } else {
                if lf.start.is_before(&hf.start) {
                    out.push(Span { start: lf.start, end: hf.start, off: lf.off, prio: lf.prio, idx: lf.idx });
                }
                out.push(hf);
                if hf.end.is_before(&lf.end) {
                    out.push(Span { start: hf.end, end: lf.end, off: lf.off, prio: lf.prio, idx: lf.idx });
                }
                assert(out@ =~= before + merge_overlap(h@[i0], l@[j0]));
                i = i + 1;
                j = j + 1;
            }
        }
        assert(before + merge_from(h@, l@, i0, j0) =~= out@ + merge_from(
            h@,
            l@,
            i as int,
            j as int,
        ));
    }
    assert(out@ + merge_from(h@, l@, i as int, j as int) =~= out@);
    out
}

/// Lays `lower` under `higher` (see `overlay`).
pub fn overlay_spans(higher: Vec<Span>, lower: Vec<Span>) -> (r: Vec<Span>)
    ensures
        r@ == overlay(higher@, lower@),
{
    if higher.len() == 0 {
        lower
    } else {
        let h = sort_spans(&higher);
        let l = sort_spans(&lower);
        merge(&h, &l)
    }
}

/// Every span clamped to `[start, end)`; those outside dropped.
pub fn clip_spans(v: &Vec<Span>, start: DateTime, end: DateTime) -> (r: Vec<Span>)
    ensures
        r@ == clip_all(v@, start, end),
{
    let mut out: Vec<Span> = Vec::new();
    let mut k: usize = 0;
    while k < v.len()
        invariant
            k <= v@.len(),
            out@ == clip_all(v@.take(k as int), start, end),
        decreases v@.len() - k,
    {
        let s = v[k];
        assert(v@.take(k as int + 1).drop_last() =~= v@.take(k as int));
        if !(!start.is_before(&s.end) || !s.start.is_before(&end)) {
            let lo = if s.start.is_before(&start) {
                start
            } else {
                s.start
            };
            let hi = if s.end.is_before(&end) {
                s.end
            } else {
                end
            };
            out.push(Span { start: lo, end: hi, off: s.off, prio: s.prio, idx: s.idx });
        }
        assert(out@ =~= clip_all(v@.take(k as int + 1), start, end));
        k = k + 1;
    }
    assert(v@.take(v@.len() as int) =~= v@);
    out
}

/// The merged spans of a window turned into its frames (see `finish`).
pub fn finish_spans(merged: &Vec<Span>, start: DateTime, end: DateTime) -> (r: Vec<Span>)
    ensures
        r@ == finish(merged@, start, end),
{
    let sorted = sort_spans(merged);
    // filler before the first span
    let mut headed: Vec<Span> = Vec::new();
    if sorted.len() > 0 && start.is_before(&sorted[0].start) {
        headed.push(Span { start, end: sorted[0].start, off: true, prio: 0, idx: 0 });
    }
    let mut k: usize = 0;
    let ghost pre = headed@;
    while k < sorted.len()
        invariant
            k <= sorted@.len(),
            headed@ == pre + sorted@.take(k as int),
        decreases sorted@.len() - k,
    {
        headed.push(sorted[k]);
        assert(pre + sorted@.take(k as int + 1) =~= (pre + sorted@.take(k as int)).push(sorted@[k as int]));
        k = k + 1;
    }
    assert(sorted@.take(sorted@.len() as int) =~= sorted@);
    assert(headed@ =~= with_head(sorted@, start));
    // fillers between spans
    let mut filled: Vec<Span> = Vec::new();
    let mut i: usize = 0;
    assert(filled@ + fill_from(headed@, 0) =~= fill_from(headed@, 0));
    while i < headed.len()
        invariant
            i <= headed@.len(),
            filled@ + fill_from(headed@, i as int) == fill_from(headed@, 0),
        decreases headed@.len() - i,
    {
        let ghost before = filled@;
        filled.push(headed[i]);
        if i + 1 < headed.len() && headed[i].end.is_before(&headed[i + 1].start) {
            filled.push(Span { start: headed[i].end, end: headed[i + 1].start, off: true, prio: 0, idx: 0 });
        }
        assert(before + fill_from(headed@, i as int) =~= filled@ + fill_from(headed@, i + 1));
        i = i + 1;
    }
    assert(filled@ + fill_from(headed@, i as int) =~= filled@);
    // filler after the last span, or over the whole window
    if filled.len() == 0 {
        filled.push(Span { start, end, off: true, prio: 0, idx: 0 });
    } else {
        let last_end = filled[filled.len() - 1].end;
        if last_end.is_before(&end) {
            filled.push(Span { start: last_end, end, off: true, prio: 0, idx: 0 });
        }
    }
    assert(filled@ =~= with_tail(fill_from(headed@, 0), start, end));
    // drop empty intervals
    let mut out: Vec<Span> = Vec::new();
    let mut m: usize = 0;
    while m < filled.len()
        invariant
            m <= filled@.len(),
            out@ == keep_positive(filled@.take(m as int)),
        decreases filled@.len() - m,
    {
        let s = filled[m];
        assert(filled@.take(m as int + 1).drop_last() =~= filled@.take(m as int));
        if s.end.seconds_since(&s.start) > 0 {
            out.push(s);
        }
        assert(out@ =~= keep_positive(filled@.take(m as int + 1)));
        m = m + 1;
    }
    assert(filled@.take(filled@.len() as int) =~= filled@);
    out
}

} // verus!
