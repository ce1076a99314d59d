use crate::datetime::{parse_spec, DateTime};
use crate::derive::{
    clip_spans, finish, finish_spans, overlay_spans, sort_spans, sorted_by_start, spans_of_layer,
    stacked, Span,
};
use crate::error::AvailabilityError;
use crate::frame::Frame;
use crate::rule::{payload_copy, Rule, BASE_RULE_DAY_END, BASE_RULE_DAY_START};
use vstd::prelude::*;

verus! {

/// The base rule's shape: absolute, off, no payload, over the base span.
pub open spec fn is_base_rule<T>(r: Rule<T>) -> bool {
    &&& r.start == (DateTime { day: BASE_RULE_DAY_START, secs: 0 })
    &&& r.end == (DateTime { day: BASE_RULE_DAY_END, secs: 0 })
    &&& r.weekdays.is_none()
    &&& r.off
    &&& r.payload.is_none()
}

/// The error that adding `rule` to `layer` meets, looking at the existing
/// rules from position `k` on in insertion order: the first one that
/// overlaps the new rule refuses it if it is absolute, or if it is relative
/// and shares a weekday with it.
pub open spec fn conflict_from<T>(layer: Seq<Rule<T>>, rule: Rule<T>, k: int) -> Option<
    AvailabilityError,
>
    decreases layer.len() - k,
{
    if k < 0 || k >= layer.len() {
        None
    } else if layer[k].overlaps(rule) && layer[k].absolute() {
        Some(AvailabilityError::AbsoluteConflict)
    } else if layer[k].overlaps(rule) && layer[k].shares_weekday(rule) {
        Some(AvailabilityError::WeekdayConflict)
    } else {
        conflict_from(layer, rule, k + 1)
    }
}

/// The layers, with empty layers appended so that priority `p` exists.
pub open spec fn padded<T>(layers: Seq<Seq<Rule<T>>>, p: int) -> Seq<Seq<Rule<T>>> {
    if p < layers.len() {
        layers
    } else {
        layers + Seq::new((p + 1 - layers.len()) as nat, |_i: int| Seq::<Rule<T>>::empty())
    }
}

/// The position of the first rule of `layer`, from `k` on, active at `t`.
pub open spec fn first_active<T>(layer: Seq<Rule<T>>, t: DateTime, k: int) -> Option<int>
    decreases layer.len() - k,
{
    if k < 0 || k >= layer.len() {
        None
    } else if layer[k].active(t) {
        Some(k)
    } else {
        first_active(layer, t, k + 1)
    }
}

/// The position of the last of the first `n` frames whose interval holds `t`.
pub open spec fn last_containing<T>(frames: Seq<Frame<T>>, t: DateTime, n: int) -> Option<int>
    decreases n,
{
    if n <= 0 || n > frames.len() {
        None
    } else if frames[n - 1].start.not_after(t) && t.before(frames[n - 1].end) {
        Some(n - 1)
    } else {
        last_containing(frames, t, n - 1)
    }
}

/// The payload of the rule a span is tagged with.
pub open spec fn tag_payload<T>(layers: Seq<Seq<Rule<T>>>, s: Span) -> Option<T> {
    if s.prio < layers.len() && s.idx < layers[s.prio as int].len() {
        layers[s.prio as int][s.idx as int].payload
    } else {
        None
    }
}

/// `f` is the frame of span `s`: same interval and status, payload cloned
/// from the rule the span is tagged with.
pub open spec fn frame_of<T: Clone>(layers: Seq<Seq<Rule<T>>>, s: Span, f: Frame<T>) -> bool {
    &&& f.start == s.start
    &&& f.end == s.end
    &&& f.off == s.off
    &&& payload_copy(tag_payload(layers, s), f.payload)
}

/// `frames` are the frames of `spans`, one for one.
pub open spec fn frames_of<T: Clone>(
    layers: Seq<Seq<Rule<T>>>,
    spans: Seq<Span>,
    frames: Seq<Frame<T>>,
) -> bool {
    &&& frames.len() == spans.len()
    &&& forall|k: int| 0 <= k < spans.len() ==> frame_of(layers, spans[k], #[trigger] frames[k])
}

/// The spans that the full derivation yields: every layer, base included,
/// laid under the layers above it, then sorted by start.
pub open spec fn derive_all<T>(layers: Seq<Seq<Rule<T>>>) -> Seq<Span> {
    sorted_by_start(stacked(layers, 0, None))
}

/// The spans that the derivation over the window `[start, end)` yields.
pub open spec fn derive_in_range<T>(layers: Seq<Seq<Rule<T>>>, start: DateTime, end: DateTime) -> Seq<
    Span,
> {
    finish(stacked(layers, 1, Some((start, end))), start, end)
}

/// The position of the first rule of `layer` active at `t`.
fn find_active<T>(layer: &Vec<Rule<T>>, t: DateTime) -> (r: Option<usize>)
    ensures
        r.is_some() == first_active(layer@, t, 0).is_some(),
        r.is_some() ==> r.unwrap() < layer@.len() && first_active(layer@, t, 0) == Some(
            r.unwrap() as int,
        ),
{
    let mut k: usize = 0;
    while k < layer.len()
        invariant
            k <= layer@.len(),
            first_active(layer@, t, 0) == first_active(layer@, t, k as int),
        decreases layer@.len() - k,
    {
        if layer[k].is_active(t) {
            return Some(k);
        }
        k = k + 1;
    }
    None
}

/// Rules in priority layers, and the frames last derived from them.
///
/// Layer 0 holds the base rule alone and cannot be changed. A higher layer
/// overrides the lower ones wherever their rules overlap in time.
pub struct Availability<T> {
    pub rules: Vec<Vec<Rule<T>>>,
    pub frames: Vec<Frame<T>>,
}

impl<T: Clone> Availability<T> {
    /// The rules, layer by layer.
    pub open spec fn layers(self) -> Seq<Seq<Rule<T>>> {
        self.rules@.map_values(|l: Vec<Rule<T>>| l@)
    }

    pub open spec fn wf(self) -> bool {
        &&& self.layers().len() >= 1
        &&& self.layers()[0].len() == 1
        &&& is_base_rule(self.layers()[0][0])
        &&& forall|p: int, i: int|
            0 <= p < self.layers().len() && 0 <= i < self.layers()[p].len()
                ==> (#[trigger] self.layers()[p][i]).wf()
    }

    /// A table holding the base rule alone, and no frame.
    pub fn new() -> (r: Availability<T>)
        ensures
            r.wf(),
            r.layers().len() == 1,
            r.frames@.len() == 0,
    {
        let mut base_layer: Vec<Rule<T>> = Vec::new();
        base_layer.push(Rule::base_rule());
        let mut rules: Vec<Vec<Rule<T>>> = Vec::new();
        rules.push(base_layer);
        let r = Availability { rules, frames: Vec::new() };
        assert(r.layers()[0] == r.rules@[0]@);
        r
    }

    /// Adds `rule` to the layer of `priority`, creating empty layers up to
    /// it as needed. Refused at priority 0, and where the rule conflicts with
    /// an existing rule of that layer (see `conflict_from`); a refusal leaves
    /// the table unchanged.
    pub fn add_rule(&mut self, rule: Rule<T>, priority: usize) -> (r: Result<(), AvailabilityError>)
        requires
            old(self).wf(),
            rule.wf(),
        ensures
            final(self).wf(),
            final(self).frames == old(self).frames,
            priority == 0 ==> r == Err::<(), AvailabilityError>(AvailabilityError::ReservedPriority)
                && final(self).layers() == old(self).layers(),
            priority > 0 ==> ({
                let layer = if priority < old(self).layers().len() {
                    old(self).layers()[priority as int]
                } else {
                    Seq::empty()
                };
                match conflict_from(layer, rule, 0) {
                    Some(e) => r == Err::<(), AvailabilityError>(e) && final(self).layers()
                        == old(self).layers(),
                    None => r == Ok::<(), AvailabilityError>(()) && final(self).layers() == padded(
                        old(self).layers(),
                        priority as int,
                    ).update(priority as int, layer.push(rule)),
                }
            }),
    {
        if priority == 0 {
            return Err(AvailabilityError::ReservedPriority);
        }
        let ghost old_layers = self.layers();
        let ghost layer = if priority < old_layers.len() {
            old_layers[priority as int]
        } else {
            Seq::<Rule<T>>::empty()
        };
        if priority < self.rules.len() {
            let mut k: usize = 0;
            while k < self.rules[priority].len()
                invariant
                    0 < priority < self.rules@.len(),
                    self.wf(),
                    self.rules == old(self).rules,
                    self.frames == old(self).frames,
                    self.layers() == old_layers,
                    layer == old_layers[priority as int],
                    k <= layer.len(),
                    conflict_from(layer, rule, 0) == conflict_from(layer, rule, k as int),
                decreases layer.len() - k,
            {
                let existing = &self.rules[priority][k];
                assert(*existing == layer[k as int]);
                if existing.datetime_overlaps_with(&rule) {
                    if existing.is_absolute() {
                        assert(conflict_from(layer, rule, k as int) == Some(
                            AvailabilityError::AbsoluteConflict,
                        ));
                        return Err(AvailabilityError::AbsoluteConflict);
                    }
                    if existing.has_weekdays_in(&rule) {
                        assert(conflict_from(layer, rule, k as int) == Some(
                            AvailabilityError::WeekdayConflict,
                        ));
                        return Err(AvailabilityError::WeekdayConflict);
                    }
                }
                k = k + 1;
            }
        }
        if self.rules.len() <= priority {
            while self.rules.len() <= priority
                invariant
                    priority > 0,
                    old_layers.len() >= 1,
                    old_layers.len() <= priority,
                    layer == Seq::<Rule<T>>::empty(),
                    self.layers().len() >= old_layers.len(),
                    self.layers().len() <= priority + 1,
                    self.layers() == padded(old_layers, (self.layers().len() - 1) as int),
                    self.frames == old(self).frames,
                decreases priority + 1 - self.rules@.len(),
            {
                let ghost before = self.layers();
                self.rules.push(Vec::new());
                assert(self.layers() =~= before.push(Seq::empty()));
                assert(padded(old_layers, (self.layers().len() - 1) as int) =~= before.push(
                    Seq::empty(),
                ));
            }
        }
        assert(self.layers() =~= padded(old_layers, priority as int));
        let mut target: Vec<Rule<T>> = Vec::new();
        assert(self.rules@[priority as int]@ == self.layers()[priority as int]);
        self.rules.set_and_swap(priority, &mut target);
        assert(target@ == layer);
        target.push(rule);
        self.rules.set_and_swap(priority, &mut target);
        assert(self.layers() =~= padded(old_layers, priority as int).update(
            priority as int,
            layer.push(rule),
        ));
        Ok(())
    }

    /// The frames last derived.
    pub fn get_frames(&self) -> (r: &Vec<Frame<T>>)
        ensures
            r == &self.frames,
    {
        &self.frames
    }

    /// Removes and returns the rule at `rule_index` in the layer of
    /// `priority`. When the highest layer is left empty, it is dropped.
    pub fn remove_rule_by_index(&mut self, priority: usize, rule_index: usize) -> (r: Result<
        Rule<T>,
        AvailabilityError,
    >)
        requires
            old(self).wf(),
        ensures
            final(self).wf(),
            final(self).frames == old(self).frames,
            ({
                let layers = old(self).layers();
                if priority >= layers.len() {
                    r == Err::<Rule<T>, AvailabilityError>(AvailabilityError::PriorityNotFound)
                        && final(self).layers() == layers
                } else if priority == 0 {
                    r == Err::<Rule<T>, AvailabilityError>(AvailabilityError::ReservedPriority)
                        && final(self).layers() == layers
                } else if rule_index >= layers[priority as int].len() {
                    r == Err::<Rule<T>, AvailabilityError>(AvailabilityError::IndexNotFound)
                        && final(self).layers() == layers
                } else {
                    &&& r == Ok::<Rule<T>, AvailabilityError>(
                        layers[priority as int][rule_index as int],
                    )
                    &&& final(self).layers() == if layers[priority as int].len() == 1 && priority
                        == layers.len() - 1 {
                        layers.drop_last()
                    } else {
                        layers.update(
                            priority as int,
                            layers[priority as int].remove(rule_index as int),
                        )
                    }
                }
            }),
    {
        let ghost layers = self.layers();
        if priority >= self.rules.len() {
            return Err(AvailabilityError::PriorityNotFound);
        }
        if priority == 0 {
            return Err(AvailabilityError::ReservedPriority);
        }
        if rule_index >= self.rules[priority].len() {
            return Err(AvailabilityError::IndexNotFound);
        }
        let mut target: Vec<Rule<T>> = Vec::new();
        assert(self.rules@[priority as int]@ == layers[priority as int]);
        self.rules.set_and_swap(priority, &mut target);
        assert(target@ == layers[priority as int]);
        let removed = target.remove(rule_index);
        let now_empty = target.len() == 0;
        self.rules.set_and_swap(priority, &mut target);
        assert(self.layers() =~= layers.update(
            priority as int,
            layers[priority as int].remove(rule_index as int),
        ));
        if now_empty && self.rules.len() - 1 == priority {
            self.rules.pop();
            assert(self.layers() =~= layers.drop_last());
        }
        proof {
            let nl = self.layers();
            assert forall|p: int, i: int|
                0 <= p < nl.len() && 0 <= i < nl[p].len() implies (#[trigger] nl[p][i]).wf() by {
                if p == priority {
                    let old_layer = layers[priority as int];
                    if i < rule_index {
                        assert(nl[p][i] == old_layer[i]);
                    } else {
                        assert(nl[p][i] == old_layer[i + 1]);
                    }
                } else {
                    assert(nl[p] == layers[p]);
                }
            }
        }
        Ok(removed)
    }

    /// Removes and returns the first rule, in insertion order, of the layer
    /// of `priority` that is active at `datetime`; `None` at priority 0, for
    /// a missing layer, or when no rule there is active.
    pub fn remove_rule_by_datetime(&mut self, priority: usize, datetime: DateTime) -> (r: Option<
        Rule<T>,
    >)
        requires
            old(self).wf(),
        ensures
            final(self).wf(),
            final(self).frames == old(self).frames,
            ({
                let layers = old(self).layers();
                if priority == 0 || priority >= layers.len() {
                    r.is_none() && final(self).layers() == layers
                } else {
                    match first_active(layers[priority as int], datetime, 0) {
                        None => r.is_none() && final(self).layers() == layers,
                        Some(k) => r == Some(layers[priority as int][k]) && final(self).layers()
                            == layers.update(priority as int, layers[priority as int].remove(k)),
                    }
                }
            }),
    {
        let ghost layers = self.layers();
        if priority >= self.rules.len() {
            return None;
        }
        if priority == 0 {
            return None;
        }
        let ghost layer = layers[priority as int];
        assert(self.rules@[priority as int]@ == layer);
        let k = match find_active(&self.rules[priority], datetime) {
            Some(k) => k,
            None => return None,
        };
        let mut target: Vec<Rule<T>> = Vec::new();
        assert(self.rules@[priority as int]@ == layer);
        self.rules.set_and_swap(priority, &mut target);
        assert(target@ == layer);
        let removed = target.remove(k);
        self.rules.set_and_swap(priority, &mut target);
        assert(self.layers() =~= layers.update(priority as int, layer.remove(k as int)));
        proof {
            let nl = self.layers();
            assert forall|p: int, i: int|
                0 <= p < nl.len() && 0 <= i < nl[p].len() implies (#[trigger] nl[p][i]).wf() by {
                if p == priority {
                    if i < k {
                        assert(nl[p][i] == layer[i]);
                    } else {
                        assert(nl[p][i] == layer[i + 1]);
                    }
                } else {
                    assert(nl[p] == layers[p]);
                }
            }
        }
        Some(removed)
    }

    /// As `remove_rule_by_datetime`, the date and time written as
    /// `YYYY-MM-DD HH:MM:SS`; `None` if the text does not parse.
    pub fn remove_rule_by_str(&mut self, priority: usize, datetime: &str) -> (r: Option<Rule<T>>)
        requires
            old(self).wf(),
        ensures
            final(self).wf(),
            final(self).frames == old(self).frames,
            ({
                let layers = old(self).layers();
                match parse_spec(datetime@) {
                    None => r.is_none() && final(self).layers() == layers,
                    Some(t) => if priority == 0 || priority >= layers.len() {
                        r.is_none() && final(self).layers() == layers
                    } else {
                        match first_active(layers[priority as int], t, 0) {
                            None => r.is_none() && final(self).layers() == layers,
                            Some(k) => r == Some(layers[priority as int][k]) && final(self).layers()
                                == layers.update(
                                priority as int,
                                layers[priority as int].remove(k),
                            ),
                        }
                    },
                }
            }),
    {
        match DateTime::parse(datetime) {
            Some(t) => self.remove_rule_by_datetime(priority, t),
            None => None,
        }
    }

    /// The spans of the layers from the highest down to `lowest`, each layer
    /// laid under those above it, clipped to the window if there is one.
    fn stack_layers(&self, lowest: usize, window: Option<(DateTime, DateTime)>) -> (r: Vec<Span>)
        requires
            self.wf(),
        ensures
            r@ == stacked(self.layers(), lowest as int, window),
    {
        let mut acc: Vec<Span> = Vec::new();
        if lowest >= self.rules.len() {
            return acc;
        }
        let mut p: usize = self.rules.len();
        while p > lowest
            invariant
                self.wf(),
                p <= self.layers().len(),
                p >= lowest,
                acc@ == stacked(self.layers(), p as int, window),
            decreases p,
        {
            p = p - 1;
            let layer = &self.rules[p];
            assert(layer@ == self.layers()[p as int]);
            let spans = spans_of_layer(layer, p);
            let contribution = match window {
                Some((start, end)) => clip_spans(&spans, start, end),
                None => spans,
            };
            acc = overlay_spans(acc, contribution);
        }
        acc
    }

    /// The frames of the given spans, payloads cloned from their rules.
    fn frames_from(&self, spans: &Vec<Span>) -> (r: Vec<Frame<T>>)
        ensures
            frames_of(self.layers(), spans@, r@),
    {
        let mut out: Vec<Frame<T>> = Vec::new();
        let mut k: usize = 0;
        while k < spans.len()
            invariant
                k <= spans@.len(),
                out@.len() == k,
                forall|m: int| 0 <= m < k ==> frame_of(self.layers(), spans@[m], #[trigger] out@[m]),
            decreases spans@.len() - k,
        {
            let s = spans[k];
            let payload = if s.prio < self.rules.len() && s.idx < self.rules[s.prio].len() {
                self.rules[s.prio][s.idx].payload.clone()
            } else {
                None
            };
            out.push(Frame::new(s.start, s.end, s.off, payload));
            k = k + 1;
        }
        out
    }

    /// Derives the frames of all time from every layer, the base rule's
    /// included: each layer is split into single-day pieces, and its pieces
    /// are laid under those of the layers above it; the result is sorted by start.
    pub fn to_frames(&mut self)
        requires
            old(self).wf(),
        ensures
            final(self).rules == old(self).rules,
            frames_of(old(self).layers(), derive_all(old(self).layers()), final(self).frames@),
    {
        let stackedv = self.stack_layers(0, None);
        let sorted = sort_spans(&stackedv);
        self.frames = self.frames_from(&sorted);
    }

    /// Derives the frames of the window `[start, end)`: the pieces of the
    /// layers above the base are clipped to the window and laid under those
    /// of higher layers; gaps are filled with off frames without payload, and
    /// frames that last no time are dropped.
    pub fn to_frames_in_range(&mut self, start: DateTime, end: DateTime)
        requires
            old(self).wf(),
        ensures
            final(self).rules == old(self).rules,
            frames_of(
                old(self).layers(),
                derive_in_range(old(self).layers(), start, end),
                final(self).frames@,
            ),
    {
        let stackedv = self.stack_layers(1, Some((start, end)));
        let spans = finish_spans(&stackedv, start, end);
        self.frames = self.frames_from(&spans);
    }

    /// As `to_frames_in_range`, the window's ends written as
    /// `YYYY-MM-DD HH:MM:SS`; nothing changes if either does not parse.
    pub fn to_frames_in_range_str(&mut self, start: &str, end: &str)
        requires
            old(self).wf(),
        ensures
            final(self).rules == old(self).rules,
            match (parse_spec(start@), parse_spec(end@)) {
                (Some(s), Some(e)) => frames_of(
                    old(self).layers(),
                    derive_in_range(old(self).layers(), s, e),
                    final(self).frames@,
                ),
                _ => final(self).frames == old(self).frames,
            },
    {
        let parsed_start = DateTime::parse(start);
        let parsed_end = DateTime::parse(end);
        match (parsed_start, parsed_end) {
            (Some(s), Some(e)) => self.to_frames_in_range(s, e),
            _ => {},
        }
    }

    /// A clone of the last derived frame whose interval holds `datetime`.
    pub fn get_frame(&self, datetime: DateTime) -> (r: Option<Frame<T>>)
        ensures
            match last_containing(self.frames@, datetime, self.frames@.len() as int) {
                None => r.is_none(),
                Some(k) => r.is_some() && r.unwrap().start == self.frames@[k].start
                    && r.unwrap().end == self.frames@[k].end && r.unwrap().off
                    == self.frames@[k].off && payload_copy(self.frames@[k].payload, r.unwrap().payload),
            },
    {
        let mut k: usize = self.frames.len();
        while k > 0
            invariant
                k <= self.frames@.len(),
                last_containing(self.frames@, datetime, self.frames@.len() as int)
                    == last_containing(self.frames@, datetime, k as int),
            decreases k,
        {
            let frame = &self.frames[k - 1];
            if !datetime.is_before(&frame.start) && datetime.is_before(&frame.end) {
                return Some(
                    Frame::new(frame.start, frame.end, frame.off, frame.payload.clone()),
                );
            }
            k = k - 1;
        }
        None
    }

    /// As `get_frame`, the date and time written as `YYYY-MM-DD HH:MM:SS`;
    /// `None` if the text does not parse.
    pub fn get_frame_from_str(&self, datetime: &str) -> (r: Option<Frame<T>>)
        ensures
            match parse_spec(datetime@) {
                None => r.is_none(),
                Some(t) => match last_containing(self.frames@, t, self.frames@.len() as int) {
                    None => r.is_none(),
                    Some(k) => r.is_some() && r.unwrap().start == self.frames@[k].start
                        && r.unwrap().end == self.frames@[k].end && r.unwrap().off
                        == self.frames@[k].off && payload_copy(
                        self.frames@[k].payload,
                        r.unwrap().payload,
                    ),
                },
            },
    {
        match DateTime::parse(datetime) {
            Some(t) => self.get_frame(t),
            None => None,
        }
    }

    /// True if a derived frame holds `datetime` and the last such frame is on.
    pub fn is_open_at(&self, datetime: DateTime) -> (r: bool)
        ensures
            r == match last_containing(self.frames@, datetime, self.frames@.len() as int) {
                None => false,
                Some(k) => !self.frames@[k].off,
            },
    {
        match self.get_frame(datetime) {
            Some(frame) => !frame.off,
            None => false,
        }
    }

    /// A clone of the payload of the last derived frame that holds `datetime`;
    /// `None` if no frame holds it.
    pub fn payload_at(&self, datetime: DateTime) -> (r: Option<T>)
        ensures
            match last_containing(self.frames@, datetime, self.frames@.len() as int) {
                None => r.is_none(),
                Some(k) => payload_copy(self.frames@[k].payload, r),
            },
    {
        match self.get_frame(datetime) {
            Some(frame) => frame.payload,
            None => None,
        }
    }

    /// The frames last derived.
    pub fn frames(&self) -> (r: &Vec<Frame<T>>)
        ensures
            r == &self.frames,
    {
        &self.frames
    }

    /// Drops the derived frames.
    pub fn clear_frames(&mut self)
        ensures
            final(self).rules == old(self).rules,
            final(self).frames@.len() == 0,
    {
        self.frames.clear();
    }
}

} // verus!
