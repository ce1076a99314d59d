use crate::datetime::DateTime;
use crate::rule::payload_copy;
use vstd::prelude::*;

verus! {

/// A derived interval `[start, end)` with its on/off status and payload.
#[derive(Clone, Debug)]
pub struct Frame<T> {
    pub start: DateTime,
    pub end: DateTime,
    pub off: bool,
    pub payload: Option<T>,
}

impl<T> Frame<T> {
    pub(crate) fn new(start: DateTime, end: DateTime, off: bool, payload: Option<T>) -> (r: Frame<T>)
        ensures
            r == (Frame { start, end, off, payload }),
    {
        Frame { start, end, off, payload }
    }

    pub fn start_datetime(&self) -> (r: DateTime)
        ensures
            r == self.start,
    {
        self.start
    }

    pub fn end_datetime(&self) -> (r: DateTime)
        ensures
            r == self.end,
    {
        self.end
    }

    pub fn is_on(&self) -> (r: bool)
        ensures
            r == !self.off,
    {
        !self.off
    }

    pub fn is_off(&self) -> (r: bool)
        ensures
            r == self.off,
    {
        self.off
    }

    /// Whole seconds from start to end; the leap second 23:59:60 and the
    /// next midnight are the same instant.
    pub fn duration(&self) -> (r: i64)
        ensures
            r == self.end.instant() - self.start.instant(),
    {
        self.end.seconds_since(&self.start)
    }
}

impl<T: Clone> Frame<T> {
    /// A clone of the payload.
    pub fn payload(&self) -> (r: Option<T>)
        ensures
            payload_copy(self.payload, r),
    {
        self.payload.clone()
    }
}

} // verus!
