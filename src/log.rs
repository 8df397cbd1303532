//! The movement log: finalized motion events in the order they ended.
use vstd::prelude::*;

verus! {

/// One finished recording session.
#[derive(Clone, Debug)]
pub struct MotionEvent {
    /// When the session started, in milliseconds since the Unix epoch.
    pub start_ms: i64,
    /// When the session stopped, in milliseconds since the Unix epoch.
    pub end_ms: i64,
    /// The name of the session's clip.
    pub clip: String,
}

pub struct MotionEventView {
    pub start_ms: i64,
    pub end_ms: i64,
    pub clip: Seq<char>,
}

impl View for MotionEvent {
    type V = MotionEventView;

    open spec fn view(&self) -> MotionEventView {
        MotionEventView { start_ms: self.start_ms, end_ms: self.end_ms, clip: self.clip@ }
    }
}

impl MotionEvent {
    pub fn new(start_ms: i64, end_ms: i64, clip: String) -> (r: Self)
        ensures
            r@ == (MotionEventView { start_ms, end_ms, clip: clip@ }),
    {
        MotionEvent { start_ms, end_ms, clip }
    }

    /// A copy of the event.
    pub fn duplicate(&self) -> (r: Self)
        ensures
            r@ == self@,
    {
        MotionEvent { start_ms: self.start_ms, end_ms: self.end_ms, clip: self.clip.clone() }
    }
}

/// The append-only list of finalized events; insertion order is
/// chronological order.
pub struct MovementLog {
    events: Vec<MotionEvent>,
}

impl View for MovementLog {
    type V = Seq<MotionEventView>;

    closed spec fn view(&self) -> Seq<MotionEventView> {
        self.events@.map_values(|e: MotionEvent| e@)
    }
}

/// The log after appending `es`, in order, to `log`.
pub open spec fn after_appends(log: Seq<MotionEventView>, es: Seq<MotionEventView>) -> Seq<
    MotionEventView,
>
    decreases es.len(),
{
    if es.len() == 0 {
        log
    } else {
        after_appends(log, es.drop_last()).push(es.last())
    }
}

/// Appending keeps every earlier event and the order of arrival: a log that
/// receives `es` one by one holds what it held before followed by `es`.
pub proof fn lemma_appends_keep_order(log: Seq<MotionEventView>, es: Seq<MotionEventView>)
    ensures
        after_appends(log, es) == log + es,
    decreases es.len(),
{
    if es.len() > 0 {
        lemma_appends_keep_order(log, es.drop_last());
        assert(log + es =~= (log + es.drop_last()).push(es.last()));
    }
}

impl MovementLog {
    /// An empty log.
    pub fn new() -> (r: Self)
        ensures
            r@ == Seq::<MotionEventView>::empty(),
    {
        let r = MovementLog { events: Vec::new() };
        assert(r@ =~= Seq::<MotionEventView>::empty());
        r
    }

    /// Appends a finalized event at the end of the log.
    pub fn append(&mut self, event: MotionEvent)
        ensures
            final(self)@ == old(self)@.push(event@),
    {
        self.events.push(event);
        assert(final(self)@ =~= old(self)@.push(event@));
    }

    /// The events, oldest first.
    pub fn events(&self) -> (r: &Vec<MotionEvent>)
        ensures
            r@.map_values(|e: MotionEvent| e@) == self@,
    {
        &self.events
    }

    pub fn len(&self) -> (r: usize)
        ensures
            r == self@.len(),
    {
        self.events.len()
    }
}

} // verus!
