use vstd::prelude::*;
use crate::marker::{Marker, ScanError};
use crate::token::TScalarStyle;

verus! {

/// What the parser hands to a receiver, one at a time and in document order.
#[derive(PartialEq, Eq, Debug)]
pub enum Event {
    StreamStart,
    StreamEnd,
    DocumentStart,
    DocumentEnd,
    /// text, style, anchor (always 0)
    Scalar(String, TScalarStyle, usize),
    /// anchor (always 0)
    SequenceStart(usize),
    SequenceEnd,
    /// anchor (always 0)
    MappingStart(usize),
    MappingEnd,
}

/// An event as a mathematical value: the text of a scalar is a sequence of characters.
pub enum EventView {
    StreamStart,
    StreamEnd,
    DocumentStart,
    DocumentEnd,
    Scalar(Seq<char>, TScalarStyle, usize),
    SequenceStart(usize),
    SequenceEnd,
    MappingStart(usize),
    MappingEnd,
}

impl View for Event {
    type V = EventView;

    open spec fn view(&self) -> EventView {
        match self {
            Event::StreamStart => EventView::StreamStart,
            Event::StreamEnd => EventView::StreamEnd,
            Event::DocumentStart => EventView::DocumentStart,
            Event::DocumentEnd => EventView::DocumentEnd,
            Event::Scalar(text, style, aid) => EventView::Scalar(text@, *style, *aid),
            Event::SequenceStart(aid) => EventView::SequenceStart(*aid),
            Event::SequenceEnd => EventView::SequenceEnd,
            Event::MappingStart(aid) => EventView::MappingStart(*aid),
            Event::MappingEnd => EventView::MappingEnd,
        }
    }
}

impl Clone for Event {
    fn clone(&self) -> (e: Event)
        ensures
            e == *self,
    {
        match self {
            Event::StreamStart => Event::StreamStart,
            Event::StreamEnd => Event::StreamEnd,
            Event::DocumentStart => Event::DocumentStart,
            Event::DocumentEnd => Event::DocumentEnd,
            Event::Scalar(text, style, aid) => Event::Scalar(text.clone(), *style, *aid),
            Event::SequenceStart(aid) => Event::SequenceStart(*aid),
            Event::SequenceEnd => Event::SequenceEnd,
            Event::MappingStart(aid) => Event::MappingStart(*aid),
            Event::MappingEnd => Event::MappingEnd,
        }
    }
}

impl Event {
    /// The scalar that stands for a key or a value that was left out.
    pub fn empty_scalar() -> (e: Event)
        ensures
            e@ == EventView::Scalar(Seq::empty(), TScalarStyle::Plain, 0),
    {
        Event::Scalar(String::new(), TScalarStyle::Plain, 0)
    }
}

/// The event begins a node: a scalar is a whole node, the two others open a container.
pub open spec fn starts_node(ev: EventView) -> bool {
    ev is Scalar || ev is SequenceStart || ev is MappingStart
}

/// What an open container waits for.
pub enum Slot {
    /// A sequence: its next item, or its end.
    Item,
    /// A mapping: its next key, or its end.
    Key,
    /// A mapping that has a key: the value.
    Value,
}

/// Where in the stream a receiver is: the events behind it were well nested,
/// and this is what they left open.
pub struct Nesting {
    /// A document has begun and not ended.
    pub in_document: bool,
    /// The root node of the document is complete.
    pub root_done: bool,
    /// The open containers, the outermost first.
    pub open: Seq<Slot>,
}

/// The place between documents.
pub open spec fn idle() -> Nesting {
    Nesting { in_document: false, root_done: false, open: Seq::empty() }
}

/// The place after one more node is complete.
pub open spec fn node_done(n: Nesting) -> Nesting {
    if n.open.len() == 0 {
        Nesting { root_done: true, ..n }
    } else {
        match n.open.last() {
            Slot::Item => n,
            Slot::Key => Nesting { open: n.open.drop_last().push(Slot::Value), ..n },
            Slot::Value => Nesting { open: n.open.drop_last().push(Slot::Key), ..n },
        }
    }
}

/// Whether the event may come next.  A mapping ends only where a key could
/// stand, so between its start and its end lie as many values as keys.
pub open spec fn permitted(n: Nesting, ev: EventView) -> bool {
    match ev {
        EventView::StreamStart | EventView::StreamEnd | EventView::DocumentStart => n == idle(),
        EventView::DocumentEnd => n.in_document && n.root_done && n.open.len() == 0,
        EventView::Scalar(..) | EventView::SequenceStart(_) | EventView::MappingStart(_) => {
            n.in_document && !n.root_done
        },
        EventView::SequenceEnd => n.in_document && !n.root_done && n.open.len() > 0
            && n.open.last() is Item,
        EventView::MappingEnd => n.in_document && !n.root_done && n.open.len() > 0
            && n.open.last() is Key,
    }
}

/// The place after the event.
pub open spec fn advance(n: Nesting, ev: EventView) -> Nesting {
    match ev {
        EventView::StreamStart | EventView::StreamEnd => n,
        EventView::DocumentStart => Nesting { in_document: true, ..n },
        EventView::DocumentEnd => idle(),
        EventView::Scalar(..) => node_done(n),
        EventView::SequenceStart(_) => Nesting { open: n.open.push(Slot::Item), ..n },
        EventView::MappingStart(_) => Nesting { open: n.open.push(Slot::Key), ..n },
        EventView::SequenceEnd | EventView::MappingEnd => node_done(
            Nesting { open: n.open.drop_last(), ..n },
        ),
    }
}

/// The place in the stream after the events `evs`, one after the other.
pub open spec fn advanced_all(n: Nesting, evs: Seq<EventView>) -> Nesting
    decreases evs.len(),
{
    if evs.len() == 0 {
        n
    } else {
        advance(advanced_all(n, evs.drop_last()), evs.last())
    }
}

/// Every event of `evs` is permitted where it comes.
pub open spec fn permitted_all(n: Nesting, evs: Seq<EventView>) -> bool
    decreases evs.len(),
{
    if evs.len() == 0 {
        true
    } else {
        permitted_all(n, evs.drop_last()) && permitted(
            advanced_all(n, evs.drop_last()),
            evs.last(),
        )
    }
}

/// The greatest number of containers that are open at once, from `n` through `evs`.
pub open spec fn peak(n: Nesting, evs: Seq<EventView>) -> nat
    decreases evs.len(),
{
    if evs.len() == 0 {
        n.open.len()
    } else {
        let before = peak(n, evs.drop_last());
        let now = advanced_all(n, evs).open.len();
        if before >= now {
            before
        } else {
            now
        }
    }
}

/// A consumer of events that also learns where in the text each event began.
///
/// The parser hands it a well-nested stream: an event only where `permitted`
/// allows it.  An implementation says, with `nesting`, where it stands, and
/// with `ready`, what else it needs to hold between events.
pub trait MarkedEventReceiver {
    /// Where in the stream the receiver stands.
    open spec fn nesting(&self) -> Nesting {
        idle()
    }

    /// What the receiver needs to hold between events.
    open spec fn ready(&self) -> bool {
        false
    }

    /// The events that were accepted so far, in order.
    open spec fn log(&self) -> Seq<EventView> {
        Seq::empty()
    }

    /// Whether the event `ev`, which began at `mark`, is refused after the
    /// events `log`, and with what error.
    open spec fn refusal(log: Seq<EventView>, ev: EventView, mark: Marker) -> Option<
        (Marker, Seq<char>),
    > {
        None
    }

    fn on_event(&mut self, ev: Event, mark: Marker) -> (r: Result<(), ScanError>)
        requires
            old(self).ready(),
            permitted(old(self).nesting(), ev@),
        ensures
            match Self::refusal(old(self).log(), ev@, mark) {
                None => r is Ok,
                Some(e) => r is Err && (r->Err_0.mark, r->Err_0.info@) == e,
            },
            r is Ok ==> final(self).ready() && final(self).nesting() == advance(
                old(self).nesting(),
                ev@,
            ) && final(self).log() == old(self).log().push(ev@),
    ;
}

/// A consumer of events that has no use for positions and never refuses an event.
pub trait EventReceiver {
    /// Where in the stream the receiver stands.
    open spec fn nesting(&self) -> Nesting {
        idle()
    }

    /// What the receiver needs to hold between events.
    open spec fn ready(&self) -> bool {
        false
    }

    /// The events that were received so far, in order.
    open spec fn log(&self) -> Seq<EventView> {
        Seq::empty()
    }

    fn on_event(&mut self, ev: Event)
        requires
            old(self).ready(),
            permitted(old(self).nesting(), ev@),
        ensures
            final(self).ready(),
            final(self).nesting() == advance(old(self).nesting(), ev@),
            final(self).log() == old(self).log().push(ev@),
    ;
}

/// Lets a receiver that has no use for positions stand where one with
/// positions is asked for.
pub struct Unmarked<R: EventReceiver> {
    pub inner: R,
}

impl<R: EventReceiver> MarkedEventReceiver for Unmarked<R> {
    open spec fn nesting(&self) -> Nesting {
        self.inner.nesting()
    }

    open spec fn ready(&self) -> bool {
        self.inner.ready()
    }

    open spec fn log(&self) -> Seq<EventView> {
        self.inner.log()
    }

    open spec fn refusal(log: Seq<EventView>, ev: EventView, mark: Marker) -> Option<
        (Marker, Seq<char>),
    > {
        None
    }

    fn on_event(&mut self, ev: Event, mark: Marker) -> (r: Result<(), ScanError>)
        ensures
            r is Ok,
    {
        self.inner.on_event(ev);
        Ok(())
    }
}

} // verus!
