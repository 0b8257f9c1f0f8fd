//! Events that the terminal core reports while it takes input.
use crate::ghostty::events::{title_from_bytes, title_text};
use vstd::prelude::*;

verus! {

/// Something that happened while the terminal took input.
#[derive(Debug)]
pub enum VtEvent {
    Bell,
    TitleChanged(String),
    DeviceResponse(Vec<u8>),
}

/// An event with its text and bytes as sequences.
pub enum EventView {
    Bell,
    TitleChanged(Seq<char>),
    DeviceResponse(Seq<u8>),
}

impl View for VtEvent {
    type V = EventView;

    open spec fn view(&self) -> EventView {
        match self {
            VtEvent::Bell => EventView::Bell,
            VtEvent::TitleChanged(title) => EventView::TitleChanged(title@),
            VtEvent::DeviceResponse(bytes) => EventView::DeviceResponse(bytes@),
        }
    }
}

/// Events in the order in which they happened.
pub struct EventQueue {
    events: Vec<VtEvent>,
}

/// The events of a list as their views.
pub open spec fn views(events: Seq<VtEvent>) -> Seq<EventView> {
    events.map_values(|event: VtEvent| event@)
}

impl View for EventQueue {
    type V = Seq<EventView>;

    closed spec fn view(&self) -> Seq<EventView> {
        views(self.events@)
    }
}

impl EventQueue {
    /// An empty queue.
    pub fn new() -> (queue: EventQueue)
        ensures
            queue@ == Seq::<EventView>::empty(),
    {
        let queue = EventQueue { events: Vec::new() };
        assert(queue@ =~= Seq::empty());
        queue
    }

    /// Reports the bell.
    pub fn bell(&mut self)
        ensures
            final(self)@ == old(self)@.push(EventView::Bell),
    {
        self.events.push(VtEvent::Bell);
        assert(self@ =~= old(self)@.push(EventView::Bell));
    }

    /// Reports a title; no bytes are an empty title.
    pub fn title(&mut self, bytes: &[u8])
        ensures
            final(self)@ == old(self)@.push(EventView::TitleChanged(title_text(bytes@))),
    {
        let title = title_from_bytes(bytes);
        self.events.push(VtEvent::TitleChanged(title));
        assert(self@ =~= old(self)@.push(EventView::TitleChanged(title_text(bytes@))));
    }

    /// Reports an answer of the terminal to the program; an empty one is none.
    pub fn response(&mut self, bytes: &[u8])
        ensures
            final(self)@ == if bytes@.len() == 0 {
                old(self)@
            } else {
                old(self)@.push(EventView::DeviceResponse(bytes@))
            },
    {
        if bytes.len() == 0 {
            return;
        }
        let mut copy: Vec<u8> = Vec::new();
        let mut i: usize = 0;
        while i < bytes.len()
            invariant
                i <= bytes.len(),
                copy@ == bytes@.take(i as int),
            decreases bytes.len() - i,
        {
            copy.push(bytes[i]);
            assert(bytes@.take(i + 1) =~= bytes@.take(i as int).push(bytes@[i as int]));
            i += 1;
        }
        assert(copy@ =~= bytes@);
        self.events.push(VtEvent::DeviceResponse(copy));
        assert(self@ =~= old(self)@.push(EventView::DeviceResponse(bytes@)));
    }

    /// Moves all events to `buf`, in place of what it held, and leaves the
    /// queue empty.
    pub fn drain_events(&mut self, buf: &mut Vec<VtEvent>)
        ensures
            views(final(buf)@) == old(self)@,
            final(self)@ == Seq::<EventView>::empty(),
    {
        buf.clear();
        std::mem::swap(&mut self.events, buf);
        assert(self@ =~= Seq::empty());
    }
}

} // verus!
