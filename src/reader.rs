//! The reader side of a run: raw reads in, reader events out, ending with
//! exactly one end marker.

use vstd::prelude::*;
use crate::control::ReaderEvent;
use crate::reassembler::{ByteReassembler, end_marker, split_complete};

verus! {

/// The event that carries `text`, if there is any text.
pub fn chunk_event(text: String) -> (r: Option<ReaderEvent>)
    ensures
        text@.len() == 0 ==> r is None,
        text@.len() > 0 ==> (r matches Some(ReaderEvent::Chunk(t)) && t@ == text@),
{
    if text.as_str().is_empty() {
        None
    } else {
        Some(ReaderEvent::Chunk(text))
    }
}

/// Turns the terminal's raw output into reader events.
pub struct ReaderWorker {
    reassembler: ByteReassembler,
}

impl View for ReaderWorker {
    type V = Seq<u8>;

    /// The bytes held back for the next read.
    closed spec fn view(&self) -> Seq<u8> {
        self.reassembler@
    }
}

impl ReaderWorker {
    pub closed spec fn wf(&self) -> bool {
        self.reassembler.wf()
    }

    pub fn new() -> (r: ReaderWorker)
        ensures
            r@ == Seq::<u8>::empty(),
            r.wf(),
    {
        ReaderWorker { reassembler: ByteReassembler::new() }
    }

    /// The event for one read: the text of the sequences it completes, if any.
    pub fn on_read(&mut self, bytes: &[u8]) -> (r: Option<ReaderEvent>)
        requires
            old(self).wf(),
        ensures
            final(self).wf(),
            final(self)@ == split_complete(old(self)@ + bytes@).1,
            split_complete(old(self)@ + bytes@).0.len() == 0 ==> r is None,
            split_complete(old(self)@ + bytes@).0.len() > 0 ==> (r matches Some(
                ReaderEvent::Chunk(t),
            ) && t@ == split_complete(old(self)@ + bytes@).0),
    {
        let text = self.reassembler.feed(bytes);
        chunk_event(text)
    }

    /// The events once the output has ended or a read failed: the text of
    /// what was held back, if any, then the end marker.
    pub fn on_end(&mut self) -> (r: Vec<ReaderEvent>)
        requires
            old(self).wf(),
        ensures
            final(self)@ == Seq::<u8>::empty(),
            old(self)@.len() == 0 ==> r@.len() == 1,
            old(self)@.len() > 0 ==> r@.len() == 2,
            old(self)@.len() > 0 ==> (r@[0] matches ReaderEvent::Chunk(t) && t@ == end_marker(
                old(self)@,
            )),
            r@.last() is Done,
    {
        let text = self.reassembler.finish();
        let mut events: Vec<ReaderEvent> = Vec::new();
        match chunk_event(text) {
            Some(e) => events.push(e),
            None => {},
        }
        events.push(ReaderEvent::Done);
        events
    }
}

} // verus!
