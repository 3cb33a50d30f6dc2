use vstd::prelude::*;

verus! {

/// Once more than this many entries wait, they are written at once.
pub const FLUSH_THRESHOLD: usize = 100;

/// Entries to write together, each with the confirmation owed to its sender.
pub struct Batch<C> {
    pub entries: Vec<Vec<u8>>,
    pub confirms: Vec<C>,
}

/// The batching decisions of the log writer: entries are buffered as they
/// arrive and written in batches, when the buffer grows past
/// `FLUSH_THRESHOLD`, on each tick of the clock if any wait, and when the
/// log is closed. `C` is whatever the caller uses to confirm an entry.
pub struct WalBatcher<C> {
    entries: Vec<Vec<u8>>,
    confirms: Vec<C>,
}

impl<C> WalBatcher<C> {
    /// The entries waiting to be written, oldest first.
    pub closed spec fn buffered(&self) -> Seq<Vec<u8>> {
        self.entries@
    }

    /// The confirmations owed for the waiting entries, in the same order.
    pub closed spec fn owed(&self) -> Seq<C> {
        self.confirms@
    }

    /// One confirmation per entry, and no more than `FLUSH_THRESHOLD` waiting.
    pub closed spec fn wf(&self) -> bool {
        &&& self.entries@.len() == self.confirms@.len()
        &&& self.entries@.len() <= FLUSH_THRESHOLD
    }

    pub fn new() -> (b: Self)
        ensures
            b.wf(),
            b.buffered() == Seq::<Vec<u8>>::empty(),
            b.owed() == Seq::<C>::empty(),
    {
        WalBatcher { entries: Vec::new(), confirms: Vec::new() }
    }

    fn take_all(&mut self) -> (b: Batch<C>)
        ensures
            b.entries@ == old(self).entries@,
            b.confirms@ == old(self).confirms@,
            final(self).entries@ == Seq::<Vec<u8>>::empty(),
            final(self).confirms@ == Seq::<C>::empty(),
    {
        let mut entries: Vec<Vec<u8>> = Vec::new();
        let mut confirms: Vec<C> = Vec::new();
        std::mem::swap(&mut entries, &mut self.entries);
        std::mem::swap(&mut confirms, &mut self.confirms);
        Batch { entries, confirms }
    }

    /// An entry arrived. It joins the buffer; if more than `FLUSH_THRESHOLD`
    /// now wait, all of them are handed out to be written, oldest first.
    pub fn on_message(&mut self, entry: Vec<u8>, confirm: C) -> (r: Option<Batch<C>>)
        requires
            old(self).wf(),
        ensures
            final(self).wf(),
            old(self).buffered().len() + 1 > FLUSH_THRESHOLD ==> {
                &&& r matches Some(b)
                &&& b.entries@ == old(self).buffered().push(entry)
                &&& b.confirms@ == old(self).owed().push(confirm)
                &&& final(self).buffered() == Seq::<Vec<u8>>::empty()
                &&& final(self).owed() == Seq::<C>::empty()
            },
            old(self).buffered().len() + 1 <= FLUSH_THRESHOLD ==> {
                &&& r is None
                &&& final(self).buffered() == old(self).buffered().push(entry)
                &&& final(self).owed() == old(self).owed().push(confirm)
            },
    {
        self.entries.push(entry);
        self.confirms.push(confirm);
        if self.entries.len() > FLUSH_THRESHOLD {
            Some(self.take_all())
        } else {
            None
        }
    }

    /// The clock ticked: whatever waits is handed out to be written.
    pub fn on_tick(&mut self) -> (r: Option<Batch<C>>)
        requires
            old(self).wf(),
        ensures
            final(self).wf(),
            final(self).buffered() == Seq::<Vec<u8>>::empty(),
            final(self).owed() == Seq::<C>::empty(),
            old(self).buffered().len() == 0 ==> r is None,
            old(self).buffered().len() > 0 ==> {
                &&& r matches Some(b)
                &&& b.entries@ == old(self).buffered()
                &&& b.confirms@ == old(self).owed()
            },
    {
        if self.entries.len() == 0 {
            None
        } else {
            Some(self.take_all())
        }
    }

    /// The log is closing: whatever waits is handed out for a last write.
    pub fn on_close(&mut self) -> (b: Batch<C>)
        requires
            old(self).wf(),
        ensures
            final(self).wf(),
            b.entries@ == old(self).buffered(),
            b.confirms@ == old(self).owed(),
            final(self).buffered() == Seq::<Vec<u8>>::empty(),
            final(self).owed() == Seq::<C>::empty(),
    {
        self.take_all()
    }
}

} // verus!
