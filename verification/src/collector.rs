//! The collector's decisions: buffering captured lines, when to wake the writer, what the
//! writer takes, and when it stops.
use vstd::prelude::*;
use crate::db::{LogStore, StoreError, insert_logs_batch, lines_view};
use crate::model::insert_batch_spec;

verus! {

/// The writer is woken once this many lines wait.
pub const BATCH_SIZE: usize = 100;

/// Lines captured and not yet written, and whether input has ended.
pub struct SharedBuffer {
    lines: Vec<(String, String)>,
    done: bool,
}

impl View for SharedBuffer {
    type V = (Seq<(Seq<char>, Seq<char>)>, bool);

    closed spec fn view(&self) -> (Seq<(Seq<char>, Seq<char>)>, bool) {
        (lines_view(self.lines@), self.done)
    }
}

impl SharedBuffer {
    /// An empty buffer, input still open.
    pub fn new() -> (r: SharedBuffer)
        ensures
            r@.0.len() == 0,
            !r@.1,
    {
        let r = SharedBuffer { lines: Vec::new(), done: false };
        assert(r@.0 =~= Seq::<(Seq<char>, Seq<char>)>::empty());
        r
    }

    /// Buffers a captured line with its timestamp; says whether the writer should be woken
    /// (a full batch waits).
    pub fn push_line(&mut self, timestamp: String, line: String) -> (notify: bool)
        ensures
            final(self)@.0 == old(self)@.0.push((timestamp@, line@)),
            final(self)@.1 == old(self)@.1,
            notify == (final(self)@.0.len() >= BATCH_SIZE),
    {
        let ghost t = timestamp@;
        let ghost l = line@;
        self.lines.push((timestamp, line));
        assert(lines_view(self.lines@) =~= lines_view(old(self).lines@).push((t, l)));
        self.lines.len() >= BATCH_SIZE
    }

    /// The writer keeps waiting while nothing is buffered and input is still open.
    pub fn is_idle(&self) -> (r: bool)
        ensures
            r == (self@.0.len() == 0 && !self@.1),
    {
        self.lines.len() == 0 && !self.done
    }

    /// Hands every buffered line to the writer, in capture order, and says whether input
    /// has ended (the writer stops after writing this batch).
    pub fn take_batch(&mut self) -> (r: (Vec<(String, String)>, bool))
        ensures
            lines_view(r.0@) == old(self)@.0,
            r.1 == old(self)@.1,
            final(self)@.0.len() == 0,
            final(self)@.1 == old(self)@.1,
    {
        let mut taken: Vec<(String, String)> = Vec::new();
        std::mem::swap(&mut taken, &mut self.lines);
        assert(lines_view(self.lines@) =~= Seq::<(Seq<char>, Seq<char>)>::empty());
        (taken, self.done)
    }

    /// Records that input has ended.
    pub fn finish(&mut self)
        ensures
            final(self)@.0 == old(self)@.0,
            final(self)@.1,
    {
        self.done = true;
    }
}

/// Writes a batch of buffered lines for a session and empties the buffer; an empty batch
/// writes nothing.
pub fn flush(conn: &mut LogStore, session_id: &str, buffer: &mut Vec<(String, String)>) -> (r:
    Result<(), StoreError>)
    ensures
        final(buffer)@.len() == 0,
        old(buffer)@.len() == 0 ==> r is Ok && final(conn)@ == old(conn)@,
        old(buffer)@.len() > 0 ==> (r is Ok <==> old(conn)@.last_log_id + old(buffer)@.len()
            <= i64::MAX),
        old(buffer)@.len() > 0 && r is Ok ==> final(conn)@ == insert_batch_spec(
            old(conn)@,
            session_id@,
            lines_view(old(buffer)@),
        ),
        r is Err ==> final(conn)@ == old(conn)@,
{
    if buffer.len() == 0 {
        return Ok(());
    }
    let r = insert_logs_batch(conn, session_id, buffer.as_slice());
    buffer.clear();
    r
}

} // verus!
