//! A writer that flushes after every write, so the child's forwarded
//! output appears immediately.  The library only carries the wrapped
//! writer; the write-and-flush behaviour itself is I/O and lives with
//! the boundary code.

use vstd::prelude::*;

verus! {

pub struct FlushingWriter<W> {
    pub writer: W,
}

impl<W> FlushingWriter<W> {
    pub fn new(writer: W) -> (r: Self)
        ensures
            r.writer == writer,
    {
        FlushingWriter { writer }
    }
}

} // verus!
