//! Line counting and binary detection.
//!
//! A file's bytes are classified as binary when any null byte appears;
//! otherwise the line count is the number of newline bytes, plus one when the
//! final byte exists and is not a newline (the trailing partial line).
//!
//! The counter is a fold over chunks, so a caller can stream a file through
//! it in fixed-size pieces; the result is proved equal to classifying the
//! concatenation of all the chunks at once.

use vstd::prelude::*;

verus! {

/// What a file's bytes turned out to be.
#[derive(Debug, Clone, Copy, PartialEq, Eq, Structural)]
pub enum FileInspection {
    /// The bytes contain a null byte.
    Binary,
    /// Text with this many lines.
    Text { lines: usize },
}

/// Why a file could not be inspected.
#[derive(Debug, Clone, PartialEq, Eq)]
pub enum CountError {
    /// File does not exist.
    Missing,
    /// File could not be read.
    Unreadable(String),
}

/// The number of newline bytes in `bytes`.
pub open spec fn newline_count(bytes: Seq<u8>) -> nat
    decreases bytes.len(),
{
    if bytes.len() == 0 {
        0
    } else {
        newline_count(bytes.take(bytes.len() - 1)) + if bytes.last() == 10u8 {
            1nat
        } else {
            0nat
        }
    }
}

/// Whether `bytes` contain a null byte.
pub open spec fn has_nul(bytes: Seq<u8>) -> bool {
    exists|i: int| 0 <= i < bytes.len() && bytes[i] == 0u8
}

/// The line count of a text file: newline bytes, plus one for a trailing
/// partial line. An empty file has zero lines.
pub open spec fn lines_of(bytes: Seq<u8>) -> nat {
    newline_count(bytes) + if bytes.len() > 0 && bytes.last() != 10u8 {
        1nat
    } else {
        0nat
    }
}

/// What inspecting a file's bytes yields.
pub open spec fn inspect_spec(bytes: Seq<u8>) -> FileInspection {
    if has_nul(bytes) {
        FileInspection::Binary
    } else {
        FileInspection::Text { lines: lines_of(bytes) as usize }
    }
}

/// There are no more newline bytes than bytes, and a final byte that is not a
/// newline is not counted among them.
pub proof fn lemma_newline_count_le(bytes: Seq<u8>)
    ensures
        newline_count(bytes) <= bytes.len(),
        bytes.len() > 0 && bytes.last() != 10u8 ==> newline_count(bytes) <= bytes.len() - 1,
    decreases bytes.len(),
{
    if bytes.len() > 0 {
        lemma_newline_count_le(bytes.take(bytes.len() - 1));
    }
}

/// The line count never exceeds the byte count.
pub proof fn lemma_lines_le(bytes: Seq<u8>)
    ensures
        lines_of(bytes) <= bytes.len(),
{
    lemma_newline_count_le(bytes);
}

/// Streaming line counter: a fold over chunks of a file's bytes.
pub struct LineCounter {
    newlines: usize,
    last: Option<u8>,
    binary: bool,
    seen: Ghost<Seq<u8>>,
}

impl LineCounter {
    /// All the bytes pushed so far.
    pub closed spec fn seen_bytes(self) -> Seq<u8> {
        self.seen@
    }

    pub closed spec fn is_binary_spec(self) -> bool {
        self.binary
    }

    pub closed spec fn wf(self) -> bool {
        &&& self.seen@.len() <= usize::MAX
        &&& self.binary == has_nul(self.seen@)
        &&& !self.binary ==> {
            &&& self.newlines == newline_count(self.seen@)
            &&& self.last == if self.seen@.len() > 0 {
                Some(self.seen@.last())
            } else {
                None::<u8>
            }
        }
    }

    /// A fresh counter that has seen no bytes.
    pub fn new() -> (r: Self)
        ensures
            r.wf(),
            r.seen_bytes() == Seq::<u8>::empty(),
            !r.is_binary_spec(),
    {
        LineCounter { newlines: 0, last: None, binary: false, seen: Ghost(Seq::empty()) }
    }

    /// Whether a null byte has been seen; once true, the remaining chunks
    /// need not be read.
    pub fn is_binary(&self) -> (r: bool)
        ensures
            r == self.is_binary_spec(),
    {
        self.binary
    }

    /// Folds one chunk of the file into the counter.
    pub fn push_chunk(&mut self, chunk: &[u8])
        requires
            old(self).wf(),
            !old(self).is_binary_spec(),
            old(self).seen_bytes().len() + chunk@.len() <= usize::MAX,
        ensures
            final(self).wf(),
            final(self).seen_bytes() == old(self).seen_bytes() + chunk@,
    {
        let ghost orig = self.seen@;
        let mut i: usize = 0;
        while i < chunk.len()
            invariant
                0 <= i <= chunk@.len(),
                orig.len() + chunk@.len() <= usize::MAX,
                self.seen@ == orig + chunk@.take(i as int),
                self.wf(),
            decreases chunk@.len() - i,
        {
            let b = chunk[i];
            let ghost prev = self.seen@;
            proof {
                assert(chunk@.take(i as int + 1) =~= chunk@.take(i as int).push(b));
                assert((orig + chunk@.take(i as int + 1)) =~= prev.push(b));
                assert(prev.push(b).take(prev.push(b).len() - 1) =~= prev);
                assert(prev.push(b).last() == b);
                if b == 0u8 {
                    assert(has_nul(prev.push(b)));
                } else if !has_nul(prev) {
                    assert forall|k: int| 0 <= k < prev.push(b).len() implies prev.push(b)[k]
                        != 0u8 by {
                        if k < prev.len() {
                            assert(prev.push(b)[k] == prev[k]);
                        }
                    }
                    assert(!has_nul(prev.push(b)));
                }
                lemma_newline_count_le(prev.push(b));
            }
            if !self.binary {
                if b == 0 {
                    self.binary = true;
                } else {
                    if b == 10 {
                        self.newlines = self.newlines + 1;
                    }
                    self.last = Some(b);
                }
            }
            self.seen = Ghost(self.seen@.push(b));
            i = i + 1;
        }
        proof {
            assert(chunk@.take(chunk@.len() as int) =~= chunk@);
        }
    }

    /// The classification of everything pushed so far.
    pub fn finish(self) -> (r: FileInspection)
        requires
            self.wf(),
        ensures
            r == inspect_spec(self.seen_bytes()),
    {
        if self.binary {
            FileInspection::Binary
        } else {
            proof {
                lemma_lines_le(self.seen@);
            }
            let lines: usize = match self.last {
                Some(b) if b != 10 => self.newlines + 1,
                _ => self.newlines,
            };
            FileInspection::Text { lines }
        }
    }
}

/// Classifies a complete byte slice in one step.
pub fn inspect_bytes(data: &[u8]) -> (r: FileInspection)
    ensures
        r == inspect_spec(data@),
{
    let n: usize = data.len();
    let mut counter = LineCounter::new();
    counter.push_chunk(data);
    proof {
        assert(counter.seen_bytes() =~= data@);
    }
    counter.finish()
}

} // verus!
