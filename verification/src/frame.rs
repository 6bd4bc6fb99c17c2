use vstd::prelude::*;
use vstd::string::{StrSliceExecFns, StringSliceAdditionalSpecFns};

verus! {

/// The byte that ends each message on a connection.
pub const MESSAGE_SPLITTER: u8 = 0x0a;

/// Whether a byte sequence holds no message splitter.
pub open spec fn splitter_free(s: Seq<u8>) -> bool {
    forall|i: int| 0 <= i < s.len() ==> s[i] != MESSAGE_SPLITTER
}

/// The index of the first splitter in `chunk` at or after `start`, if any.
pub open spec fn next_splitter(chunk: Seq<u8>, start: int) -> Option<int>
    decreases chunk.len() - start,
{
    if start >= chunk.len() || start < 0 {
        None
    } else if chunk[start] == MESSAGE_SPLITTER {
        Some(start)
    } else {
        next_splitter(chunk, start + 1)
    }
}

/// Scanning `chunk` from `start` with `pending` bytes held: the bytes held afterwards,
/// and the complete message with the index just past its splitter, if the scan reached
/// a splitter. The message is everything held up to the splitter.
pub open spec fn spec_scan(pending: Seq<u8>, chunk: Seq<u8>, start: int) -> (Seq<u8>, Option<(Seq<u8>, int)>) {
    match next_splitter(chunk, start) {
        Some(k) => {
            let held = pending + chunk.subrange(start, k);
            (held, Some((held, k + 1)))
        },
        None => (pending + chunk.subrange(start, chunk.len() as int), None),
    }
}

/// The bytes that carry a message: its text, then the splitter.
pub open spec fn framed(message: Seq<u8>) -> Seq<u8> {
    message.push(MESSAGE_SPLITTER)
}

/// The result of scanning a chunk of bytes read from a connection.
pub enum FrameScan {
    /// A splitter was reached: these are the message's bytes, and scanning goes on at
    /// `next`.
    Frame { frame: Vec<u8>, next: usize },
    /// The chunk is used up without a splitter.
    NeedMore,
}

/// The bytes of a message that is still being read from a connection.
pub struct FrameBuffer {
    pending: Vec<u8>,
}

impl FrameBuffer {
    /// The bytes held.
    pub closed spec fn held(&self) -> Seq<u8> {
        self.pending@
    }

    /// Nothing held.
    pub fn new() -> (r: FrameBuffer)
        ensures
            r.held() == Seq::<u8>::empty(),
    {
        FrameBuffer { pending: Vec::new() }
    }

    /// Scans `chunk` from `start`: bytes up to the next splitter join the held bytes;
    /// where a splitter is reached, the held bytes are given as a message (and still
    /// held until `accept`).
    pub fn scan(&mut self, chunk: &[u8], start: usize) -> (r: FrameScan)
        requires
            start <= chunk@.len(),
        ensures
            final(self).held() == spec_scan(old(self).held(), chunk@, start as int).0,
            match r {
                FrameScan::Frame { frame, next } => spec_scan(old(self).held(), chunk@, start as int).1
                    == Some((frame@, next as int)),
                FrameScan::NeedMore => spec_scan(old(self).held(), chunk@, start as int).1 is None,
            },
    {
        let mut i = start;
        while i < chunk.len()
            invariant
                start <= i <= chunk@.len(),
                self.pending@ == old(self).pending@ + chunk@.subrange(start as int, i as int),
                next_splitter(chunk@, start as int) == next_splitter(chunk@, i as int),
            decreases chunk@.len() - i,
        {
            if chunk[i] == MESSAGE_SPLITTER {
                let frame = self.pending.clone();
                return FrameScan::Frame { frame, next: i + 1 };
            }
            self.pending.push(chunk[i]);
            proof {
                assert(self.pending@ =~= old(self).pending@ + chunk@.subrange(start as int, i + 1));
            }
            i = i + 1;
        }
        FrameScan::NeedMore
    }

    /// The message given by the last `scan` was taken: nothing is held any more.
    pub fn accept(&mut self)
        ensures
            final(self).held() == Seq::<u8>::empty(),
    {
        self.pending.clear();
    }
}

/// The bytes that carry a message: its text, then the splitter.
pub fn frame_bytes(json: &str) -> (r: Vec<u8>)
    ensures
        r@ == framed(json.spec_bytes()),
{
    let mut v = json.as_bytes_vec();
    v.push(MESSAGE_SPLITTER);
    v
}

/// A message without splitters, framed and scanned with nothing held, is read back
/// whole, and scanning goes on just past its splitter.
pub proof fn lemma_frame_roundtrip(message: Seq<u8>, rest: Seq<u8>)
    requires
        splitter_free(message),
    ensures
        spec_scan(Seq::<u8>::empty(), framed(message) + rest, 0) == (
            message,
            Some((message, message.len() + 1 as int)),
        ),
{
    let chunk = framed(message) + rest;
    lemma_no_splitter_before(chunk, 0, message.len() as int);
    assert(chunk[message.len() as int] == MESSAGE_SPLITTER);
    assert(next_splitter(chunk, message.len() as int) == Some(message.len() as int));
    assert(chunk.subrange(0, message.len() as int) =~= message);
    assert(Seq::<u8>::empty() + message =~= message);
}

proof fn lemma_no_splitter_before(chunk: Seq<u8>, from: int, to: int)
    requires
        0 <= from <= to <= chunk.len(),
        forall|i: int| from <= i < to ==> chunk[i] != MESSAGE_SPLITTER,
    ensures
        next_splitter(chunk, from) == next_splitter(chunk, to),
    decreases to - from,
{
    if from < to {
        lemma_no_splitter_before(chunk, from + 1, to);
    }
}


/// Cutting a byte stream at its splitters, with `cur` the bytes of a message begun
/// before it: the complete messages in order, and the bytes of the message that is
/// still unfinished at the end.
pub open spec fn split_from(cur: Seq<u8>, s: Seq<u8>) -> (Seq<Seq<u8>>, Seq<u8>)
    decreases s.len(),
{
    if s.len() == 0 {
        (seq![], cur)
    } else if s[0] == MESSAGE_SPLITTER {
        let rest = split_from(seq![], s.drop_first());
        (seq![cur] + rest.0, rest.1)
    } else {
        split_from(cur.push(s[0]), s.drop_first())
    }
}

/// Where the next splitter stands, if any: at or after `start`, with none before it;
/// and where there is none, the rest of the chunk is free of splitters.
pub proof fn lemma_next_splitter(chunk: Seq<u8>, start: int)
    requires
        0 <= start,
    ensures
        next_splitter(chunk, start) matches Some(k) ==> start <= k < chunk.len() && chunk[k]
            == MESSAGE_SPLITTER && forall|j: int| start <= j < k ==> chunk[j] != MESSAGE_SPLITTER,
        next_splitter(chunk, start) is None ==> forall|j: int|
            start <= j < chunk.len() ==> chunk[j] != MESSAGE_SPLITTER,
    decreases chunk.len() - start,
{
    if start < chunk.len() && chunk[start] != MESSAGE_SPLITTER {
        lemma_next_splitter(chunk, start + 1);
    }
}

/// The reading of one chunk, from `start` on, with `held` bytes held: scan; where a
/// message comes, take it (`accept`) and scan on just past its splitter; stop where the
/// chunk is used up. The messages taken in order, and the bytes held at the end.
pub open spec fn drain(held: Seq<u8>, chunk: Seq<u8>, start: int) -> (Seq<Seq<u8>>, Seq<u8>)
    decreases chunk.len() - start,
{
    if 0 <= start <= chunk.len() {
        match spec_scan(held, chunk, start) {
            (_, Some((frame, next))) => {
                proof {
                    lemma_next_splitter(chunk, start);
                }
                let rest = drain(seq![], chunk, next);
                (seq![frame] + rest.0, rest.1)
            },
            (h, None) => (seq![], h),
        }
    } else {
        (seq![], held)
    }
}

/// The reading of a connection chunk by chunk, each drained in turn from its start,
/// with `held` bytes held before the first: the messages taken in order, and the bytes
/// held at the end.
pub open spec fn drain_reads(held: Seq<u8>, chunks: Seq<Seq<u8>>) -> (Seq<Seq<u8>>, Seq<u8>)
    decreases chunks.len(),
{
    if chunks.len() == 0 {
        (seq![], held)
    } else {
        let first = drain(held, chunks[0], 0);
        let rest = drain_reads(first.1, chunks.drop_first());
        (first.0 + rest.0, rest.1)
    }
}

/// Bytes without a splitter only join the message being read.
proof fn lemma_split_skips(held: Seq<u8>, chunk: Seq<u8>, start: int, i: int)
    requires
        0 <= start <= i <= chunk.len(),
        forall|j: int| start <= j < i ==> chunk[j] != MESSAGE_SPLITTER,
    ensures
        split_from(held, chunk.subrange(start, chunk.len() as int)) == split_from(
            held + chunk.subrange(start, i),
            chunk.subrange(i, chunk.len() as int),
        ),
    decreases i - start,
{
    if i == start {
        assert(held + chunk.subrange(start, i) =~= held);
    } else {
        lemma_split_skips(held, chunk, start, i - 1);
        let tail = chunk.subrange(i - 1, chunk.len() as int);
        assert(tail[0] == chunk[i - 1]);
        assert(tail.drop_first() =~= chunk.subrange(i, chunk.len() as int));
        assert((held + chunk.subrange(start, i - 1)).push(chunk[i - 1]) =~= held + chunk.subrange(
            start,
            i,
        ));
    }
}

/// Draining a chunk from `start` cuts the rest of the chunk at its splitters.
proof fn lemma_drain_splits(held: Seq<u8>, chunk: Seq<u8>, start: int)
    requires
        0 <= start <= chunk.len(),
    ensures
        drain(held, chunk, start) == split_from(held, chunk.subrange(start, chunk.len() as int)),
    decreases chunk.len() - start,
{
    lemma_next_splitter(chunk, start);
    let len = chunk.len() as int;
    match next_splitter(chunk, start) {
        Some(k) => {
            lemma_split_skips(held, chunk, start, k);
            let tail = chunk.subrange(k, len);
            assert(tail[0] == MESSAGE_SPLITTER);
            assert(tail.drop_first() =~= chunk.subrange(k + 1, len));
            lemma_drain_splits(seq![], chunk, k + 1);
        },
        None => {
            lemma_split_skips(held, chunk, start, len);
            assert(chunk.subrange(len, len) =~= Seq::<u8>::empty());
        },
    }
}

/// Cutting two pieces of a stream one after the other is cutting them together.
pub proof fn lemma_split_concat(cur: Seq<u8>, a: Seq<u8>, b: Seq<u8>)
    ensures
        split_from(cur, a + b) == (
            split_from(cur, a).0 + split_from(split_from(cur, a).1, b).0,
            split_from(split_from(cur, a).1, b).1,
        ),
    decreases a.len(),
{
    if a.len() == 0 {
        assert(a + b =~= b);
        assert(Seq::<Seq<u8>>::empty() + split_from(cur, b).0 =~= split_from(cur, b).0);
    } else {
        assert((a + b)[0] == a[0]);
        assert((a + b).drop_first() =~= a.drop_first() + b);
        if a[0] == MESSAGE_SPLITTER {
            lemma_split_concat(seq![], a.drop_first(), b);
            let x = split_from(Seq::<u8>::empty(), a.drop_first());
            let y = split_from(x.1, b);
            assert(seq![cur] + (x.0 + y.0) =~= (seq![cur] + x.0) + y.0);
        } else {
            lemma_split_concat(cur.push(a[0]), a.drop_first(), b);
        }
    }
}

/// Messages cut across reads arrive whole and in order: reading a connection chunk by
/// chunk, taking each message as it comes, gives exactly the messages of all the bytes
/// read, cut at their splitters, and holds the unfinished rest.
pub proof fn lemma_reads_split(held: Seq<u8>, chunks: Seq<Seq<u8>>)
    ensures
        drain_reads(held, chunks) == split_from(held, chunks.flatten()),
    decreases chunks.len(),
{
    if chunks.len() == 0 {
    } else {
        let c = chunks[0];
        lemma_drain_splits(held, c, 0);
        assert(c.subrange(0, c.len() as int) =~= c);
        let first = drain(held, c, 0);
        lemma_reads_split(first.1, chunks.drop_first());
        assert(chunks.flatten() == c + chunks.drop_first().flatten());
        lemma_split_concat(held, c, chunks.drop_first().flatten());
    }
}

} // verus!
