//! Bookkeeping of an acquisition: the line buffer that collects an
//! instrument's reply byte by byte, the channels that failed to deliver a
//! waveform, and the common length the delivered waveforms are cut to.
use vstd::prelude::*;
use crate::channel_mask::{digit_csv, write_digit_csv};
use crate::text::{decimal, join, push_decimal, push_str};

verus! {

/// The line terminator.
pub const NEWLINE: u8 = 10;

/// A reply being read one byte at a time: at most `capacity` bytes are
/// kept, but every byte up to and including the newline is counted.
pub struct LineBuffer {
    buf: Vec<u8>,
    capacity: usize,
    count: usize,
    received: Ghost<Seq<u8>>,
}

impl LineBuffer {
    /// Every byte pushed since the last `clear`.
    pub closed spec fn received(&self) -> Seq<u8> {
        self.received@
    }

    pub closed spec fn spec_capacity(&self) -> usize {
        self.capacity
    }

    pub closed spec fn wf(&self) -> bool {
        &&& self.count == self.received@.len()
        &&& self.buf@ == self.received@.take(
            if self.count <= self.capacity {
                self.count as int
            } else {
                self.capacity as int
            },
        )
    }

    /// An empty buffer keeping up to `capacity` bytes.
    pub fn new(capacity: usize) -> (b: Self)
        ensures
            b.wf(),
            b.received() == Seq::<u8>::empty(),
            b.spec_capacity() == capacity,
    {
        let b = LineBuffer { buf: Vec::new(), capacity, count: 0, received: Ghost(Seq::empty()) };
        assert(b.buf@ =~= b.received@.take(0));
        b
    }

    /// Forgets everything received.
    pub fn clear(&mut self)
        ensures
            final(self).wf(),
            final(self).received() == Seq::<u8>::empty(),
            final(self).spec_capacity() == old(self).spec_capacity(),
    {
        self.buf = Vec::new();
        self.count = 0;
        self.received = Ghost(Seq::empty());
        assert(self.buf@ =~= self.received@.take(0));
    }

    /// Takes one received byte; `true` when it ends the line.
    pub fn push(&mut self, byte: u8) -> (done: bool)
        requires
            old(self).wf(),
            old(self).received().len() < usize::MAX,
        ensures
            final(self).wf(),
            final(self).received() == old(self).received().push(byte),
            final(self).spec_capacity() == old(self).spec_capacity(),
            done == (byte == NEWLINE),
    {
        let ghost old_rec = self.received@;
        if self.count < self.capacity {
            self.buf.push(byte);
        }
        self.count = self.count + 1;
        self.received = Ghost(old_rec.push(byte));
        proof {
            let rec = self.received@;
            if self.count <= self.capacity {
                assert(self.buf@ =~= rec.take(self.count as int));
            } else {
                assert(self.buf@ =~= rec.take(self.capacity as int));
            }
        }
        byte == NEWLINE
    }

    /// The number of bytes received.
    pub fn count(&self) -> (n: usize)
        requires
            self.wf(),
        ensures
            n == self.received().len(),
    {
        self.count
    }

    /// More bytes were received than the buffer keeps.
    pub fn overflowed(&self) -> (r: bool)
        requires
            self.wf(),
        ensures
            r == (self.received().len() > self.spec_capacity()),
    {
        self.count > self.capacity
    }

    /// The bytes received, when the buffer kept all of them.
    pub fn line(&self) -> (r: &[u8])
        requires
            self.wf(),
            self.received().len() <= self.spec_capacity(),
        ensures
            r@ == self.received(),
    {
        assert(self.received@.take(self.count as int) =~= self.received@);
        self.buf.as_slice()
    }
}

/// The channels that failed to deliver a waveform, in the order they
/// failed; at most eight are kept.
pub struct FailedChannels {
    chs: [u8; 8],
    n: usize,
}

/// The most failures a record keeps.
pub const MAX_FAILED: usize = 8;

/// `[a, b, ...]`: the eight slots as `{:?}` prints a byte array.
pub open spec fn debug_list(s: Seq<u8>) -> Seq<char> {
    "["@ + join(s.map_values(|c: u8| decimal(c as nat)), ", "@) + "]"@
}

impl FailedChannels {
    /// The failures kept, in order.
    pub closed spec fn failed(&self) -> Seq<u8> {
        self.chs@.take(self.n as int)
    }

    /// All eight slots, unused ones zero.
    pub closed spec fn slots(&self) -> Seq<u8> {
        self.chs@
    }

    pub closed spec fn wf(&self) -> bool {
        &&& self.n <= MAX_FAILED
        &&& forall|i: int| self.n <= i < 8 ==> self.chs@[i] == 0
        &&& forall|i: int| 0 <= i < self.n ==> self.chs@[i] <= 9
    }

    /// No failure yet.
    pub fn new() -> (f: Self)
        ensures
            f.wf(),
            f.failed() == Seq::<u8>::empty(),
            f.slots() == seq![0u8, 0u8, 0u8, 0u8, 0u8, 0u8, 0u8, 0u8],
    {
        let f = FailedChannels { chs: [0u8; 8], n: 0 };
        assert(f.chs@.take(0) =~= Seq::<u8>::empty());
        assert(f.chs@ =~= seq![0u8, 0u8, 0u8, 0u8, 0u8, 0u8, 0u8, 0u8]);
        f
    }

    /// Records that channel `ch` failed, unless eight failures are kept
    /// already.
    pub fn record(&mut self, ch: u8)
        requires
            old(self).wf(),
            ch <= 9,
        ensures
            final(self).wf(),
            final(self).failed() == if old(self).failed().len() < MAX_FAILED {
                old(self).failed().push(ch)
            } else {
                old(self).failed()
            },
            final(self).slots().take(final(self).failed().len() as int) == final(self).failed(),
    {
        if self.n < MAX_FAILED {
            let ghost before = self.chs@.take(self.n as int);
            self.chs[self.n] = ch;
            self.n = self.n + 1;
            assert(self.chs@.take(self.n as int) =~= before.push(ch));
        }
    }

    /// The number of failures kept.
    pub fn len(&self) -> (n: usize)
        requires
            self.wf(),
        ensures
            n == self.failed().len(),
    {
        self.n
    }

    /// The failures as comma-separated digits, as in the `failed_channels`
    /// metadata.
    pub fn csv(&self) -> (r: String)
        requires
            self.wf(),
        ensures
            r@ == digit_csv(self.failed()).map_values(|b: u8| b as char),
    {
        let mut buf = [0u8; 32];
        let len = write_digit_csv(&self.chs, self.n, &mut buf);
        let mut s = String::new();
        let mut i: usize = 0;
        while i < len
            invariant
                i <= len <= 32,
                buf@.subrange(0, len as int) == digit_csv(self.chs@.subrange(0, self.n as int)),
                s@ == buf@.subrange(0, i as int).map_values(|b: u8| b as char),
            decreases len - i,
        {
            crate::text::push_char(&mut s, buf[i] as char);
            i = i + 1;
            assert(s@ =~= buf@.subrange(0, i as int).map_values(|b: u8| b as char));
        }
        assert(self.chs@.subrange(0, self.n as int) =~= self.failed());
        s
    }

    /// The message when no channel delivered: the eight slots as `{:?}`
    /// prints them.
    pub fn all_failed_message(&self) -> (r: String)
        ensures
            r@ == "all channels failed: "@ + debug_list(self.slots()),
    {
        let mut s = String::new();
        push_str(&mut s, "all channels failed: ");
        push_str(&mut s, "[");
        let ghost parts = self.chs@.map_values(|c: u8| decimal(c as nat));
        let mut i: usize = 0;
        while i < 8
            invariant
                i <= 8,
                parts == self.chs@.map_values(|c: u8| decimal(c as nat)),
                s@ == "all channels failed: "@ + "["@ + join(parts.subrange(0, i as int), ", "@),
            decreases 8 - i,
        {
            let ghost before = s@;
            if i > 0 {
                push_str(&mut s, ", ");
            }
            push_decimal(&mut s, self.chs[i] as u64);
            proof {
                let pre = parts.subrange(0, i as int);
                let next = parts.subrange(0, i + 1);
                assert(next.drop_last() =~= pre);
                assert(next.last() == decimal(self.chs@[i as int] as nat));
                if i == 0 {
                    assert(join(pre, ", "@) == Seq::<char>::empty());
                }
                assert(s@ =~= "all channels failed: "@ + "["@ + join(next, ", "@));
            }
            i = i + 1;
        }
        assert(parts.subrange(0, 8) =~= parts);
        push_str(&mut s, "]");
        s
    }
}

/// The smallest of the lengths, 0 when there is none.
pub open spec fn min_length(lens: Seq<usize>) -> usize
    decreases lens.len(),
{
    if lens.len() == 0 {
        0
    } else if lens.len() == 1 {
        lens[0]
    } else {
        let m = min_length(lens.drop_last());
        if lens.last() < m {
            lens.last()
        } else {
            m
        }
    }
}

/// The length all delivered waveforms are cut to: the shortest one.
pub fn common_length(lens: &Vec<usize>) -> (r: usize)
    ensures
        r == min_length(lens@),
        forall|i: int| 0 <= i < lens@.len() ==> r <= lens@[i],
        lens@.len() > 0 ==> exists|i: int| 0 <= i < lens@.len() && r == lens@[i],
{
    if lens.len() == 0 {
        return 0;
    }
    let mut m = lens[0];
    let mut i: usize = 1;
    assert(lens@.subrange(0, 1) =~= seq![lens@[0]]);
    while i < lens.len()
        invariant
            1 <= i <= lens@.len(),
            m == min_length(lens@.subrange(0, i as int)),
            forall|k: int| 0 <= k < i ==> m <= lens@[k],
            exists|k: int| 0 <= k < i && m == lens@[k],
        decreases lens@.len() - i,
    {
        assert(lens@.subrange(0, i + 1).drop_last() =~= lens@.subrange(0, i as int));
        if lens[i] < m {
            m = lens[i];
        }
        i = i + 1;
    }
    assert(lens@.subrange(0, i as int) =~= lens@);
    m
}

} // verus!
