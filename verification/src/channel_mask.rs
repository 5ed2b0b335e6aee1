//! The set of active oscilloscope channels, kept as a bitfield: bit `n`
//! stands for channel `n + 1`, so channels 1 to 8 fit in one byte.
use vstd::prelude::*;

verus! {

/// Bit `ch - 1` of `bits` is set.
pub open spec fn bit_set(bits: u8, ch: int) -> bool {
    1 <= ch <= 8 && ((bits >> ((ch - 1) as u8)) & 1u8) == 1u8
}

/// The channels of `bits` from `c` to 8, in ascending order.
pub open spec fn members_from(bits: u8, c: int) -> Seq<u8>
    decreases 9 - c,
{
    if c < 1 || c > 8 {
        Seq::empty()
    } else if bit_set(bits, c) {
        seq![c as u8] + members_from(bits, c + 1)
    } else {
        members_from(bits, c + 1)
    }
}

/// The first channel of `bits` after channel `p`, if any.
pub open spec fn next_after(bits: u8, p: int) -> Option<u8>
    decreases 8 - p,
{
    if p < 0 || p >= 8 {
        None
    } else if bit_set(bits, p + 1) {
        Some((p + 1) as u8)
    } else {
        next_after(bits, p + 1)
    }
}

/// The ASCII digit of a channel number.
pub open spec fn digit_byte(c: u8) -> u8 {
    (48 + c) as u8
}

/// The channel numbers of `s` as ASCII digits joined by commas.
pub open spec fn digit_csv(s: Seq<u8>) -> Seq<u8>
    decreases s.len(),
{
    if s.len() == 0 {
        Seq::empty()
    } else if s.len() == 1 {
        seq![digit_byte(s[0])]
    } else {
        digit_csv(s.drop_last()) + seq![44u8, digit_byte(s.last())]
    }
}

proof fn lemma_shift_bit(b: u8, k: u8)
    requires
        k < 8,
    ensures
        (b & (1u8 << k) != 0) == (((b >> k) & 1u8) == 1u8),
{
    assert((b & (1u8 << k) != 0) == (((b >> k) & 1u8) == 1u8)) by (bit_vector)
        requires
            k < 8,
    ;
}

proof fn lemma_or_bit(b: u8, k: u8, j: u8)
    requires
        k < 8,
        j < 8,
    ensures
        ((((b | (1u8 << k)) >> j) & 1u8) == 1u8) == ((((b >> j) & 1u8) == 1u8) || j == k),
{
    assert(((((b | (1u8 << k)) >> j) & 1u8) == 1u8) == ((((b >> j) & 1u8) == 1u8) || j == k))
        by (bit_vector)
        requires
            k < 8,
            j < 8,
    ;
}

proof fn lemma_and_not_bit(b: u8, k: u8, j: u8)
    requires
        k < 8,
        j < 8,
    ensures
        ((((b & !(1u8 << k)) >> j) & 1u8) == 1u8) == ((((b >> j) & 1u8) == 1u8) && j != k),
{
    assert(((((b & !(1u8 << k)) >> j) & 1u8) == 1u8) == ((((b >> j) & 1u8) == 1u8) && j != k))
        by (bit_vector)
        requires
            k < 8,
            j < 8,
    ;
}

proof fn lemma_zero_bits(b: u8)
    ensures
        (b == 0) == (forall|j: u8| j < 8 ==> ((b >> j) & 1u8) != 1u8),
{
    assert((b == 0) ==> (forall|j: u8| j < 8 ==> ((b >> j) & 1u8) != 1u8)) by (bit_vector);
    if b != 0 {
        assert(b != 0 ==> (((b >> 0u8) & 1u8) == 1u8 || ((b >> 1u8) & 1u8) == 1u8 || ((b >> 2u8)
            & 1u8) == 1u8 || ((b >> 3u8) & 1u8) == 1u8 || ((b >> 4u8) & 1u8) == 1u8 || ((b >> 5u8)
            & 1u8) == 1u8 || ((b >> 6u8) & 1u8) == 1u8 || ((b >> 7u8) & 1u8) == 1u8))
            by (bit_vector);
    }
}

/// Membership in `members_from` is exactly the set bits in range.
pub proof fn lemma_members_from(bits: u8, c: int)
    requires
        1 <= c <= 9,
    ensures
        forall|x: u8| #[trigger]
            members_from(bits, c).contains(x) <==> (c <= x <= 8 && bit_set(bits, x as int)),
        forall|i: int, j: int|
            0 <= i < j < members_from(bits, c).len() ==> members_from(bits, c)[i] < members_from(
                bits,
                c,
            )[j],
        forall|i: int|
            0 <= i < members_from(bits, c).len() ==> c <= #[trigger] members_from(bits, c)[i] <= 8,
        members_from(bits, c).len() <= 9 - c,
    decreases 9 - c,
{
    if c <= 8 {
        lemma_members_from(bits, c + 1);
        let rest = members_from(bits, c + 1);
        if bit_set(bits, c) {
            let m = seq![c as u8] + rest;
            assert forall|x: u8| #[trigger] m.contains(x) <==> (c <= x <= 8 && bit_set(bits, x as int)) by {
                if m.contains(x) {
                    let i = choose|i: int| 0 <= i < m.len() && m[i] == x;
                    if i > 0 {
                        assert(rest[i - 1] == x);
                        assert(rest.contains(x));
                    }
                }
                if c <= x <= 8 && bit_set(bits, x as int) {
                    if x == c {
                        assert(m[0] == x);
                    } else {
                        assert(rest.contains(x));
                        let i = choose|i: int| 0 <= i < rest.len() && rest[i] == x;
                        assert(m[i + 1] == x);
                    }
                }
            }
            assert forall|i: int| 0 <= i < m.len() implies c <= #[trigger] m[i] <= 8 by {
                if i > 0 {
                    assert(m[i] == rest[i - 1]);
                }
            }
            assert forall|i: int, j: int| 0 <= i < j < m.len() implies m[i] < m[j] by {
                assert(m[j] == rest[j - 1]);
                if i > 0 {
                    assert(m[i] == rest[i - 1]);
                }
            }
        } else {
            assert forall|x: u8| #[trigger]
                rest.contains(x) <==> (c <= x <= 8 && bit_set(bits, x as int)) by {
                if x == c {
                    assert(!(c + 1 <= x));
                }
            }
        }
    } else {
        assert forall|x: u8| #[trigger]
            members_from(bits, c).contains(x) <==> (c <= x <= 8 && bit_set(bits, x as int)) by {}
    }
}

/// `next_after` picks the first element of what remains.
pub proof fn lemma_next_after(bits: u8, p: int)
    requires
        0 <= p <= 8,
    ensures
        match next_after(bits, p) {
            Some(c) => p < c <= 8 && members_from(bits, p + 1) == seq![c] + members_from(
                bits,
                c + 1,
            ),
            None => members_from(bits, p + 1) == Seq::<u8>::empty(),
        },
    decreases 8 - p,
{
    if p < 8 {
        if !bit_set(bits, p + 1) {
            lemma_next_after(bits, p + 1);
        }
    }
}

/// The set of active channels.
#[derive(Debug, Clone, Copy)]
pub struct ChannelMask(u8);

impl ChannelMask {
    /// The channels, as a set of channel numbers in `1..=8`.
    pub closed spec fn view(self) -> Set<u8> {
        Set::new(|c: u8| bit_set(self.0, c as int))
    }

    /// The channels in ascending order.
    pub closed spec fn members(self) -> Seq<u8> {
        members_from(self.0, 1)
    }

    /// The raw bitfield.
    pub closed spec fn bits(self) -> u8 {
        self.0
    }

    /// The empty set of channels.
    pub fn new() -> (m: Self)
        ensures
            m@ == Set::<u8>::empty(),
    {
        let m = ChannelMask(0);
        assert(m@ =~= Set::<u8>::empty()) by {
            assert forall|c: u8| !bit_set(0u8, c as int) by {
                if 1 <= c <= 8 {
                    let k = (c - 1) as u8;
                    assert(((0u8 >> k) & 1u8) == 0u8) by (bit_vector);
                }
            }
        }
        m
    }

    /// Marks channel `ch` active.
    pub fn set(&mut self, ch: u8)
        requires
            1 <= ch <= 8,
        ensures
            final(self)@ == old(self)@.insert(ch),
    {
        let k: u8 = ch - 1;
        let ghost b = self.0;
        self.0 = self.0 | (1u8 << k);
        proof {
            assert forall|c: u8|
                #[trigger] self@.contains(c) == old(self)@.insert(ch).contains(c) by {
                if 1 <= c <= 8 {
                    lemma_or_bit(b, k, (c - 1) as u8);
                }
            }
            assert(self@ =~= old(self)@.insert(ch));
        }
    }

    /// Marks channel `ch` inactive.
    pub fn clear(&mut self, ch: u8)
        requires
            1 <= ch <= 8,
        ensures
            final(self)@ == old(self)@.remove(ch),
    {
        let k: u8 = ch - 1;
        let ghost b = self.0;
        self.0 = self.0 & !(1u8 << k);
        proof {
            assert forall|c: u8|
                #[trigger] self@.contains(c) == old(self)@.remove(ch).contains(c) by {
                if 1 <= c <= 8 {
                    lemma_and_not_bit(b, k, (c - 1) as u8);
                }
            }
            assert(self@ =~= old(self)@.remove(ch));
        }
    }

    /// Whether channel `ch` is active.
    pub fn has(self, ch: u8) -> (r: bool)
        requires
            1 <= ch <= 8,
        ensures
            r == self@.contains(ch),
    {
        proof {
            lemma_shift_bit(self.0, (ch - 1) as u8);
        }
        self.0 & (1u8 << (ch - 1)) != 0
    }

    /// Whether no channel is active.
    pub fn is_empty(self) -> (r: bool)
        ensures
            r == (self@ == Set::<u8>::empty()),
    {
        proof {
            lemma_zero_bits(self.0);
            if self.0 != 0 {
                let j = choose|j: u8| j < 8 && ((self.0 >> j) & 1u8) == 1u8;
                assert(bit_set(self.0, (j + 1) as int));
                assert(self@.contains((j + 1) as u8));
            } else {
                assert(self@ =~= Set::<u8>::empty());
            }
        }
        self.0 == 0
    }

    /// An iterator over the active channels in ascending order.
    pub fn iter(self) -> (it: ChannelMaskIter)
        ensures
            it.mask() == self,
            it.wf(),
            it.remaining() == self.members(),
    {
        ChannelMaskIter(self, 0)
    }

    /// Same as `iter`, consuming the mask.
    pub fn into_iter(self) -> (it: ChannelMaskIter)
        ensures
            it.mask() == self,
            it.wf(),
            it.remaining() == self.members(),
    {
        ChannelMaskIter(self, 0)
    }

    /// The active channels in ascending order in the first `n` slots of an
    /// array, the other slots zero.
    pub fn to_array(self) -> (r: ([u8; 8], usize))
        ensures
            r.1 == self.members().len(),
            r.1 <= 8,
            r.0@.subrange(0, r.1 as int) == self.members(),
            forall|i: int| r.1 <= i < 8 ==> r.0@[i] == 0,
    {
        let mut arr = [0u8; 8];
        let mut n: usize = 0;
        let mut it = self.iter();
        proof {
            lemma_members_from(self.0, 1);
        }
        loop
            invariant
                it.mask() == self,
                it.wf(),
                n <= 8,
                arr@.len() == 8,
                arr@.subrange(0, n as int) + it.remaining() == self.members(),
                n + it.remaining().len() == self.members().len(),
                self.members().len() <= 8,
                forall|i: int| n <= i < 8 ==> arr@[i] == 0,
            ensures
                n == self.members().len(),
                n <= 8,
                arr@.subrange(0, n as int) == self.members(),
                forall|i: int| n <= i < 8 ==> arr@[i] == 0,
            decreases it.remaining().len(),
        {
            match it.next() {
                Some(ch) => {
                    let ghost before = arr@.subrange(0, n as int);
                    arr[n] = ch;
                    assert(arr@.subrange(0, n + 1) =~= before.push(ch));
                    n = n + 1;
                },
                None => {
                    assert(arr@.subrange(0, n as int) =~= self.members());
                    break;
                },
            }
        }
        (arr, n)
    }

    /// Writes the active channels as comma-separated digits (such as `1,3`)
    /// to the front of `buf` and returns how many bytes it wrote; the rest
    /// of `buf` is unchanged.
    pub fn fmt_csv(self, buf: &mut [u8; 32]) -> (n: usize)
        ensures
            n <= 32,
            final(buf)@.subrange(0, n as int) == digit_csv(self.members()),
            final(buf)@.subrange(n as int, 32) == old(buf)@.subrange(n as int, 32),
    {
        let (arr, k) = self.to_array();
        proof {
            lemma_members_from(self.0, 1);
            assert forall|i: int| 0 <= i < k implies arr@[i] <= 9 by {
                assert(arr@.subrange(0, k as int)[i] == arr@[i]);
            }
        }
        write_digit_csv(&arr, k, buf)
    }
}

impl ChannelMask {
    /// The ascending list of channels holds exactly the members of the set,
    /// each in `1..=8`, with no repeats.
    pub proof fn lemma_members(self)
        ensures
            forall|c: u8| #[trigger] self.members().contains(c) <==> self@.contains(c),
            forall|c: u8| self@.contains(c) ==> 1 <= c <= 8,
            forall|i: int, j: int|
                0 <= i < j < self.members().len() ==> self.members()[i] < self.members()[j],
            forall|i: int|
                0 <= i < self.members().len() ==> 1 <= #[trigger] self.members()[i] <= 8,
            self.members().len() <= 8,
    {
        lemma_members_from(self.0, 1);
    }
}

impl Default for ChannelMask {
    fn default() -> (m: Self)
        ensures
            m@ == Set::<u8>::empty(),
    {
        ChannelMask::new()
    }
}

pub proof fn lemma_digit_csv_len(s: Seq<u8>)
    ensures
        s.len() == 0 ==> digit_csv(s).len() == 0,
        s.len() > 0 ==> digit_csv(s).len() == 2 * s.len() - 1,
    decreases s.len(),
{
    if s.len() > 1 {
        lemma_digit_csv_len(s.drop_last());
    }
}

/// Writes `chs[..k]` as comma-separated digits to the front of `buf`.
pub fn write_digit_csv(chs: &[u8; 8], k: usize, buf: &mut [u8; 32]) -> (n: usize)
    requires
        k <= 8,
        forall|i: int| 0 <= i < k ==> chs@[i] <= 9,
    ensures
        n <= 32,
        final(buf)@.subrange(0, n as int) == digit_csv(chs@.subrange(0, k as int)),
        final(buf)@.subrange(n as int, 32) == old(buf)@.subrange(n as int, 32),
{
    let mut pos: usize = 0;
    let mut i: usize = 0;
    while i < k
        invariant
            k <= 8,
            i <= k,
            forall|j: int| 0 <= j < k ==> chs@[j] <= 9,
            buf@.len() == 32,
            pos == (if i == 0 {
                0
            } else {
                2 * i - 1
            }),
            buf@.subrange(0, pos as int) == digit_csv(chs@.subrange(0, i as int)),
            forall|j: int| pos <= j < 32 ==> buf@[j] == old(buf)@[j],
        decreases k - i,
    {
        let ghost prev = chs@.subrange(0, i as int);
        let ghost next = chs@.subrange(0, i + 1);
        assert(next.drop_last() =~= prev);
        let ghost before = buf@.subrange(0, pos as int);
        if i > 0 {
            buf[pos] = 44u8;
            pos = pos + 1;
        }
        buf[pos] = 48u8 + chs[i];
        pos = pos + 1;
        i = i + 1;
        proof {
            if i == 1 {
                assert(buf@.subrange(0, pos as int) =~= seq![digit_byte(chs@[0])]);
                assert(next =~= seq![chs@[0]]);
            } else {
                assert(buf@.subrange(0, pos as int) =~= before + seq![44u8, digit_byte(next.last())]);
            }
        }
    }
    assert(buf@.subrange(pos as int, 32) =~= old(buf)@.subrange(pos as int, 32));
    pos
}

/// An iterator over the channels of a mask, lowest first.
pub struct ChannelMaskIter(ChannelMask, u8);

impl ChannelMaskIter {
    /// The mask being walked.
    pub closed spec fn mask(self) -> ChannelMask {
        self.0
    }

    /// The last channel handed out (0 before the first).
    pub closed spec fn position(self) -> u8 {
        self.1
    }

    pub closed spec fn wf(self) -> bool {
        self.1 <= 8
    }

    /// The channels still to come, in order.
    pub closed spec fn remaining(self) -> Seq<u8> {
        members_from(self.0.0, self.1 + 1)
    }

    /// The next active channel, or `None` once all have been handed out.
    pub fn next(&mut self) -> (r: Option<u8>)
        ensures
            final(self).mask() == old(self).mask(),
            r == next_after(old(self).mask().bits(), old(self).position() as int),
            old(self).wf() ==> final(self).wf(),
            old(self).wf() ==> match r {
                Some(c) => old(self).remaining() == seq![c] + final(self).remaining(),
                None => old(self).remaining() == Seq::<u8>::empty() && final(self).remaining()
                    == Seq::<u8>::empty(),
            },
    {
        let ghost p = self.1 as int;
        proof {
            if p <= 8 {
                lemma_next_after(self.0.0, p);
            }
        }
        while self.1 < 8
            invariant
                self.0 == old(self).0,
                p == old(self).1 as int,
                p <= 8 ==> members_from(self.0.0, p + 1) == match next_after(self.0.0, p) {
                    Some(c) => seq![c] + members_from(self.0.0, c + 1),
                    None => Seq::<u8>::empty(),
                },
                p <= self.1 || p > 8,
                p <= 8 ==> self.1 <= 8,
                p > 8 ==> self.1 == old(self).1,
                next_after(self.0.0, p) == next_after(self.0.0, self.1 as int),
            decreases 8 - self.1,
        {
            let ghost q = self.1 as int;
            self.1 = self.1 + 1;
            if self.0.has(self.1) {
                assert(bit_set(self.0.0, q + 1));
                assert(next_after(self.0.0, q) == Some((q + 1) as u8));
                return Some(self.1);
            }
            assert(!bit_set(self.0.0, q + 1));
        }
        None
    }
}

} // verus!
