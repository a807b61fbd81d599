//! A cursor over an ordered list of byte ranges that yields one record per
//! step and never copies the ranges.
//!
//! The cursor is a pair: the index of the current range and the byte offset
//! in it. A step skips ranges that are too short for a record, decodes one
//! record where the cursor stands and moves the cursor by the record's
//! stride. What a step returns is `spec_next`; what all the steps return one
//! after the other is `spec_items`.

use crate::wire::{put_bytes, read_u8};
use std::marker::PhantomData;
use vstd::prelude::*;
use vstd::slice::slice_subrange;

verus! {

/// What the bytes at the cursor decode to.
pub enum Decoded<T> {
    /// A record, and the number of bytes from its start to the next record.
    /// A stream ends at a record that is 0 bytes from the next, and passes
    /// over the rest of the range where the next record would start behind
    /// the end of the range.
    Item(usize, T),
    /// A record that would run past the end of its range: the rest of the
    /// range is passed over.
    Skip,
    /// No record: the stream ends here.
    Stop,
}

/// The outcome `d` with its record replaced by the record's view.
pub open spec fn decoded_view<T: View>(d: Decoded<T>) -> Decoded<T::V> {
    match d {
        Decoded::Item(n, v) => Decoded::Item(n, v@),
        Decoded::Skip => Decoded::Skip,
        Decoded::Stop => Decoded::Stop,
    }
}

/// A record that a `BufferChainer` can yield.
pub trait ChainItem: Sized + View {
    /// The number of bytes that must be left in a range for a record to be
    /// decoded there.
    spec fn spec_header_len() -> nat;

    /// What `s`, the bytes from the cursor to the end of its range, decode
    /// to.
    spec fn spec_from_bytes(s: Seq<u8>) -> Decoded<Self::V>;

    /// The number of bytes that must be left in a range for a record to be
    /// decoded there.
    fn header_len() -> (n: usize)
        ensures
            n == Self::spec_header_len(),
    ;

    /// Decodes the record at the front of `input`.
    fn from_bytes(input: &[u8]) -> (r: Decoded<Self>)
        requires
            input@.len() >= Self::spec_header_len(),
        ensures
            decoded_view(r) == Self::spec_from_bytes(input@),
    ;
}

impl ChainItem for u8 {
    open spec fn spec_header_len() -> nat {
        1
    }

    open spec fn spec_from_bytes(s: Seq<u8>) -> Decoded<u8> {
        Decoded::Item(1, s[0])
    }

    fn header_len() -> (n: usize) {
        1
    }

    fn from_bytes(input: &[u8]) -> (r: Decoded<u8>) {
        Decoded::Item(1, read_u8(input, 0))
    }
}

/// The ranges one after the other, as one sequence of bytes.
pub open spec fn concat(ranges: Seq<Seq<u8>>) -> Seq<u8>
    decreases ranges.len(),
{
    if ranges.len() == 0 {
        Seq::empty()
    } else {
        concat(ranges.drop_last()) + ranges.last()
    }
}

/// One step from the cursor `(idx, off)`: the record that is yielded and the
/// cursor after it, or `None` where the stream has ended.
pub open spec fn spec_next<T: ChainItem>(ranges: Seq<Seq<u8>>, idx: nat, off: nat) -> Option<
    (T::V, nat, nat),
>
    decreases ranges.len() - idx,
{
    if idx >= ranges.len() {
        None
    } else {
        let buf = ranges[idx as int];
        if off > buf.len() || buf.len() - off < T::spec_header_len() {
            spec_next::<T>(ranges, idx + 1, 0)
        } else {
            match T::spec_from_bytes(buf.skip(off as int)) {
                Decoded::Item(n, v) => if n == 0 {
                    None
                } else if n > buf.len() - off {
                    spec_next::<T>(ranges, idx + 1, 0)
                } else {
                    Some((v, idx, (off + n) as nat))
                },
                Decoded::Skip => spec_next::<T>(ranges, idx + 1, 0),
                Decoded::Stop => None,
            }
        }
    }
}

/// The bytes that lie at or after the cursor `(idx, off)`.
pub open spec fn bytes_left(ranges: Seq<Seq<u8>>, idx: nat, off: nat) -> nat
    decreases ranges.len() - idx,
{
    if idx >= ranges.len() {
        0
    } else {
        let here = if off <= ranges[idx as int].len() {
            (ranges[idx as int].len() - off) as nat
        } else {
            0
        };
        here + bytes_left(ranges, idx + 1, 0)
    }
}

/// A step that yields a record leaves the cursor inside the ranges and with
/// fewer bytes after it.
pub proof fn lemma_next_advances<T: ChainItem>(ranges: Seq<Seq<u8>>, idx: nat, off: nat)
    ensures
        spec_next::<T>(ranges, idx, off) matches Some((_, i, o)) ==> idx <= i < ranges.len() && o
            <= ranges[i as int].len() && bytes_left(ranges, i, o) < bytes_left(ranges, idx, off),
    decreases ranges.len() - idx,
{
    if idx < ranges.len() {
        lemma_next_advances::<T>(ranges, idx + 1, 0);
    }
}

/// Every record that the steps from the cursor `(idx, off)` yield, in order.
pub open spec fn spec_items<T: ChainItem>(ranges: Seq<Seq<u8>>, idx: nat, off: nat) -> Seq<T::V>
    decreases bytes_left(ranges, idx, off),
{
    match spec_next::<T>(ranges, idx, off) {
        None => Seq::empty(),
        Some((v, i, o)) => {
            if bytes_left(ranges, i, o) < bytes_left(ranges, idx, off) {
                seq![v] + spec_items::<T>(ranges, i, o)
            } else {
                Seq::empty()
            }
        },
    }
}

/// The views of the buffers, in order.
pub open spec fn views(buffers: Seq<&[u8]>) -> Seq<Seq<u8>> {
    Seq::new(buffers.len(), |i: int| buffers[i]@)
}

/// A lazy stream of records of type `T` over an ordered list of byte ranges.
pub struct BufferChainer<'a, T: ChainItem> {
    buffers: Vec<&'a [u8]>,
    buffer_index: usize,
    byte_offset: usize,
    _phantom: PhantomData<T>,
}

impl<'a, T: ChainItem> BufferChainer<'a, T> {
    /// The ranges that the stream runs over.
    pub closed spec fn ranges(&self) -> Seq<Seq<u8>> {
        views(self.buffers@)
    }

    /// The index of the range that the cursor is in.
    pub closed spec fn index(&self) -> nat {
        self.buffer_index as nat
    }

    /// The offset of the cursor in its range.
    pub closed spec fn offset(&self) -> nat {
        self.byte_offset as nat
    }

    /// The records that the stream has yet to yield.
    pub open spec fn remaining(&self) -> Seq<T::V> {
        spec_items::<T>(self.ranges(), self.index(), self.offset())
    }

    /// A stream over `buffers`, with the cursor at the start of the first.
    pub fn new(buffers: Vec<&'a [u8]>) -> (r: Self)
        ensures
            r.ranges() == views(buffers@),
            r.index() == 0,
            r.offset() == 0,
    {
        BufferChainer { buffers, buffer_index: 0, byte_offset: 0, _phantom: PhantomData }
    }

    /// All the bytes of the ranges, one range after the other, wherever the
    /// cursor stands.
    pub fn read_all(&self) -> (r: Vec<u8>)
        ensures
            r@ == concat(self.ranges()),
    {
        let mut out: Vec<u8> = Vec::new();
        let mut i: usize = 0;
        while i < self.buffers.len()
            invariant
                i <= self.buffers@.len(),
                out@ == concat(self.ranges().take(i as int)),
            decreases self.buffers@.len() - i,
        {
            let buf: &[u8] = self.buffers[i];
            put_bytes(&mut out, buf);
            proof {
                let now = self.ranges().take(i + 1);
                assert(now.drop_last() =~= self.ranges().take(i as int));
                assert(now.last() == buf@);
            }
            i += 1;
        }
        assert(self.ranges().take(i as int) =~= self.ranges());
        out
    }

    /// One step: the next record, or `None` when the stream has ended. After
    /// `None` the cursor stands behind the last range and every further step
    /// gives `None` again.
    pub fn next(&mut self) -> (r: Option<T>)
        ensures
            final(self).ranges() == old(self).ranges(),
            match spec_next::<T>(old(self).ranges(), old(self).index(), old(self).offset()) {
                Some((v, i, o)) => r matches Some(item) && item@ == v && final(self).index() == i
                    && final(self).offset() == o,
                None => r is None && final(self).index() >= final(self).ranges().len(),
            },
    {
        while self.buffer_index < self.buffers.len()
            invariant
                self.ranges() == old(self).ranges(),
                spec_next::<T>(self.ranges(), self.index(), self.offset()) == spec_next::<T>(
                    old(self).ranges(),
                    old(self).index(),
                    old(self).offset(),
                ),
            decreases self.buffers@.len() - self.buffer_index,
        {
            let buf: &[u8] = self.buffers[self.buffer_index];
            let len = buf.len();
            assert(buf@ == self.ranges()[self.buffer_index as int]);
            if self.byte_offset > len || len - self.byte_offset < T::header_len() {
                self.buffer_index += 1;
                self.byte_offset = 0;
            } else {
                let window = slice_subrange(buf, self.byte_offset, len);
                assert(window@ == buf@.skip(self.byte_offset as int));
                match T::from_bytes(window) {
                    Decoded::Item(n, v) => {
                        if n == 0 {
                            self.buffer_index = self.buffers.len();
                            self.byte_offset = 0;
                            return None;
                        } else if n > len - self.byte_offset {
                            self.buffer_index += 1;
                            self.byte_offset = 0;
                        } else {
                            self.byte_offset += n;
                            return Some(v);
                        }
                    },
                    Decoded::Skip => {
                        self.buffer_index += 1;
                        self.byte_offset = 0;
                    },
                    Decoded::Stop => {
                        self.buffer_index = self.buffers.len();
                        self.byte_offset = 0;
                        return None;
                    },
                }
            }
        }
        None
    }

    /// Every record that is left, in order; the stream has ended afterwards.
    pub fn drain(&mut self) -> (r: Vec<T>)
        ensures
            final(self).ranges() == old(self).ranges(),
            final(self).remaining() == Seq::<T::V>::empty(),
            r@.len() == old(self).remaining().len(),
            forall|k: int| 0 <= k < r@.len() ==> (#[trigger] r@[k])@ == old(self).remaining()[k],
    {
        let mut out: Vec<T> = Vec::new();
        let ghost done: Seq<T::V> = Seq::empty();
        loop
            invariant
                self.ranges() == old(self).ranges(),
                out@.len() == done.len(),
                forall|k: int| 0 <= k < out@.len() ==> (#[trigger] out@[k])@ == done[k],
                done + self.remaining() == old(self).remaining(),
            ensures
                self.ranges() == old(self).ranges(),
                self.remaining() == Seq::<T::V>::empty(),
                out@.len() == old(self).remaining().len(),
                forall|k: int|
                    0 <= k < out@.len() ==> (#[trigger] out@[k])@ == old(self).remaining()[k],
            decreases bytes_left(self.ranges(), self.index(), self.offset()),
        {
            let ghost before = (self.ranges(), self.index(), self.offset());
            proof {
                lemma_next_advances::<T>(before.0, before.1, before.2);
            }
            match self.next() {
                Some(v) => {
                    proof {
                        let rest = spec_items::<T>(self.ranges(), self.index(), self.offset());
                        assert(spec_items::<T>(before.0, before.1, before.2) == seq![v@] + rest);
                        assert(done.push(v@) + rest =~= done + (seq![v@] + rest));
                        done = done.push(v@);
                    }
                    out.push(v);
                },
                None => {
                    proof {
                        assert(spec_items::<T>(before.0, before.1, before.2) =~= Seq::<
                            T::V,
                        >::empty());
                        assert(done + Seq::<T::V>::empty() =~= done);
                    }
                    break ;
                },
            }
        }
        out
    }
}

/// A stream of bytes yields the bytes of its ranges, one range after the
/// other.
pub proof fn lemma_byte_stream_is_concat(ranges: Seq<Seq<u8>>)
    ensures
        spec_items::<u8>(ranges, 0, 0) == concat(ranges),
{
    lemma_byte_items_from(ranges, 0, 0);
    assert(ranges.skip(0) =~= ranges);
    if ranges.len() > 0 {
        assert(ranges[0].skip(0) =~= ranges[0]);
        lemma_concat_first(ranges);
    }
}

/// The ranges as one sequence of bytes start with the first range.
pub proof fn lemma_concat_first(ranges: Seq<Seq<u8>>)
    requires
        ranges.len() > 0,
    ensures
        concat(ranges) == ranges[0] + concat(ranges.skip(1)),
    decreases ranges.len(),
{
    if ranges.len() == 1 {
        assert(ranges.drop_last() =~= Seq::<Seq<u8>>::empty());
        assert(ranges.skip(1) =~= Seq::<Seq<u8>>::empty());
        assert(concat(ranges) =~= ranges[0] + concat(ranges.skip(1)));
    } else {
        lemma_concat_first(ranges.drop_last());
        assert(ranges.drop_last().skip(1) =~= ranges.skip(1).drop_last());
        assert(concat(ranges) =~= ranges[0] + concat(ranges.skip(1)));
    }
}

proof fn lemma_byte_items_from(ranges: Seq<Seq<u8>>, idx: nat, off: nat)
    ensures
        idx < ranges.len() && off <= ranges[idx as int].len() ==> spec_items::<u8>(ranges, idx, off)
            == ranges[idx as int].skip(off as int) + concat(ranges.skip(idx as int + 1)),
        idx >= ranges.len() ==> spec_items::<u8>(ranges, idx, off) == Seq::<u8>::empty(),
    decreases bytes_left(ranges, idx, off), ranges.len() - idx,
{
    lemma_next_advances::<u8>(ranges, idx, off);
    if idx < ranges.len() && off <= ranges[idx as int].len() {
        let buf = ranges[idx as int];
        if off < buf.len() {
            assert(spec_next::<u8>(ranges, idx, off) == Some((buf[off as int], idx, off + 1)));
            lemma_byte_items_from(ranges, idx, off + 1);
            assert(buf.skip(off as int) =~= seq![buf[off as int]] + buf.skip(off as int + 1));
            assert(spec_items::<u8>(ranges, idx, off) =~= buf.skip(off as int) + concat(
                ranges.skip(idx as int + 1),
            ));
        } else {
            assert(buf.skip(off as int) =~= Seq::<u8>::empty());
            assert(spec_next::<u8>(ranges, idx, off) == spec_next::<u8>(ranges, idx + 1, 0));
            if idx + 1 < ranges.len() {
                lemma_byte_items_from(ranges, idx + 1, 0);
                let tail = ranges.skip(idx as int + 1);
                lemma_concat_first(tail);
                assert(tail.skip(1) =~= ranges.skip(idx as int + 2));
                assert(ranges[idx as int + 1].skip(0) =~= ranges[idx as int + 1]);
                assert(spec_items::<u8>(ranges, idx, off) == spec_items::<u8>(ranges, idx + 1, 0));
            } else {
                assert(ranges.skip(idx as int + 1) =~= Seq::<Seq<u8>>::empty());
                assert(spec_next::<u8>(ranges, idx + 1, 0) is None);
            }
        }
    }
}

} // verus!
