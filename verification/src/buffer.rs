//! The buffer itself: storage, cursors, and the operations on them.

use vstd::prelude::*;
use vstd::slice::slice_subrange;
use crate::error::BipBufferError;
use crate::laws::law_commit_extends;
use crate::layout::{least, overlay, Layout};
use crate::search::{find_first, first_occurrence, occurs_at};

verus! {

/// A fixed-capacity byte buffer with two data regions and one reservation slot.
#[derive(Debug)]
pub struct BipBuffer {
    buffer: Vec<u8>,
    capacity: usize,
    a_start: usize,
    a_end: usize,
    b_end: usize,
    reserve_start: usize,
    reserve_size: usize,
}

/// The text that `format!` produces for the eight numbers of a buffer's state.
pub uninterp spec fn cursor_text(
    capacity: usize,
    len: usize,
    free: usize,
    a_start: usize,
    a_end: usize,
    b_end: usize,
    reserve_start: usize,
    reserve_size: usize,
) -> Seq<char>;

/// Renders the numbers of a buffer's state with `format!`. Trusted: the text
/// is a function of the eight numbers alone, which `cursor_text` names.
#[verifier::external_body]
fn render_cursors(
    capacity: usize,
    len: usize,
    free: usize,
    a_start: usize,
    a_end: usize,
    b_end: usize,
    reserve_start: usize,
    reserve_size: usize,
) -> (text: String)
    ensures
        text@ == cursor_text(
            capacity,
            len,
            free,
            a_start,
            a_end,
            b_end,
            reserve_start,
            reserve_size,
        ),
{
    format!(
        "BipBuffer {{ capacity: {}, len: {}, free: {}, a: {}..{}, b: 0..{}, reserve: {}+{} }}",
        capacity, len, free, a_start, a_end, b_end, reserve_start, reserve_size
    )
}

/// The smaller of two sizes.
fn smaller(x: usize, y: usize) -> (r: usize)
    ensures
        r == least(x as int, y as int),
{
    if x <= y {
        x
    } else {
        y
    }
}

/// Borrows `size` bytes of `storage` from `start` on; what the caller stores
/// there is what `storage` holds afterwards, and nothing else changes.
fn window(storage: &mut Vec<u8>, start: usize, size: usize) -> (region: &mut [u8])
    requires
        start + size <= old(storage)@.len(),
    ensures
        region@ == old(storage)@.subrange(start as int, start + size),
        final(region)@.len() == size ==> final(storage)@ == overlay(
            old(storage)@,
            start as int,
            final(region)@,
        ),
        final(region)@.len() == size ==> final(storage)@.len() == old(storage)@.len(),
{
    let whole = storage.as_mut_slice();
    let (_head, rest) = whole.split_at_mut(start);
    let (region, _tail) = rest.split_at_mut(size);
    region
}

/// Stores `data` in `region`, byte for byte.
fn fill(region: &mut [u8], data: &[u8])
    requires
        old(region)@.len() == data@.len(),
    ensures
        final(region)@ == data@,
{
    let mut i: usize = 0;
    while i < data.len()
        invariant
            i <= data@.len(),
            region@.len() == data@.len(),
            forall|j: int| 0 <= j < i ==> region@[j] == data@[j],
        decreases data@.len() - i,
    {
        region[i] = data[i];
        i += 1;
    }
    assert(region@ =~= data@);
}

/// Moves the bytes of `[from, to)` to the front of `storage`.
fn shift_down(storage: &mut Vec<u8>, from: usize, to: usize)
    requires
        from <= to <= old(storage)@.len(),
    ensures
        final(storage)@ == overlay(old(storage)@, 0, old(storage)@.subrange(from as int, to as int)),
{
    let count: usize = to - from;
    let mut i: usize = 0;
    while i < count
        invariant
            i <= count,
            count == to - from,
            to <= storage@.len(),
            storage@.len() == old(storage)@.len(),
            forall|j: int| 0 <= j < i ==> storage@[j] == old(storage)@[from + j],
            forall|j: int| i <= j < storage@.len() ==> storage@[j] == old(storage)@[j],
        decreases count - i,
    {
        let byte: u8 = storage[from + i];
        storage[i] = byte;
        i += 1;
    }
    assert(storage@ =~= overlay(old(storage)@, 0, old(storage)@.subrange(from as int, to as int)));
}

impl View for BipBuffer {
    type V = Layout;

    closed spec fn view(&self) -> Layout {
        Layout {
            storage: self.buffer@,
            a_start: self.a_start as int,
            a_end: self.a_end as int,
            b_end: self.b_end as int,
            reserve_start: self.reserve_start as int,
            reserve_size: self.reserve_size as int,
        }
    }
}

impl BipBuffer {
    /// The capacity that the buffer was made with.
    pub closed spec fn fixed_capacity(&self) -> int {
        self.capacity as int
    }

    /// The buffer is in a valid state: its layout is well formed and its
    /// capacity is the length of its storage.
    pub open spec fn wf(&self) -> bool {
        &&& self@.wf()
        &&& self.fixed_capacity() == self@.capacity()
    }

    /// A buffer of `capacity` zero bytes with no data and no reservation.
    /// No allocation holds more than `isize::MAX` bytes.
    pub fn new(capacity: usize) -> (buf: Self)
        requires
            capacity <= isize::MAX,
        ensures
            buf.wf(),
            buf@ == (Layout {
                storage: Seq::new(capacity as nat, |i: int| 0u8),
                a_start: 0,
                a_end: 0,
                b_end: 0,
                reserve_start: 0,
                reserve_size: 0,
            }),
    {
        let buffer: Vec<u8> = vec![0u8; capacity];
        assert(buffer@ =~= Seq::new(capacity as nat, |i: int| 0u8));
        BipBuffer {
            buffer,
            capacity,
            a_start: 0,
            a_end: 0,
            b_end: 0,
            reserve_start: 0,
            reserve_size: 0,
        }
    }

    /// The fixed size of the storage.
    pub fn capacity(&self) -> (n: usize)
        requires
            self.wf(),
        ensures
            n == self@.capacity(),
    {
        self.capacity
    }

    /// The number of bytes stored.
    pub fn len(&self) -> (n: usize)
        requires
            self.wf(),
        ensures
            n == self@.len(),
            n == self@.contents().len(),
            n <= self@.capacity(),
    {
        (self.a_end - self.a_start) + self.b_end
    }

    /// Whether no byte is stored.
    pub fn is_empty(&self) -> (empty: bool)
        requires
            self.wf(),
        ensures
            empty == (self@.len() == 0),
    {
        self.len() == 0
    }

    /// The bytes that are neither stored nor reserved.
    pub fn free_space(&self) -> (n: usize)
        requires
            self.wf(),
        ensures
            n == self@.free_space(),
            n + self@.len() + self@.reserve_size == self@.capacity(),
    {
        self.capacity - self.len() - self.reserve_size
    }

    /// The end of region B, which starts at offset zero.
    pub fn b_end(&self) -> (n: usize)
        ensures
            n == self@.b_end,
    {
        self.b_end
    }

    /// Reserves a contiguous region of exactly `size` bytes for the caller to
    /// fill; `commit` then turns what was filled into data. The region lies
    /// behind region A if `size` bytes fit there, else between region B and
    /// region A. A request for no bytes yields an empty region and changes
    /// nothing; a request beyond the capacity fails with `BufferOverflow` and
    /// changes nothing; any other request drops the pending reservation, and
    /// fails with `BufferFull` if neither gap is large enough.
    ///
    /// The buffer after the call is the buffer with the reservation recorded
    /// and with the bytes that the caller leaves in the region stored there;
    /// this is stated for a region that ends with the length it was handed
    /// out with, as every slice does.
    pub fn reserve(&mut self, size: usize) -> (res: Result<&mut [u8], BipBufferError>)
        requires
            old(self).wf(),
        ensures
            res is Ok <==> old(self)@.can_reserve(size as int),
            match res {
                Ok(region) => {
                    let granted = old(self)@.reserved(size as int);
                    &&& region@.len() == size
                    &&& region@ =~= granted.storage.subrange(
                        granted.reserve_start,
                        granted.reserve_start + size,
                    )
                    &&& size > 0 ==> granted.reservation_in_place() && granted.reserve_size == size
                    &&& final(region)@.len() == size ==> {
                        &&& final(self).wf()
                        &&& final(self)@ =~= granted.filled(final(region)@)
                    }
                },
                Err(e) => {
                    &&& final(self).wf()
                    &&& final(self)@ == old(self)@.reserved(size as int)
                    &&& e == if size > old(self)@.capacity() {
                        BipBufferError::BufferOverflow { size, capacity: old(self)@.capacity() as usize }
                    } else {
                        BipBufferError::BufferFull { requested: size }
                    }
                },
            },
            match res {
                Ok(region) => final(region)@.len() == size ==> {
                    &&& final(self)@.len() == old(self)@.len()
                    &&& final(self)@.contents() =~= old(self)@.contents()
                    &&& size > 0 ==> final(self)@.free_space() == old(self)@.capacity() - old(
                        self,
                    )@.len() - size
                },
                Err(_) => true,
            },
            match res {
                Ok(region) => size == 0 && final(region)@.len() == 0 ==> final(self)@ == old(
                    self,
                )@,
                Err(_) => true,
            },
    {
        if size == 0 {
            let region = window(&mut self.buffer, self.reserve_start, 0);
            assert(final(region)@.len() == 0 ==> overlay(
                old(self)@.storage,
                old(self)@.reserve_start,
                final(region)@,
            ) =~= old(self)@.storage);
            return Ok(region);
        }
        if size > self.capacity {
            return Err(BipBufferError::BufferOverflow { size, capacity: self.capacity });
        }
        self.reserve_size = 0;
        if self.capacity - self.a_end >= size {
            self.reserve_start = self.a_end;
            self.reserve_size = size;
            return Ok(window(&mut self.buffer, self.reserve_start, size));
        }
        if self.a_start - self.b_end >= size {
            self.reserve_start = self.b_end;
            self.reserve_size = size;
            return Ok(window(&mut self.buffer, self.reserve_start, size));
        }
        Err(BipBufferError::BufferFull { requested: size })
    }

    /// Turns the first `size` bytes of the pending reservation into data and
    /// drops the reservation. The bytes extend region A where the reservation
    /// starts at its end, else region B where it starts at the end of B; that
    /// is where `reserve` grants it. A reservation that a later consume or
    /// compaction has moved the regions away from is dropped without adding
    /// data. Fails, and changes nothing, if `size` exceeds what is reserved.
    pub fn commit(&mut self, size: usize) -> (res: Result<(), BipBufferError>)
        requires
            old(self).wf(),
        ensures
            final(self).wf(),
            res is Ok <==> size <= old(self)@.reserve_size,
            match res {
                Ok(_) => {
                    &&& final(self)@ == old(self)@.committed(size as int)
                    &&& final(self)@.reserve_size == 0
                    &&& old(self)@.reservation_in_place() ==> final(self)@.len() == old(
                        self,
                    )@.len() + size
                },
                Err(e) => {
                    &&& final(self)@ == old(self)@
                    &&& e == (BipBufferError::InvalidCommitSize {
                        size,
                        max: old(self)@.reserve_size as usize,
                    })
                },
            },
            res is Ok && old(self)@.reservation_in_place() ==> final(self)@.contents() == if size
                > 0 && old(self)@.reserve_start != old(self)@.a_end {
                old(self)@.contents() + old(self)@.storage.subrange(
                    old(self)@.b_end,
                    old(self)@.b_end + size,
                )
            } else {
                old(self)@.region_a() + old(self)@.storage.subrange(
                    old(self)@.a_end,
                    old(self)@.a_end + size,
                ) + old(self)@.region_b()
            },
    {
        proof {
            if size <= self.reserve_size && self@.reservation_in_place() {
                law_commit_extends(self@, size as int);
            }
        }
        if size > self.reserve_size {
            return Err(BipBufferError::InvalidCommitSize { size, max: self.reserve_size });
        }
        if size == 0 {
            self.reserve_size = 0;
            return Ok(());
        }
        if self.reserve_start == self.a_end {
            self.a_end = smaller(self.a_end + size, self.capacity);
        } else if self.reserve_start == self.b_end {
            self.b_end = smaller(self.b_end + size, smaller(self.a_start, self.capacity));
        }
        self.reserve_size = 0;
        Ok(())
    }

    /// Reserves room for `data`, stores it and commits it, so that the buffer
    /// holds `data.len()` bytes more: behind region A where they fit there,
    /// else behind region B. Empty `data` changes nothing. Fails as `reserve`
    /// does, and then leaves the buffer as the failed reservation left it.
    pub fn write(&mut self, data: &[u8]) -> (res: Result<(), BipBufferError>)
        requires
            old(self).wf(),
        ensures
            final(self).wf(),
            res is Ok <==> old(self)@.can_reserve(data@.len() as int),
            match res {
                Ok(_) => final(self)@ == old(self)@.written(data@),
                Err(e) => {
                    &&& final(self)@ == old(self)@.reserved(data@.len() as int)
                    &&& e == if data@.len() > old(self)@.capacity() {
                        BipBufferError::BufferOverflow {
                            size: data@.len() as usize,
                            capacity: old(self)@.capacity() as usize,
                        }
                    } else {
                        BipBufferError::BufferFull { requested: data@.len() as usize }
                    }
                },
            },
            res is Ok ==> final(self)@.len() == old(self)@.len() + data@.len(),
            res is Ok && old(self)@.len() == 0 ==> final(self)@.contents() == data@,
            res is Ok ==> final(self)@.contents() == if old(self)@.fits_after(
                data@.len() as int,
            ) {
                old(self)@.region_a() + data@ + old(self)@.region_b()
            } else {
                old(self)@.region_a() + old(self)@.region_b() + data@
            },
    {
        if data.len() == 0 {
            proof {
                old(self)@.lemma_written(data@);
                if old(self)@.len() == 0 {
                    assert(self@.contents() =~= data@);
                }
            }
            return Ok(());
        }
        match self.reserve(data.len()) {
            Ok(region) => {
                fill(region, data);
            },
            Err(e) => {
                return Err(e);
            },
        }
        let done = self.commit(data.len());
        proof {
            assert(self@ =~= old(self)@.written(data@));
            old(self)@.lemma_written(data@);
            if old(self)@.len() == 0 {
                assert(self@.contents() =~= data@);
            }
        }
        done
    }

    /// The first contiguous block of data: region A, or region B once A is
    /// empty. Empty if the buffer is.
    pub fn read(&self) -> (block: &[u8])
        requires
            self.wf(),
        ensures
            block@ == self@.first_block(),
    {
        if self.a_start < self.a_end {
            slice_subrange(self.buffer.as_slice(), self.a_start, self.a_end)
        } else {
            slice_subrange(self.buffer.as_slice(), 0, self.b_end)
        }
    }

    /// Removes `size` bytes from the front of the block that `read` returns.
    /// Fails, and changes nothing, if that block is shorter than `size`.
    pub fn consume(&mut self, size: usize) -> (res: Result<(), BipBufferError>)
        requires
            old(self).wf(),
        ensures
            final(self).wf(),
            res is Ok <==> size <= old(self)@.first_block().len(),
            match res {
                Ok(_) => {
                    &&& final(self)@ == old(self)@.consumed(size as int)
                    &&& final(self)@.len() == old(self)@.len() - size
                    &&& final(self)@.contents() == old(self)@.contents().skip(size as int)
                },
                Err(e) => {
                    &&& final(self)@ == old(self)@
                    &&& e == (BipBufferError::InvalidCommitSize {
                        size,
                        max: old(self)@.first_block().len() as usize,
                    })
                },
            },
    {
        if size == 0 {
            assert(self@.contents().skip(0) =~= self@.contents());
            return Ok(());
        }
        let available: usize = self.read().len();
        if size > available {
            return Err(BipBufferError::InvalidCommitSize { size, max: available });
        }
        proof {
            old(self)@.lemma_consumed(size as int);
        }
        if self.a_start < self.a_end {
            self.a_start = smaller(self.a_start + size, self.a_end);
            if self.a_start == self.a_end && self.b_end > 0 {
                self.a_start = 0;
                self.a_end = self.b_end;
                self.b_end = 0;
            }
        } else if self.b_end > 0 {
            if size >= self.b_end {
                self.b_end = 0;
            } else {
                let remaining: usize = self.b_end - size;
                shift_down(&mut self.buffer, size, self.b_end);
                self.b_end = remaining;
            }
        }
        assert(self@ =~= old(self)@.consumed(size as int));
        Ok(())
    }

    /// Takes `size` bytes out of the buffer, across both regions if need be.
    /// Fails with `NoData` if fewer than `size` bytes are stored; the buffer
    /// is then empty.
    pub fn read_and_consume(&mut self, size: usize) -> (res: Result<Vec<u8>, BipBufferError>)
        requires
            old(self).wf(),
        ensures
            final(self).wf(),
            final(self)@ == old(self)@.taken(size as int),
            final(self)@.contents() == old(self)@.contents().skip(
                least(size as int, old(self)@.len()),
            ),
            res is Ok <==> size <= old(self)@.len(),
            match res {
                Ok(bytes) => bytes@ == old(self)@.contents().take(size as int),
                Err(e) => e == BipBufferError::NoData,
            },
    {
        let mut result: Vec<u8> = Vec::new();
        let mut remaining: usize = size;
        while remaining > 0 && !self.is_empty()
            invariant
                self.wf(),
                old(self).wf(),
                remaining <= size,
                size - remaining <= old(self)@.len(),
                remaining == size || remaining == 0 || size - remaining >= old(
                    self,
                )@.first_block().len(),
                self@ == old(self)@.taken(size - remaining),
                result@ == old(self)@.contents().take(size - remaining),
            decreases remaining,
        {
            let ghost done = size - remaining;
            let block = self.read();
            let to_read: usize = smaller(remaining, block.len());
            proof {
                old(self)@.lemma_taken(done);
                old(self)@.lemma_taken_step(done, to_read as int);
            }
            result.extend_from_slice(slice_subrange(block, 0, to_read));
            let _ = self.consume(to_read);
            remaining -= to_read;
            proof {
                self@.lemma_first_block();
                assert(result@ =~= old(self)@.contents().take(done + to_read));
            }
        }
        proof {
            old(self)@.lemma_taken(size - remaining);
            if size >= old(self)@.len() {
                old(self)@.lemma_taken_saturates(size as int);
            }
            old(self)@.lemma_taken(size as int);
        }
        if result.len() < size {
            return Err(BipBufferError::NoData);
        }
        Ok(result)
    }

    /// A copy of all stored bytes in reading order.
    pub fn read_all(&self) -> (bytes: Vec<u8>)
        requires
            self.wf(),
        ensures
            bytes@ == self@.contents(),
    {
        let mut result: Vec<u8> = Vec::new();
        result.extend_from_slice(slice_subrange(self.buffer.as_slice(), self.a_start, self.a_end));
        result.extend_from_slice(slice_subrange(self.buffer.as_slice(), 0, self.b_end));
        assert(result@ =~= self@.contents());
        result
    }

    /// A copy of the first `size` stored bytes, or of all of them if there are
    /// fewer.
    pub fn peek(&self, size: usize) -> (bytes: Vec<u8>)
        requires
            self.wf(),
        ensures
            bytes@ == self@.contents().take(least(size as int, self@.len())),
    {
        let mut result: Vec<u8> = Vec::new();
        let from_a: usize = smaller(size, self.a_end - self.a_start);
        result.extend_from_slice(
            slice_subrange(self.buffer.as_slice(), self.a_start, self.a_start + from_a),
        );
        let from_b: usize = smaller(size - from_a, self.b_end);
        result.extend_from_slice(slice_subrange(self.buffer.as_slice(), 0, from_b));
        assert(result@ =~= self@.contents().take(least(size as int, self@.len())));
        result
    }

    /// Forgets all data and the pending reservation. The storage keeps its
    /// bytes.
    pub fn clear(&mut self)
        requires
            old(self).wf(),
        ensures
            final(self).wf(),
            final(self)@ == old(self)@.cleared(),
            final(self)@.len() == 0,
    {
        self.a_start = 0;
        self.a_end = 0;
        self.b_end = 0;
        self.reserve_size = 0;
    }

    /// Gathers all data in region A at offset zero, so that the space behind
    /// it is one gap. Does nothing while region B is empty.
    pub fn compact(&mut self)
        requires
            old(self).wf(),
        ensures
            final(self).wf(),
            final(self)@ == old(self)@.compacted(),
            final(self)@.b_end == 0,
            final(self)@.contents() == old(self)@.contents(),
    {
        if self.b_end == 0 {
            return ;
        }
        let a_size: usize = self.a_end - self.a_start;
        let tail: Vec<u8> = self.peek_b();
        if a_size > 0 {
            shift_down(&mut self.buffer, self.a_start, self.a_end);
        }
        let region = window(&mut self.buffer, a_size, self.b_end);
        fill(region, tail.as_slice());
        self.a_start = 0;
        self.a_end = a_size + self.b_end;
        self.b_end = 0;
        assert(self.buffer@ =~= overlay(old(self).buffer@, 0, old(self)@.contents()));
        assert(self@ =~= old(self)@.compacted());
        assert(self@.contents() =~= old(self)@.contents());
    }

    /// A copy of region B.
    fn peek_b(&self) -> (bytes: Vec<u8>)
        requires
            self.wf(),
        ensures
            bytes@ == self@.region_b(),
    {
        let mut result: Vec<u8> = Vec::new();
        result.extend_from_slice(slice_subrange(self.buffer.as_slice(), 0, self.b_end));
        assert(result@ =~= self@.region_b());
        result
    }

    /// The offset, in reading order, of the first occurrence of `pattern`
    /// among the stored bytes. The empty pattern occurs at offset zero.
    pub fn find(&self, pattern: &[u8]) -> (at: Option<usize>)
        requires
            self.wf(),
        ensures
            match at {
                Some(i) => first_occurrence(self@.contents(), pattern@, i as int),
                None => forall|j: int| !occurs_at(self@.contents(), pattern@, j),
            },
            pattern@.len() == 0 ==> at == Some(0usize),
    {
        if pattern.len() == 0 {
            assert(self@.contents().subrange(0, 0) =~= pattern@);
            return Some(0);
        }
        let all_data = self.read_all();
        find_first(all_data.as_slice(), pattern)
    }

    /// The stored bytes one by one in reading order: those of region A, then
    /// those of region B.
    pub fn iter(&self) -> (bytes: Vec<u8>)
        requires
            self.wf(),
        ensures
            bytes@ == self@.contents(),
    {
        self.read_all()
    }

    /// The cursors as text, for diagnostics.
    pub fn debug_info(&self) -> (text: String)
        requires
            self.wf(),
        ensures
            text@ == cursor_text(
                self@.capacity() as usize,
                self@.len() as usize,
                self@.free_space() as usize,
                self@.a_start as usize,
                self@.a_end as usize,
                self@.b_end as usize,
                self@.reserve_start as usize,
                self@.reserve_size as usize,
            ),
    {
        render_cursors(
            self.capacity,
            self.len(),
            self.free_space(),
            self.a_start,
            self.a_end,
            self.b_end,
            self.reserve_start,
            self.reserve_size,
        )
    }
}

} // verus!
