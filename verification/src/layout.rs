//! The mathematical model of the buffer: the storage as a sequence of bytes,
//! the cursors as integers, and each operation as a function from layout to
//! layout.

use vstd::prelude::*;

verus! {

/// What a buffer is, as plain mathematics.
pub struct Layout {
    /// Every byte of the storage, occupied or not.
    pub storage: Seq<u8>,
    /// Region A occupies `[a_start, a_end)`.
    pub a_start: int,
    pub a_end: int,
    /// Region B occupies `[0, b_end)`.
    pub b_end: int,
    /// The pending reservation occupies `[reserve_start, reserve_start + reserve_size)`.
    pub reserve_start: int,
    pub reserve_size: int,
}

/// `bytes` laid over `storage` from offset `start` on.
pub open spec fn overlay(storage: Seq<u8>, start: int, bytes: Seq<u8>) -> Seq<u8> {
    storage.subrange(0, start) + bytes + storage.subrange(
        start + bytes.len(),
        storage.len() as int,
    )
}

/// The smaller of two integers.
pub open spec fn least(x: int, y: int) -> int {
    if x <= y {
        x
    } else {
        y
    }
}

impl Layout {
    pub open spec fn capacity(self) -> int {
        self.storage.len() as int
    }

    /// The cursors are ordered, the regions do not overlap, data plus
    /// reservation fit into the storage, a pending reservation starts at the
    /// end of region B or later, and one that starts at the end of region B
    /// ends where region A starts or earlier.
    pub open spec fn wf(self) -> bool {
        &&& 0 <= self.b_end <= self.a_start <= self.a_end <= self.capacity()
        &&& 0 <= self.reserve_start
        &&& 0 <= self.reserve_size
        &&& self.reserve_start + self.reserve_size <= self.capacity()
        &&& self.len() + self.reserve_size <= self.capacity()
        &&& self.reserve_size > 0 ==> self.reserve_start >= self.b_end
        &&& self.reserve_size > 0 && self.reserve_start == self.b_end && self.reserve_start
            != self.a_end ==> self.b_end + self.reserve_size <= self.a_start
    }

    pub open spec fn region_a(self) -> Seq<u8> {
        self.storage.subrange(self.a_start, self.a_end)
    }

    pub open spec fn region_b(self) -> Seq<u8> {
        self.storage.subrange(0, self.b_end)
    }

    /// The stored bytes in reading order: region A, then region B.
    pub open spec fn contents(self) -> Seq<u8> {
        self.region_a() + self.region_b()
    }

    pub open spec fn len(self) -> int {
        (self.a_end - self.a_start) + self.b_end
    }

    pub open spec fn free_space(self) -> int {
        self.capacity() - self.len() - self.reserve_size
    }

    /// The block a reader sees first: region A, or region B once A is empty.
    pub open spec fn first_block(self) -> Seq<u8> {
        if self.a_start < self.a_end {
            self.region_a()
        } else {
            self.region_b()
        }
    }

    /// The gap behind region A holds `size` bytes.
    pub open spec fn fits_after(self, size: int) -> bool {
        self.capacity() - self.a_end >= size
    }

    /// The gap between region B and region A holds `size` bytes.
    pub open spec fn fits_before(self, size: int) -> bool {
        self.a_start - self.b_end >= size
    }

    /// A reservation of `size` bytes succeeds.
    pub open spec fn can_reserve(self, size: int) -> bool {
        size == 0 || (size <= self.capacity() && (self.fits_after(size) || self.fits_before(
            size,
        )))
    }

    /// The layout after a reservation of `size` bytes was asked for, granted or
    /// not. An empty or oversized request changes nothing; any other request
    /// drops the pending reservation first.
    pub open spec fn reserved(self, size: int) -> Layout {
        if size == 0 || size > self.capacity() {
            self
        } else if self.fits_after(size) {
            Layout { reserve_start: self.a_end, reserve_size: size, ..self }
        } else if self.fits_before(size) {
            Layout { reserve_start: self.b_end, reserve_size: size, ..self }
        } else {
            Layout { reserve_size: 0, ..self }
        }
    }

    /// The same layout with `bytes` stored from `reserve_start` on.
    pub open spec fn filled(self, bytes: Seq<u8>) -> Layout {
        Layout { storage: overlay(self.storage, self.reserve_start, bytes), ..self }
    }

    /// The layout after `size` bytes of the pending reservation were committed,
    /// for `0 <= size <= reserve_size`. A reservation that starts at the end
    /// of region A extends A; one that starts at the end of region B extends
    /// B. In a valid layout the extended region stays within the storage and
    /// region B stays before region A, so neither end needs a cap. A
    /// reservation that a consume or a compaction has moved the regions away
    /// from is dropped without adding data.
    pub open spec fn committed(self, size: int) -> Layout {
        if size == 0 {
            Layout { reserve_size: 0, ..self }
        } else if self.reserve_start == self.a_end {
            Layout { a_end: self.a_end + size, reserve_size: 0, ..self }
        } else if self.reserve_start == self.b_end {
            Layout { b_end: self.b_end + size, reserve_size: 0, ..self }
        } else {
            Layout { reserve_size: 0, ..self }
        }
    }

    /// The pending reservation still starts where a region ends, as it does
    /// when it is granted: at the end of region A or at the end of region B.
    pub open spec fn reservation_in_place(self) -> bool {
        self.reserve_start == self.a_end || self.reserve_start == self.b_end
    }

    /// The layout after `data` was written successfully.
    pub open spec fn written(self, data: Seq<u8>) -> Layout {
        let n = data.len() as int;
        if n == 0 {
            self
        } else if self.fits_after(n) {
            Layout {
                storage: overlay(self.storage, self.a_end, data),
                a_end: self.a_end + n,
                reserve_start: self.a_end,
                reserve_size: 0,
                ..self
            }
        } else {
            Layout {
                storage: overlay(self.storage, self.b_end, data),
                b_end: self.b_end + n,
                reserve_start: self.b_end,
                reserve_size: 0,
                ..self
            }
        }
    }

    /// The layout after `size` bytes were consumed from the first block, for
    /// `0 <= size <= first_block().len()`. Draining region A promotes region B
    /// to A; a partial consume from region B moves the rest of B to offset zero.
    pub open spec fn consumed(self, size: int) -> Layout {
        if size == 0 {
            self
        } else if self.a_start < self.a_end {
            if self.a_start + size == self.a_end && self.b_end > 0 {
                Layout { a_start: 0, a_end: self.b_end, b_end: 0, ..self }
            } else {
                Layout { a_start: self.a_start + size, ..self }
            }
        } else if size >= self.b_end {
            Layout { b_end: 0, ..self }
        } else {
            Layout {
                storage: overlay(self.storage, 0, self.storage.subrange(size, self.b_end)),
                b_end: self.b_end - size,
                ..self
            }
        }
    }

    /// The layout after a reader took up to `size` bytes: as much as the first
    /// block gives, then the rest from the block that follows.
    pub open spec fn taken(self, size: int) -> Layout {
        let first = least(size, self.first_block().len() as int);
        let next = self.consumed(first);
        next.consumed(least(size - first, next.first_block().len() as int))
    }

    /// The layout with all data in region A from offset zero on.
    pub open spec fn compacted(self) -> Layout {
        if self.b_end == 0 {
            self
        } else {
            Layout {
                storage: overlay(self.storage, 0, self.contents()),
                a_start: 0,
                a_end: self.len(),
                b_end: 0,
                ..self
            }
        }
    }

    /// The layout with no data and no reservation; the storage keeps its bytes.
    pub open spec fn cleared(self) -> Layout {
        Layout { a_start: 0, a_end: 0, b_end: 0, reserve_size: 0, ..self }
    }
}

impl Layout {
    /// The first block is the front of the contents.
    pub proof fn lemma_first_block(self)
        requires
            self.wf(),
        ensures
            self.first_block().len() <= self.len(),
            self.contents().len() == self.len(),
            self.first_block() == self.contents().take(self.first_block().len() as int),
    {
        assert(self.first_block() =~= self.contents().take(self.first_block().len() as int));
    }

    /// Consuming from the first block keeps the layout well formed and removes
    /// exactly the consumed bytes from the front of the contents.
    pub proof fn lemma_consumed(self, size: int)
        requires
            self.wf(),
            0 <= size <= self.first_block().len(),
        ensures
            self.consumed(size).wf(),
            self.consumed(size).len() == self.len() - size,
            self.consumed(size).contents() == self.contents().skip(size),
            self.consumed(size).capacity() == self.capacity(),
    {
        assert(self.consumed(size).contents() =~= self.contents().skip(size));
    }

    /// Once the first block is consumed whole, the block that follows is the
    /// rest of the contents.
    pub proof fn lemma_two_blocks(self)
        requires
            self.wf(),
        ensures
            ({
                let first = self.first_block().len() as int;
                self.consumed(first).first_block() == self.contents().skip(first)
            }),
    {
        let first = self.first_block().len() as int;
        assert(self.consumed(first).first_block() =~= self.contents().skip(first));
    }

    /// Taking `size` bytes removes them from the front of the contents, or
    /// removes everything if fewer are stored.
    pub proof fn lemma_taken(self, size: int)
        requires
            self.wf(),
            0 <= size,
        ensures
            self.taken(size).wf(),
            self.taken(size).capacity() == self.capacity(),
            self.taken(size).len() == self.len() - least(size, self.len()),
            self.taken(size).contents() == self.contents().skip(least(size, self.len())),
    {
        let first = least(size, self.first_block().len() as int);
        let next = self.consumed(first);
        let second = least(size - first, next.first_block().len() as int);
        self.lemma_first_block();
        self.lemma_consumed(first);
        next.lemma_first_block();
        next.lemma_consumed(second);
        self.lemma_two_blocks();
        assert(self.taken(size).contents() =~= self.contents().skip(least(size, self.len())));
    }

    /// Taking bytes block by block is taking them at once: after `done` bytes
    /// that end at a block boundary or that are none, consuming `size` more from
    /// the first block leaves what taking `done + size` leaves.
    pub proof fn lemma_taken_step(self, done: int, size: int)
        requires
            self.wf(),
            0 <= done,
            done == 0 || done >= self.first_block().len(),
            0 <= size <= self.taken(done).first_block().len(),
            self.taken(done).len() > 0,
        ensures
            self.taken(done).consumed(size) == self.taken(done + size),
            self.taken(done).first_block() == self.contents().skip(done).take(
                self.taken(done).first_block().len() as int,
            ),
    {
        let first = self.first_block().len() as int;
        self.lemma_first_block();
        self.lemma_consumed(least(done, first));
        self.lemma_two_blocks();
        self.consumed(least(done, first)).lemma_first_block();
        self.lemma_taken(done);
        self.taken(done).lemma_first_block();
    }

    /// Asking for more than is stored takes what is stored.
    pub proof fn lemma_taken_saturates(self, size: int)
        requires
            self.wf(),
            size >= self.len(),
        ensures
            self.taken(size) == self.taken(self.len()),
    {
        self.lemma_first_block();
        self.lemma_consumed(self.first_block().len() as int);
        self.lemma_two_blocks();
        self.consumed(self.first_block().len() as int).lemma_first_block();
    }

    /// A write adds its bytes behind region A if they fit there, in front of
    /// whatever region B holds; else behind region B, at the end of the
    /// contents.
    pub proof fn lemma_written(self, data: Seq<u8>)
        requires
            self.wf(),
            self.can_reserve(data.len() as int),
        ensures
            self.written(data).wf(),
            self.written(data).capacity() == self.capacity(),
            self.written(data).len() == self.len() + data.len(),
            self.written(data).contents() == if self.fits_after(data.len() as int) {
                self.region_a() + data + self.region_b()
            } else {
                self.region_a() + self.region_b() + data
            },
    {
        if self.fits_after(data.len() as int) {
            assert(self.written(data).contents() =~= self.region_a() + data + self.region_b());
        } else {
            assert(self.written(data).contents() =~= self.region_a() + self.region_b() + data);
        }
    }
}

} // verus!
