//! Laws that relate the operations of the buffer to one another, stated over
//! the layout that the operations' contracts speak of.

use vstd::prelude::*;
use crate::layout::{least, overlay, Layout};

verus! {

/// One operation of a producer or a consumer.
pub enum Step {
    /// A write of these bytes.
    Write(Seq<u8>),
    /// A consume of this many bytes from the first block.
    Consume(int),
}

/// The step succeeds on `l`.
pub open spec fn accepts(l: Layout, step: Step) -> bool {
    match step {
        Step::Write(data) => l.can_reserve(data.len() as int),
        Step::Consume(size) => 0 <= size <= l.first_block().len(),
    }
}

/// The layout after the step.
pub open spec fn stepped(l: Layout, step: Step) -> Layout {
    match step {
        Step::Write(data) => l.written(data),
        Step::Consume(size) => l.consumed(size),
    }
}

/// The layout after all steps, in order.
pub open spec fn run(l: Layout, steps: Seq<Step>) -> Layout
    decreases steps.len(),
{
    if steps.len() == 0 {
        l
    } else {
        stepped(run(l, steps.drop_last()), steps.last())
    }
}

/// Every step is accepted by the layout that the steps before it produce.
pub open spec fn all_accepted(l: Layout, steps: Seq<Step>) -> bool
    decreases steps.len(),
{
    steps.len() == 0 || (all_accepted(l, steps.drop_last()) && accepts(
        run(l, steps.drop_last()),
        steps.last(),
    ))
}

/// The number of bytes that the writes among the steps carry.
pub open spec fn bytes_written(steps: Seq<Step>) -> int
    decreases steps.len(),
{
    if steps.len() == 0 {
        0
    } else {
        bytes_written(steps.drop_last()) + match steps.last() {
            Step::Write(data) => data.len() as int,
            Step::Consume(_) => 0,
        }
    }
}

/// The number of bytes that the consumes among the steps remove.
pub open spec fn bytes_consumed(steps: Seq<Step>) -> int
    decreases steps.len(),
{
    if steps.len() == 0 {
        0
    } else {
        bytes_consumed(steps.drop_last()) + match steps.last() {
            Step::Write(_) => 0,
            Step::Consume(size) => size,
        }
    }
}

/// After any sequence of accepted writes and consumes the buffer is valid and
/// holds as many bytes as it held before, plus those written, minus those
/// consumed.
pub proof fn law_length_accounting(l: Layout, steps: Seq<Step>)
    requires
        l.wf(),
        all_accepted(l, steps),
    ensures
        run(l, steps).wf(),
        run(l, steps).capacity() == l.capacity(),
        run(l, steps).len() == l.len() + bytes_written(steps) - bytes_consumed(steps),
    decreases steps.len(),
{
    if steps.len() > 0 {
        let before = run(l, steps.drop_last());
        law_length_accounting(l, steps.drop_last());
        match steps.last() {
            Step::Write(data) => {
                before.lemma_written(data);
            },
            Step::Consume(size) => {
                before.lemma_consumed(size);
            },
        }
    }
}

/// In a valid layout free space, data and reservation add up to the capacity,
/// and none of the three is negative.
pub proof fn law_space_accounting(l: Layout)
    requires
        l.wf(),
    ensures
        l.free_space() + l.len() + l.reserve_size == l.capacity(),
        l.free_space() >= 0,
        l.len() >= 0,
        l.reserve_size >= 0,
{
}

/// Reserving, filling the reserved region and committing keep a valid layout
/// valid.
pub proof fn law_reservation_keeps_validity(l: Layout, size: int, bytes: Seq<u8>)
    requires
        l.wf(),
        0 <= size,
    ensures
        l.reserved(size).wf(),
        l.can_reserve(size) && bytes.len() == size ==> l.reserved(size).filled(bytes).wf(),
        size <= l.reserve_size ==> l.committed(size).wf(),
{
}

/// Writing, consuming and taking keep a valid layout valid.
pub proof fn law_transfer_keeps_validity(l: Layout, size: int, data: Seq<u8>)
    requires
        l.wf(),
        0 <= size,
    ensures
        l.can_reserve(data.len() as int) ==> l.written(data).wf(),
        size <= l.first_block().len() ==> l.consumed(size).wf(),
        l.taken(size).wf(),
{
    if l.can_reserve(data.len() as int) {
        l.lemma_written(data);
    }
    if size <= l.first_block().len() {
        l.lemma_consumed(size);
    }
    l.lemma_taken(size);
}

/// Compacting and clearing keep a valid layout valid.
pub proof fn law_reorganising_keeps_validity(l: Layout)
    requires
        l.wf(),
    ensures
        l.compacted().wf(),
        l.cleared().wf(),
{
}

/// A commit of part of a reservation that is still in place adds exactly the
/// committed bytes to the region that the reservation follows, frees the rest
/// of the reservation, and keeps what was stored before.
pub proof fn law_commit_extends(l: Layout, size: int)
    requires
        l.wf(),
        0 <= size <= l.reserve_size,
        l.reservation_in_place(),
    ensures
        l.committed(size).wf(),
        l.committed(size).len() == l.len() + size,
        l.committed(size).reserve_size == 0,
        l.committed(size).free_space() == l.free_space() + (l.reserve_size - size),
        l.committed(size).contents() == if size > 0 && l.reserve_start != l.a_end {
            l.contents() + l.storage.subrange(l.b_end, l.b_end + size)
        } else {
            l.region_a() + l.storage.subrange(l.a_end, l.a_end + size) + l.region_b()
        },
{
    if size > 0 && l.reserve_start != l.a_end {
        assert(l.committed(size).contents() =~= l.contents() + l.storage.subrange(
            l.b_end,
            l.b_end + size,
        ));
    } else {
        assert(l.committed(size).contents() =~= l.region_a() + l.storage.subrange(
            l.a_end,
            l.a_end + size,
        ) + l.region_b());
    }
}

/// A granted reservation is in place and takes nothing from the data: length
/// and contents stay, whatever is stored in the reserved region, and the
/// reserved bytes are no longer free.
pub proof fn law_reserve_keeps_data(l: Layout, size: int, bytes: Seq<u8>)
    requires
        l.wf(),
        0 < size,
        l.can_reserve(size),
        bytes.len() == size,
    ensures
        l.reserved(size).filled(bytes).wf(),
        l.reserved(size).filled(bytes).reservation_in_place(),
        l.reserved(size).filled(bytes).reserve_size == size,
        l.reserved(size).filled(bytes).len() == l.len(),
        l.reserved(size).filled(bytes).contents() == l.contents(),
        l.reserved(size).filled(bytes).free_space() == l.capacity() - l.len() - size,
        l.len() + size <= l.capacity(),
{
    assert(l.reserved(size).filled(bytes).contents() =~= l.contents());
}

/// A reservation of no bytes succeeds on every valid layout and changes
/// nothing, a pending reservation included.
pub proof fn law_reserve_nothing(l: Layout)
    requires
        l.wf(),
    ensures
        l.can_reserve(0),
        l.reserved(0) == l,
        l.reserved(0).filled(Seq::<u8>::empty()) == l,
{
    assert(overlay(l.storage, l.reserve_start, Seq::<u8>::empty()) =~= l.storage);
}

/// Reserving, storing bytes in the region and committing the first `size` of
/// them adds exactly those bytes: behind region A where the region was granted
/// there, else behind region B.
pub proof fn law_reserve_fill_commit(l: Layout, reserved: int, bytes: Seq<u8>, size: int)
    requires
        l.wf(),
        0 < reserved,
        l.can_reserve(reserved),
        bytes.len() == reserved,
        0 <= size <= reserved,
    ensures
        ({
            let after = l.reserved(reserved).filled(bytes).committed(size);
            &&& after.wf()
            &&& after.len() == l.len() + size
            &&& after.reserve_size == 0
            &&& after.free_space() == l.capacity() - after.len()
            &&& after.contents() == if l.fits_after(reserved) {
                l.region_a() + bytes.take(size) + l.region_b()
            } else {
                l.region_a() + l.region_b() + bytes.take(size)
            }
        }),
{
    let after = l.reserved(reserved).filled(bytes).committed(size);
    if l.fits_after(reserved) {
        assert(after.contents() =~= l.region_a() + bytes.take(size) + l.region_b());
    } else {
        assert(after.contents() =~= l.region_a() + l.region_b() + bytes.take(size));
    }
}

/// A write is a reservation of the data's length, the data stored in the
/// reserved region, and a commit of that length.
pub proof fn law_write_is_reserve_fill_commit(l: Layout, data: Seq<u8>)
    requires
        l.wf(),
        data.len() > 0,
        l.can_reserve(data.len() as int),
    ensures
        l.written(data) == l.reserved(data.len() as int).filled(data).committed(data.len() as int),
{
    let n = data.len() as int;
    assert(l.written(data) =~= l.reserved(n).filled(data).committed(n));
}

/// Written to an empty buffer, bytes come back exactly and in order: they are
/// the contents after the write, and taking as many bytes as were written
/// empties the buffer again.
pub proof fn law_round_trip(l: Layout, data: Seq<u8>)
    requires
        l.wf(),
        l.len() == 0,
        l.can_reserve(data.len() as int),
    ensures
        l.written(data).wf(),
        l.written(data).contents() == data,
        l.written(data).contents().take(data.len() as int) == data,
        l.written(data).taken(data.len() as int).len() == 0,
{
    l.lemma_written(data);
    assert(l.written(data).contents() =~= data);
    assert(data.take(data.len() as int) =~= data);
    l.written(data).lemma_taken(data.len() as int);
}

/// A reservation that is given up by a commit of zero bytes leaves the data as
/// it was, whatever was stored in the reserved region, and leaves nothing
/// reserved. This also holds of a reservation that was refused.
pub proof fn law_reserve_then_release(l: Layout, size: int, bytes: Seq<u8>)
    requires
        l.wf(),
        0 <= size,
        bytes.len() == size,
    ensures
        ({
            let held = if l.can_reserve(size) {
                l.reserved(size).filled(bytes)
            } else {
                l.reserved(size)
            };
            &&& held.committed(0).wf()
            &&& held.committed(0).len() == l.len()
            &&& held.committed(0).contents() == l.contents()
            &&& held.committed(0).reserve_size == 0
            &&& held.committed(0).free_space() == l.capacity() - l.len()
        }),
{
    let held = if l.can_reserve(size) {
        l.reserved(size).filled(bytes)
    } else {
        l.reserved(size)
    };
    assert(held.committed(0).contents() =~= l.contents());
}

/// Compaction empties region B, keeps the contents byte for byte, and leaves
/// all free space in one gap behind the data.
pub proof fn law_compaction(l: Layout)
    requires
        l.wf(),
    ensures
        l.compacted().wf(),
        l.compacted().b_end == 0,
        l.compacted().contents() == l.contents(),
        l.compacted().len() == l.len(),
        l.b_end > 0 ==> l.compacted().capacity() - l.compacted().a_end == l.capacity() - l.len(),
{
    assert(l.compacted().contents() =~= l.contents());
}

/// Taking bytes out is reading from the front: what stays is the contents
/// without their first `size` bytes, or nothing if fewer were stored.
pub proof fn law_take_is_prefix_removal(l: Layout, size: int)
    requires
        l.wf(),
        0 <= size,
    ensures
        l.taken(size).contents() == l.contents().skip(least(size, l.len())),
        l.contents().take(least(size, l.len())) + l.taken(size).contents() == l.contents(),
{
    l.lemma_taken(size);
    l.lemma_first_block();
    let k = least(size, l.len());
    assert(l.contents().take(k) + l.contents().skip(k) =~= l.contents());
}

} // verus!
