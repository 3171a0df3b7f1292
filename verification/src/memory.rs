//! Physical frame allocator.
//!
//! A bump allocator: free RAM above the kernel image is handed out by advancing
//! a "next free" address. Single 4 KiB frames and frame-rounded contiguous runs
//! come from the same pointer, so every run is contiguous and frame-aligned.
//! Nothing is ever freed.

use vstd::prelude::*;

verus! {

/// Size of one physical frame.
pub const FRAME_SIZE: usize = 4096;

/// End of RAM on the QEMU `virt` machine (1 GiB at 0x4000_0000).
pub const RAM_END: usize = 0x8000_0000;

/// Rounds `a` up to the next multiple of `FRAME_SIZE`.
pub open spec fn frame_align_up(a: int) -> int {
    ((a + FRAME_SIZE - 1) / (FRAME_SIZE as int)) * (FRAME_SIZE as int)
}

/// What an allocation of `size` bytes from the allocator state `next` hands
/// back: the old bump pointer when the run still ends inside RAM.
pub open spec fn bump_result(next: int, size: int) -> Option<int> {
    if next + size <= RAM_END {
        Some(next)
    } else {
        None
    }
}

/// Bytes of RAM above the bump pointer.
pub open spec fn free_spec(next: int) -> int {
    if next <= RAM_END {
        RAM_END - next
    } else {
        0
    }
}

/// The bump pointer of the physical frame allocator. It always sits on a
/// frame boundary, so every address it hands out is frame-aligned.
pub struct FrameAllocator {
    next: usize,
}

impl FrameAllocator {
    #[verifier::type_invariant]
    spec fn frame_aligned(&self) -> bool {
        self.next % FRAME_SIZE == 0
    }
}

impl View for FrameAllocator {
    type V = nat;

    closed spec fn view(&self) -> nat {
        self.next as nat
    }
}

impl FrameAllocator {
    /// The allocator before `init`: the bump pointer is 0.
    pub fn new() -> (frames: FrameAllocator)
        ensures
            frames@ == 0,
    {
        FrameAllocator { next: 0 }
    }

    /// The bump pointer: the next address handed out.
    pub fn next(&self) -> (r: usize)
        ensures
            r == self@,
            r % FRAME_SIZE == 0,
    {
        proof {
            use_type_invariant(self);
        }
        self.next
    }
}

/// `(x + FRAME_SIZE - 1) & !(FRAME_SIZE - 1)` computed on a `usize`.
fn round_up_to_frame(x: usize) -> (r: usize)
    requires
        x <= usize::MAX - (FRAME_SIZE - 1),
    ensures
        r == frame_align_up(x as int),
        r % FRAME_SIZE == 0,
        x <= r < x + FRAME_SIZE,
{
    let y: usize = x + (FRAME_SIZE - 1);
    let mask: usize = !(FRAME_SIZE - 1);
    let r: usize = y & mask;
    assert(r == y - y % 4096 && mask == !4095usize) by (bit_vector)
        requires
            r == y & mask,
            mask == !4095usize,
    ;
    r
}

/// Starts handing out frames at the first frame boundary at or above
/// `free_ram_start` (the address where the kernel image ends).
pub fn init(frames: &mut FrameAllocator, free_ram_start: usize)
    requires
        free_ram_start <= usize::MAX - (FRAME_SIZE - 1),
    ensures
        final(frames)@ == frame_align_up(free_ram_start as int),
        final(frames)@ % (FRAME_SIZE as nat) == 0,
{
    let n = round_up_to_frame(free_ram_start);
    frames.next = n;
}

/// Takes one 4 KiB frame and returns its physical address, or `None` once RAM
/// is exhausted. The bump pointer advances either way.
pub fn alloc_frame(frames: &mut FrameAllocator) -> (r: Option<usize>)
    requires
        old(frames)@ + FRAME_SIZE <= usize::MAX,
    ensures
        final(frames)@ == old(frames)@ + FRAME_SIZE,
        final(frames)@ % (FRAME_SIZE as nat) == 0,
        r matches Some(p) ==> bump_result(old(frames)@ as int, FRAME_SIZE as int) == Some(p as int),
        r matches Some(p) ==> p % FRAME_SIZE == 0 && p + FRAME_SIZE <= RAM_END,
        r is None ==> bump_result(old(frames)@ as int, FRAME_SIZE as int) is None,
{
    proof {
        use_type_invariant(&*frames);
    }
    let p = frames.next;
    frames.next = p + FRAME_SIZE;
    if p + FRAME_SIZE <= RAM_END {
        Some(p)
    } else {
        None
    }
}

/// Takes `bytes` of contiguous RAM, rounded up to whole frames, and returns its
/// start address, or `None` when the run would pass the end of RAM. The bump
/// pointer advances by the rounded size either way.
pub fn alloc_contig(frames: &mut FrameAllocator, bytes: usize) -> (r: Option<usize>)
    requires
        bytes <= usize::MAX - (FRAME_SIZE - 1),
        old(frames)@ + frame_align_up(bytes as int) <= usize::MAX,
    ensures
        final(frames)@ == old(frames)@ + frame_align_up(bytes as int),
        final(frames)@ % (FRAME_SIZE as nat) == 0,
        r matches Some(p) ==> bump_result(old(frames)@ as int, frame_align_up(bytes as int))
            == Some(p as int),
        r matches Some(p) ==> p % FRAME_SIZE == 0 && p + bytes <= RAM_END,
        r is None ==> bump_result(old(frames)@ as int, frame_align_up(bytes as int)) is None,
{
    proof {
        use_type_invariant(&*frames);
    }
    let size = round_up_to_frame(bytes);
    let p = frames.next;
    frames.next = p + size;
    if p + size <= RAM_END {
        Some(p)
    } else {
        None
    }
}

/// Bytes of RAM still free.
pub fn free_bytes(frames: &FrameAllocator) -> (r: usize)
    ensures
        r == free_spec(frames@ as int),
{
    RAM_END.saturating_sub(frames.next)
}

/// Bump allocations never overlap and stay inside RAM: when two allocations
/// in a row (of `s1` then `s2` bytes, from bump pointer `next`) both succeed,
/// the second starts at or after the end of the first and ends by `RAM_END`.
pub proof fn lemma_allocations_disjoint(next: int, s1: int, s2: int)
    requires
        0 <= next,
        0 <= s1,
        0 <= s2,
    ensures
        bump_result(next, s1) matches Some(p1) ==> p1 + s1 <= RAM_END,
        bump_result(next, s1) matches Some(p1) ==> (bump_result(next + s1, s2) matches Some(p2)
            ==> p1 + s1 <= p2 && p2 + s2 <= RAM_END),
{
}

/// One frame is a one-frame run: from the same bump pointer `next`,
/// `alloc_frame` and `alloc_contig(FRAME_SIZE)` accept exactly the same
/// states (their overflow bounds coincide) and give the same result and the
/// same new pointer, since rounding a whole frame up leaves it unchanged.
pub proof fn lemma_frame_is_one_frame_run(next: int)
    ensures
        frame_align_up(FRAME_SIZE as int) == FRAME_SIZE,
        (next + FRAME_SIZE <= usize::MAX) == (FRAME_SIZE <= usize::MAX - (FRAME_SIZE - 1) && next
            + frame_align_up(FRAME_SIZE as int) <= usize::MAX),
        bump_result(next, FRAME_SIZE as int) == bump_result(next, frame_align_up(FRAME_SIZE as int)),
        next + FRAME_SIZE == next + frame_align_up(FRAME_SIZE as int),
{
}

/// Once RAM is exhausted it stays exhausted: after an allocation fails, the
/// pointer has moved past the end of RAM, so every later allocation of any
/// size fails too.
pub proof fn lemma_failure_is_permanent(next: int, s1: int, s2: int)
    requires
        0 <= s1,
        0 <= s2,
    ensures
        bump_result(next, s1) is None ==> bump_result(next + s1, s2) is None,
{
}

/// Free-RAM accounting: a successful allocation of `size` bytes lowers the
/// free count by exactly `size`; after a failed one nothing is free.
pub proof fn lemma_free_accounting(next: int, size: int)
    requires
        0 <= next,
        0 <= size,
    ensures
        bump_result(next, size) is Some ==> free_spec(next + size) == free_spec(next) - size,
        bump_result(next, size) is None ==> free_spec(next + size) == 0,
{
}

} // verus!
