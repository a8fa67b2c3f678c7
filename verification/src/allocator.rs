//! The kernel heap: a bump allocator.
//!
//! It never reuses freed blocks. Allocation has no metadata and follows no pointers, and
//! a request either moves one mark forward or is refused.

use vstd::prelude::*;

verus! {

/// Where the heap lies and how far it has been handed out.
pub struct HeapModel {
    pub start: int,
    pub end: int,
    pub next: int,
}

/// The first multiple of `align` that is not below `address`.
pub open spec fn aligned_up(address: int, align: int) -> int {
    (address + align - 1) / align * align
}

impl HeapModel {
    pub open spec fn well_formed(self) -> bool {
        0 <= self.start <= self.next <= self.end <= usize::MAX
    }

    /// The address of the next block of `size` bytes, where the heap can serve it. A heap
    /// that was not set up, or that lies at address zero, serves nothing.
    pub open spec fn block(self, size: int, align: int) -> Option<int> {
        let address = aligned_up(self.next, align);
        if self.next != 0 && self.next + align - 1 <= usize::MAX && address + size <= self.end {
            Some(address)
        } else {
            None
        }
    }

    /// The heap after a request.
    pub open spec fn after(self, size: int, align: int) -> HeapModel {
        match self.block(size, align) {
            Some(address) => HeapModel { next: address + size, ..self },
            None => self,
        }
    }
}

/// How much of the heap is handed out.
#[derive(Debug, Clone, Copy, PartialEq, Eq, Structural)]
pub struct HeapUsage {
    pub used: usize,
    pub capacity: usize,
}

/// A deliberately small bump allocator for the kernel's first heap.
pub struct BumpAllocator {
    start: usize,
    end: usize,
    next: usize,
}

impl View for BumpAllocator {
    type V = HeapModel;

    closed spec fn view(&self) -> HeapModel {
        HeapModel { start: self.start as int, end: self.end as int, next: self.next as int }
    }
}

impl BumpAllocator {
    #[verifier::type_invariant]
    spec fn well_formed(self) -> bool {
        self.start <= self.next <= self.end
    }

    /// An allocator without a heap.
    pub fn new() -> (allocator: Self)
        ensures
            allocator@ == (HeapModel { start: 0, end: 0, next: 0 }),
    {
        BumpAllocator { start: 0, end: 0, next: 0 }
    }

    /// Hands the heap over to the allocator, once.
    pub fn init(&mut self, heap_start: usize, heap_size: usize)
        requires
            old(self)@.start == 0,
            heap_start + heap_size <= usize::MAX,
        ensures
            final(self)@ == (HeapModel {
                start: heap_start as int,
                end: heap_start + heap_size,
                next: heap_start as int,
            }),
    {
        *self = BumpAllocator {
            start: heap_start,
            end: heap_start + heap_size,
            next: heap_start,
        };
    }

    /// Bytes in the heap.
    pub fn capacity(&self) -> (bytes: usize)
        ensures
            bytes == self@.end - self@.start,
    {
        proof {
            use_type_invariant(self);
        }
        self.end - self.start
    }

    /// Bytes handed out so far, with those lost to alignment.
    pub fn used(&self) -> (bytes: usize)
        ensures
            bytes == self@.next - self@.start,
    {
        proof {
            use_type_invariant(self);
        }
        self.next - self.start
    }

    /// How much of the heap is handed out.
    pub fn usage(&self) -> (usage: HeapUsage)
        ensures
            usage.used == self@.next - self@.start,
            usage.capacity == self@.end - self@.start,
    {
        HeapUsage { used: self.used(), capacity: self.capacity() }
    }

    /// Reserves `size` bytes at a multiple of `align`, or refuses and changes nothing.
    pub fn allocate(&mut self, size: usize, align: usize) -> (address: Option<usize>)
        requires
            align > 0,
        ensures
            final(self)@ == old(self)@.after(size as int, align as int),
            match old(self)@.block(size as int, align as int) {
                Some(block) => address matches Some(found) && found == block,
                None => address is None,
            },
    {
        proof {
            use_type_invariant(&*self);
        }
        let current: usize = self.next;
        let padded: usize = match current.checked_add(align - 1) {
            Some(padded) => padded,
            None => return None,
        };
        let aligned: usize = padded - padded % align;
        proof {
            lemma_aligned_up(current as int, align as int);
        }
        let end: usize = match aligned.checked_add(size) {
            Some(end) => end,
            None => return None,
        };
        if current == 0 || end > self.end {
            return None;
        }
        self.next = end;
        Some(aligned)
    }

    /// Blocks are given back only when the machine restarts.
    pub fn deallocate(&mut self, _address: usize, _size: usize, _align: usize)
        ensures
            *final(self) == *old(self),
    {
    }
}

/// Rounding up reaches a multiple of the alignment, less than one alignment further on.
proof fn lemma_aligned_up(address: int, align: int)
    requires
        0 <= address,
        0 < align,
    ensures
        aligned_up(address, align) == (address + align - 1) - (address + align - 1) % align,
        address <= aligned_up(address, align) < address + align,
        aligned_up(address, align) % align == 0,
{
    let padded = address + align - 1;
    vstd::arithmetic::div_mod::lemma_fundamental_div_mod(padded, align);
    vstd::arithmetic::div_mod::lemma_mod_bound(padded, align);
    vstd::arithmetic::mul::lemma_mul_is_commutative(align, padded / align);
    vstd::arithmetic::div_mod::lemma_mod_multiples_basic(padded / align, align);
}

/// A block lies in the heap, at a multiple of its alignment, beyond all that was handed
/// out before, and the heap stays well formed.
pub proof fn law_block_lies_in_free_heap(heap: HeapModel, size: int, align: int)
    requires
        heap.well_formed(),
        0 <= size,
        0 < align,
    ensures
        heap.after(size, align).well_formed(),
        heap.block(size, align) matches Some(address) ==> {
            &&& address % align == 0
            &&& heap.next <= address
            &&& address + size == heap.after(size, align).next <= heap.end
        },
{
    lemma_aligned_up(heap.next, align);
}

/// A request for memory: how many bytes, at a multiple of what.
pub struct Request {
    pub size: int,
    pub align: int,
}

/// The heap after a list of requests.
pub open spec fn after_requests(heap: HeapModel, requests: Seq<Request>) -> HeapModel
    decreases requests.len(),
{
    if requests.len() == 0 {
        heap
    } else {
        after_requests(heap.after(requests[0].size, requests[0].align), requests.skip(1))
    }
}

pub open spec fn proper_requests(requests: Seq<Request>) -> bool {
    forall|i: int|
        0 <= i < requests.len() ==> 0 <= (#[trigger] requests[i]).size && 0 < requests[i].align
}

/// Requests only ever move the mark forward, within the heap.
proof fn lemma_requests_move_forward(heap: HeapModel, requests: Seq<Request>)
    requires
        heap.well_formed(),
        proper_requests(requests),
    ensures
        ({
            let later = after_requests(heap, requests);
            &&& later.well_formed()
            &&& later.start == heap.start
            &&& later.end == heap.end
            &&& heap.next <= later.next
        }),
    decreases requests.len(),
{
    if requests.len() > 0 {
        let next = heap.after(requests[0].size, requests[0].align);
        law_block_lies_in_free_heap(heap, requests[0].size, requests[0].align);
        assert forall|i: int| 0 <= i < requests.skip(1).len() implies 0 <= (
        #[trigger] requests.skip(1)[i]).size && 0 < requests.skip(1)[i].align by {
            assert(requests.skip(1)[i] == requests[i + 1]);
        }
        lemma_requests_move_forward(next, requests.skip(1));
    }
}

/// Two blocks never overlap, whatever was asked for between them: the later one starts
/// where the earlier one has ended, or beyond.
pub proof fn law_blocks_are_disjoint(
    heap: HeapModel,
    first: Request,
    between: Seq<Request>,
    second: Request,
)
    requires
        heap.well_formed(),
        0 <= first.size,
        0 < first.align,
        proper_requests(between),
        0 <= second.size,
        0 < second.align,
        heap.block(first.size, first.align) is Some,
        after_requests(heap.after(first.size, first.align), between).block(
            second.size,
            second.align,
        ) is Some,
    ensures
        heap.block(first.size, first.align)->0 + first.size <= after_requests(
            heap.after(first.size, first.align),
            between,
        ).block(second.size, second.align)->0,
{
    let middle = heap.after(first.size, first.align);
    law_block_lies_in_free_heap(heap, first.size, first.align);
    lemma_requests_move_forward(middle, between);
    law_block_lies_in_free_heap(after_requests(middle, between), second.size, second.align);
}

/// The heap has no memory that comes back: a request that was refused once is refused
/// ever after.
pub proof fn law_refusals_are_final(heap: HeapModel, request: Request, between: Seq<Request>)
    requires
        heap.well_formed(),
        0 <= request.size,
        0 < request.align,
        proper_requests(between),
        heap.block(request.size, request.align) is None,
    ensures
        after_requests(heap, between).block(request.size, request.align) is None,
{
    let later = after_requests(heap, between);
    lemma_requests_move_forward(heap, between);
    if heap.next == 0 {
        lemma_empty_heap_serves_nothing(heap, between);
    } else {
        vstd::arithmetic::div_mod::lemma_div_is_ordered(
            heap.next + request.align - 1,
            later.next + request.align - 1,
            request.align,
        );
        vstd::arithmetic::mul::lemma_mul_inequality(
            (heap.next + request.align - 1) / request.align,
            (later.next + request.align - 1) / request.align,
            request.align,
        );
    }
}

proof fn lemma_empty_heap_serves_nothing(heap: HeapModel, requests: Seq<Request>)
    requires
        heap.next == 0,
    ensures
        after_requests(heap, requests) == heap,
    decreases requests.len(),
{
    if requests.len() > 0 {
        lemma_empty_heap_serves_nothing(heap, requests.skip(1));
    }
}

/// A request is served at the lowest place that fits it: wherever it could lie in the free
/// part of the heap, it is served there or before. Only a heap that was not set up, or a
/// place at the very end of the machine's addresses, is refused where it would fit.
pub proof fn law_requests_get_first_fit(heap: HeapModel, size: int, align: int, place: int)
    requires
        heap.well_formed(),
        0 <= size,
        0 < align,
        heap.next > 0,
        heap.next + align - 1 <= usize::MAX,
        heap.next <= place,
        place % align == 0,
        place + size <= heap.end,
    ensures
        heap.block(size, align) matches Some(address) && address <= place,
{
    lemma_aligned_up(heap.next, align);
    let address = aligned_up(heap.next, align);
    if address > place {
        vstd::arithmetic::div_mod::lemma_fundamental_div_mod(place, align);
        vstd::arithmetic::div_mod::lemma_fundamental_div_mod(address, align);
        let a = address / align;
        let p = place / align;
        assert(a <= p) by (nonlinear_arith)
            requires
                align * a < heap.next + align,
                heap.next <= align * p,
                0 < align,
        ;
        assert(align * a <= align * p) by (nonlinear_arith)
            requires
                a <= p,
                0 < align,
        ;
    }
}

/// A request changes the mark alone, and a refused one not even that. Nothing is served
/// before the heap is set up.
pub proof fn law_requests_change_the_mark_alone(heap: HeapModel, size: int, align: int)
    ensures
        heap.after(size, align).start == heap.start,
        heap.after(size, align).end == heap.end,
        heap.block(size, align) is None ==> heap.after(size, align) == heap,
        heap.block(size, align) matches Some(address) ==> heap.after(size, align).next == address
            + size,
        heap.next == 0 ==> heap.block(size, align) is None,
{
}

} // verus!
