//! Physical memory: which frames the kernel may use, and how the heap gets its pages.

use vstd::prelude::*;

use x86_64::structures::paging::{Page, Size4KiB};
use x86_64::VirtAddr;

use crate::allocator::{BumpAllocator, HeapModel};

verus! {

/// Bytes in a frame of physical memory, and in a page of virtual memory.
pub const FRAME_SIZE: u64 = 4096;

/// Physical addresses have 52 bits.
pub const PHYSICAL_LIMIT: u64 = 0x10_0000_0000_0000;

/// The lower half of the virtual addresses ends here.
pub const VIRTUAL_LIMIT: u64 = 0x8000_0000_0000;

/// An unused virtual range reserved for dynamically allocated values.
pub const HEAP_START: u64 = 0x5555_0000_0000;

pub const HEAP_SIZE: u64 = 0x20_0000;

/// The heap's pages are present, writable, and never executable.
pub const HEAP_PAGE_FLAGS: u64 = 0x8000_0000_0000_0003;

/// What the firmware says that a range of memory is for.
#[derive(Debug, Clone, Copy, PartialEq, Eq, Structural)]
pub enum MemoryRegionKind {
    Usable,
    Bootloader,
    UnknownUefi(u32),
    UnknownBios(u32),
}

/// A range of physical memory, without its end.
#[derive(Debug, Clone, Copy, PartialEq, Eq, Structural)]
pub struct MemoryRegion {
    pub start: u64,
    pub end: u64,
    pub kind: MemoryRegionKind,
}

impl MemoryRegion {
    /// The first frame boundary in the region.
    pub open spec fn first_frame(self) -> int {
        (self.start + FRAME_SIZE - 1) / (FRAME_SIZE as int) * FRAME_SIZE
    }

    /// The last frame boundary in the region, where its frames end.
    pub open spec fn frames_end(self) -> int {
        self.end as int / (FRAME_SIZE as int) * FRAME_SIZE
    }

    /// How many whole frames lie in the region.
    pub open spec fn frame_count(self) -> nat {
        if self.kind is Usable && self.first_frame() < self.frames_end() {
            ((self.frames_end() - self.first_frame()) / (FRAME_SIZE as int)) as nat
        } else {
            0
        }
    }

    /// The start addresses of the whole frames in a usable region.
    pub open spec fn frames(self) -> Seq<u64> {
        Seq::new(self.frame_count(), |i: int| (self.first_frame() + FRAME_SIZE * i) as u64)
    }

    /// A region whose frames have physical addresses.
    pub open spec fn well_formed(self) -> bool {
        self.kind is Usable ==> {
            &&& self.start + FRAME_SIZE - 1 <= u64::MAX
            &&& self.first_frame() < self.frames_end() ==> self.frames_end() <= PHYSICAL_LIMIT
        }
    }
}

pub open spec fn well_formed_map(regions: Seq<MemoryRegion>) -> bool {
    forall|i: int| 0 <= i < regions.len() ==> (#[trigger] regions[i]).well_formed()
}

/// The usable frames of a memory map, region by region.
pub open spec fn frames_in(regions: Seq<MemoryRegion>) -> Seq<u64>
    decreases regions.len(),
{
    if regions.len() == 0 {
        Seq::empty()
    } else {
        frames_in(regions.drop_last()) + regions.last().frames()
    }
}

/// The start of the page that `Page::containing_address` finds for an address: the
/// address rounded down to a page boundary. `VirtAddr::new` takes canonical addresses, and
/// all addresses of the lower half are.
#[verifier::external_body]
fn page_containing(address: u64) -> (page: u64)
    requires
        address < VIRTUAL_LIMIT,
    ensures
        page == address - address % FRAME_SIZE,
{
    Page::<Size4KiB>::containing_address(VirtAddr::new(address)).start_address().as_u64()
}

/// Rounds an address up to a multiple of the alignment.
fn align_up(value: u64, alignment: u64) -> (aligned: u64)
    requires
        alignment > 0,
        value + alignment - 1 <= u64::MAX,
    ensures
        aligned == (value + alignment - 1) / (alignment as int) * alignment,
{
    let padded: u64 = value + (alignment - 1);
    proof {
        vstd::arithmetic::div_mod::lemma_fundamental_div_mod(padded as int, alignment as int);
        vstd::arithmetic::mul::lemma_mul_is_commutative(
            alignment as int,
            padded as int / alignment as int,
        );
    }
    padded - padded % alignment
}

/// Whether the frames of a memory map have physical addresses.
pub fn is_well_formed_map(regions: &[MemoryRegion]) -> (proper: bool)
    ensures
        proper == well_formed_map(regions@),
{
    let mut index: usize = 0;
    while index < regions.len()
        invariant
            index <= regions@.len(),
            forall|i: int| 0 <= i < index ==> (#[trigger] regions@[i]).well_formed(),
        decreases regions@.len() - index,
    {
        let region: MemoryRegion = regions[index];
        if let MemoryRegionKind::Usable = region.kind {
            if region.start > u64::MAX - (FRAME_SIZE - 1) {
                assert(!regions@[index as int].well_formed());
                return false;
            }
            let start: u64 = align_up(region.start, FRAME_SIZE);
            let end: u64 = region.end - region.end % FRAME_SIZE;
            if start < end && end > PHYSICAL_LIMIT {
                assert(!regions@[index as int].well_formed());
                return false;
            }
        }
        index += 1;
    }
    true
}

/// The first frame of a region and how many frames it has.
fn region_extent(region: &MemoryRegion) -> (extent: (u64, u64))
    requires
        region.well_formed(),
    ensures
        extent.1 == region.frame_count(),
        extent.1 > 0 ==> extent.0 == region.first_frame() && extent.0 + FRAME_SIZE * extent.1
            == region.frames_end() <= PHYSICAL_LIMIT,
{
    match region.kind {
        MemoryRegionKind::Usable => {
            let start: u64 = align_up(region.start, FRAME_SIZE);
            let end: u64 = region.end - region.end % FRAME_SIZE;
            if start < end {
                (start, (end - start) / FRAME_SIZE)
            } else {
                (start, 0)
            }
        },
        _ => (0, 0),
    }
}

/// The usable frames of a memory map that are still to come, in order.
pub struct UsableFrames {
    memory_regions: &'static [MemoryRegion],
    index: usize,
    done: u64,
}

impl View for UsableFrames {
    type V = Seq<u64>;

    closed spec fn view(&self) -> Seq<u64> {
        frames_in(self.memory_regions@).skip(self.passed() as int)
    }
}

impl UsableFrames {
    #[verifier::type_invariant]
    spec fn well_formed(self) -> bool {
        &&& well_formed_map(self.memory_regions@)
        &&& self.index <= self.memory_regions@.len()
        &&& self.done <= if self.index < self.memory_regions@.len() {
            self.memory_regions@[self.index as int].frame_count()
        } else {
            0
        }
    }

    /// How many frames came before.
    spec fn passed(self) -> nat {
        frames_in(self.memory_regions@.take(self.index as int)).len() + self.done as nat
    }

    /// Gives the next frame, by its start address.
    pub fn next(&mut self) -> (frame: Option<u64>)
        ensures
            old(self)@.len() == 0 ==> frame is None && final(self)@ == old(self)@,
            old(self)@.len() > 0 ==> frame == Some(old(self)@[0]) && final(self)@ == old(
                self,
            )@.skip(1),
    {
        proof {
            use_type_invariant(&*self);
        }
        let regions: &'static [MemoryRegion] = self.memory_regions;
        let ghost all = frames_in(regions@);
        let ghost passed = self.passed();
        let mut index: usize = self.index;
        let mut done: u64 = self.done;
        while index < regions.len()
            invariant
                well_formed_map(regions@),
                self.memory_regions == regions,
                *self == *old(self),
                passed == self.passed(),
                index <= regions@.len(),
                done <= if index < regions@.len() {
                    regions@[index as int].frame_count()
                } else {
                    0
                },
                passed == frames_in(regions@.take(index as int)).len() + done,
                all == frames_in(regions@),
            decreases regions@.len() - index,
        {
            let region: &MemoryRegion = &regions[index];
            let (start, count) = region_extent(region);
            let ghost through = regions@.take(index + 1);
            assert(through.drop_last() =~= regions@.take(index as int));
            if done < count {
                let frame: u64 = start + FRAME_SIZE * done;
                proof {
                    lemma_frames_prefix(regions@, index + 1);
                    assert(frames_in(through)[passed as int] == region.frames()[done as int]);
                    assert(region.frames()[done as int] == frame);
                    assert(all[passed as int] == frame);
                    assert(all.skip(passed as int).skip(1) =~= all.skip((passed + 1) as int));
                }
                *self = UsableFrames { memory_regions: regions, index, done: done + 1 };
                return Some(frame);
            }
            index += 1;
            done = 0;
        }
        proof {
            assert(regions@.take(index as int) =~= regions@);
        }
        None
    }
}

/// A monotonic allocator over memory ranges that the firmware marks as usable.
pub struct BootInfoFrameAllocator {
    memory_regions: &'static [MemoryRegion],
    next: usize,
}

impl BootInfoFrameAllocator {
    #[verifier::type_invariant]
    spec fn well_formed(self) -> bool {
        well_formed_map(self.memory_regions@)
    }

    /// The memory map.
    pub closed spec fn regions(&self) -> Seq<MemoryRegion> {
        self.memory_regions@
    }

    /// How many frames were asked for.
    pub closed spec fn asked(&self) -> usize {
        self.next
    }

    /// Takes over the memory map of the boot loader.
    pub fn init(memory_regions: &'static [MemoryRegion]) -> (allocator: Self)
        requires
            well_formed_map(memory_regions@),
        ensures
            allocator.regions() == memory_regions@,
            allocator.asked() == 0,
    {
        BootInfoFrameAllocator { memory_regions, next: 0 }
    }

    /// The start addresses of all usable frames, in order, one at a time.
    pub fn usable_frames(&self) -> (frames: UsableFrames)
        ensures
            frames@ == frames_in(self.regions()),
    {
        proof {
            use_type_invariant(self);
            assert(self.memory_regions@.take(0) =~= Seq::<MemoryRegion>::empty());
            assert(frames_in(self.memory_regions@).skip(0) =~= frames_in(self.memory_regions@));
        }
        UsableFrames { memory_regions: self.memory_regions, index: 0, done: 0 }
    }

    /// How many frames were asked for.
    pub fn allocated_frames(&self) -> (count: usize)
        ensures
            count == self.asked(),
    {
        self.next
    }

    /// How many usable frames there are.
    pub fn usable_frame_count(&self) -> (count: usize)
        requires
            frames_in(self.regions()).len() <= usize::MAX,
        ensures
            count == frames_in(self.regions()).len(),
    {
        proof {
            use_type_invariant(self);
        }
        let mut count: usize = 0;
        let mut index: usize = 0;
        while index < self.memory_regions.len()
            invariant
                index <= self.memory_regions@.len(),
                well_formed_map(self.memory_regions@),
                count == frames_in(self.memory_regions@.take(index as int)).len(),
                frames_in(self.memory_regions@).len() <= usize::MAX,
            decreases self.memory_regions@.len() - index,
        {
            let (_, more) = region_extent(&self.memory_regions[index]);
            assert(self.memory_regions@.take(index + 1).drop_last() =~= self.memory_regions@.take(
                index as int,
            ));
            proof {
                lemma_frames_prefix(self.memory_regions@, index + 1);
            }
            count += more as usize;
            index += 1;
        }
        assert(self.memory_regions@.take(index as int) =~= self.memory_regions@);
        count
    }

    /// Gives out the next usable frame, by its start address. A refusal counts as asked.
    pub fn allocate_frame(&mut self) -> (frame: Option<u64>)
        requires
            old(self).asked() < usize::MAX,
        ensures
            final(self).regions() == old(self).regions(),
            final(self).asked() == old(self).asked() + 1,
            frame == if old(self).asked() < frames_in(old(self).regions()).len() {
                Some(frames_in(old(self).regions())[old(self).asked() as int])
            } else {
                None
            },
    {
        proof {
            use_type_invariant(&*self);
        }
        let frame: Option<u64> = self.nth_frame(self.next);
        self.next = self.next + 1;
        frame
    }

    /// The usable frame with the given number.
    fn nth_frame(&self, number: usize) -> (frame: Option<u64>)
        ensures
            frame == if number < frames_in(self.regions()).len() {
                Some(frames_in(self.regions())[number as int])
            } else {
                None
            },
    {
        proof {
            use_type_invariant(self);
        }
        let mut left: u64 = number as u64;
        let mut index: usize = 0;
        while index < self.memory_regions.len()
            invariant
                index <= self.memory_regions@.len(),
                well_formed_map(self.memory_regions@),
                number == frames_in(self.memory_regions@.take(index as int)).len() + left,
            decreases self.memory_regions@.len() - index,
        {
            let region: &MemoryRegion = &self.memory_regions[index];
            let (start, count) = region_extent(region);
            assert(self.memory_regions@.take(index + 1).drop_last() =~= self.memory_regions@.take(
                index as int,
            ));
            if left < count {
                let frame: u64 = start + FRAME_SIZE * left;
                proof {
                    let through = self.memory_regions@.take(index + 1);
                    lemma_frames_prefix(self.memory_regions@, index + 1);
                    assert(frames_in(through)[number as int] == region.frames()[left as int]);
                    assert(region.frames()[left as int] == frame);
                }
                return Some(frame);
            }
            left -= count;
            index += 1;
        }
        assert(self.memory_regions@.take(index as int) =~= self.memory_regions@);
        None
    }
}

/// The frames of the first regions come first.
proof fn lemma_frames_prefix(regions: Seq<MemoryRegion>, count: int)
    requires
        0 <= count <= regions.len(),
    ensures
        frames_in(regions.take(count)).len() <= frames_in(regions).len(),
        frames_in(regions.take(count)) == frames_in(regions).take(
            frames_in(regions.take(count)).len() as int,
        ),
    decreases regions.len(),
{
    if count == regions.len() {
        assert(regions.take(count) =~= regions);
        assert(frames_in(regions).take(frames_in(regions).len() as int) =~= frames_in(regions));
    } else {
        lemma_frames_prefix(regions.drop_last(), count);
        assert(regions.drop_last().take(count) =~= regions.take(count));
        let prefix = frames_in(regions.take(count));
        assert(frames_in(regions).take(prefix.len() as int) =~= frames_in(
            regions.drop_last(),
        ).take(prefix.len() as int));
    }
}

/// A usable frame is a whole frame inside a usable region.
pub proof fn law_frames_lie_in_usable_regions(regions: Seq<MemoryRegion>, number: int)
    requires
        well_formed_map(regions),
        0 <= number < frames_in(regions).len(),
    ensures
        frames_in(regions)[number] % FRAME_SIZE == 0,
        exists|i: int|
            0 <= i < regions.len() && (#[trigger] regions[i]).kind is Usable && regions[i].start
                <= frames_in(regions)[number] && frames_in(regions)[number] + FRAME_SIZE
                <= regions[i].end,
    decreases regions.len(),
{
    let before = regions.drop_last();
    let last = regions.last();
    assert forall|i: int| 0 <= i < before.len() implies (#[trigger] before[i]).well_formed() by {
        assert(before[i] == regions[i]);
    }
    if number < frames_in(before).len() {
        law_frames_lie_in_usable_regions(before, number);
        let i = choose|i: int|
            0 <= i < before.len() && (#[trigger] before[i]).kind is Usable && before[i].start
                <= frames_in(before)[number] && frames_in(before)[number] + FRAME_SIZE
                <= before[i].end;
        assert(before[i] == regions[i]);
        assert(frames_in(regions)[number] == frames_in(before)[number]);
    } else {
        let k = number - frames_in(before).len();
        assert(regions[regions.len() - 1] == last);
        assert(last.well_formed());
        assert(frames_in(regions)[number] == last.frames()[k]);
        assert(last.first_frame() + FRAME_SIZE * k + FRAME_SIZE <= last.frames_end());
        assert(last.frames()[k] == last.first_frame() + FRAME_SIZE * k);
    }
}

/// Regions that are usable and share no address.
pub open spec fn disjoint_usable(regions: Seq<MemoryRegion>) -> bool {
    forall|i: int, j: int|
        0 <= i < j < regions.len() && (#[trigger] regions[i]).kind is Usable && (
        #[trigger] regions[j]).kind is Usable ==> regions[i].end <= regions[j].start
            || regions[j].end <= regions[i].start
}

/// No frame is given out twice, where the usable regions do not overlap.
pub proof fn law_frames_are_distinct(regions: Seq<MemoryRegion>, a: int, b: int)
    requires
        well_formed_map(regions),
        disjoint_usable(regions),
        0 <= a < b < frames_in(regions).len(),
    ensures
        frames_in(regions)[a] != frames_in(regions)[b],
    decreases regions.len(),
{
    let before = regions.drop_last();
    let last = regions.last();
    let frames = frames_in(regions);
    assert forall|i: int| 0 <= i < before.len() implies (#[trigger] before[i]).well_formed() by {
        assert(before[i] == regions[i]);
    }
    assert(regions[regions.len() - 1] == last);
    assert(last.well_formed());
    if b < frames_in(before).len() {
        assert forall|i: int, j: int|
            0 <= i < j < before.len() && (#[trigger] before[i]).kind is Usable && (
            #[trigger] before[j]).kind is Usable implies before[i].end <= before[j].start
            || before[j].end <= before[i].start by {
            assert(before[i] == regions[i] && before[j] == regions[j]);
        }
        law_frames_are_distinct(before, a, b);
    } else {
        let k = b - frames_in(before).len();
        assert(frames[b] == last.frames()[k]);
        assert(last.frames()[k] == last.first_frame() + FRAME_SIZE * k);
        assert(last.first_frame() + FRAME_SIZE * k + FRAME_SIZE <= last.frames_end());
        if a >= frames_in(before).len() {
            let m = a - frames_in(before).len();
            assert(frames[a] == last.frames()[m]);
            assert(last.frames()[m] == last.first_frame() + FRAME_SIZE * m);
        } else {
            law_frames_lie_in_usable_regions(before, a);
            let i = choose|i: int|
                0 <= i < before.len() && (#[trigger] before[i]).kind is Usable && before[i].start
                    <= frames_in(before)[a] && frames_in(before)[a] + FRAME_SIZE <= before[i].end;
            assert(before[i] == regions[i]);
            assert(frames[a] == frames_in(before)[a]);
            assert(last.kind is Usable);
        }
    }
}

/// Why a page could not be mapped.
#[derive(Debug, Clone, Copy, PartialEq, Eq, Structural)]
pub enum MapToError {
    FrameAllocationFailed,
    ParentEntryHugePage,
    PageAlreadyMapped(u64),
}

/// What to do next for the heap. The outcome of a mapping is handed to the next step.
#[derive(Debug, Clone, Copy, PartialEq, Eq, Structural)]
pub enum HeapAction {
    /// Map a page to a frame.
    MapPage { page: u64, frame: u64, flags: u64 },
    /// Give up.
    Failed(MapToError),
    /// The heap is mapped and the allocator has it.
    Ready,
    /// The heap is mapped, but lies beyond the addresses of this machine.
    Unaddressable,
}

/// How far the setup of the heap has come.
#[derive(Debug, Clone, Copy, PartialEq, Eq, Structural)]
pub enum HeapSetup {
    Begin,
    Mapping { page: u64 },
    Finished { action: HeapAction },
}

/// What the setup of the heap comes to next.
pub enum HeapPlan {
    Page { page: u64 },
    Enable,
    Stop { action: HeapAction },
}

/// The page of the heap with the given number.
pub open spec fn heap_page(number: int) -> int {
    HEAP_START + FRAME_SIZE * number
}

/// How many pages the heap has.
pub open spec fn heap_pages() -> int {
    HEAP_SIZE as int / FRAME_SIZE as int
}

impl HeapSetup {
    /// The page being mapped is one of the heap's.
    pub open spec fn well_formed(self) -> bool {
        self matches HeapSetup::Mapping { page } ==> {
            &&& page % FRAME_SIZE == 0
            &&& heap_page(0) <= page <= heap_page(heap_pages() - 1)
        }
    }

    /// The pages are mapped one after the other; then the allocator gets the heap. The
    /// first mapping that fails ends the setup.
    pub open spec fn plan(self, mapped: Result<(), MapToError>) -> HeapPlan {
        match self {
            HeapSetup::Begin => HeapPlan::Page { page: heap_page(0) as u64 },
            HeapSetup::Mapping { page } => match mapped {
                Err(error) => HeapPlan::Stop { action: HeapAction::Failed(error) },
                Ok(_) => if page < heap_page(heap_pages() - 1) {
                    HeapPlan::Page { page: (page + FRAME_SIZE) as u64 }
                } else {
                    HeapPlan::Enable
                },
            },
            HeapSetup::Finished { action } => HeapPlan::Stop { action },
        }
    }
}

/// Maps the initial heap, page by page, and hands it to the allocator: takes the outcome
/// of the last mapping and gives the next step.
pub fn init_heap(
    setup: &mut HeapSetup,
    frame_allocator: &mut BootInfoFrameAllocator,
    allocator: &mut BumpAllocator,
    mapped: Result<(), MapToError>,
) -> (action: HeapAction)
    requires
        old(setup).well_formed(),
        old(setup).plan(mapped) is Page ==> old(frame_allocator).asked() < usize::MAX,
        old(setup).plan(mapped) is Enable ==> old(allocator)@.start == 0,
    ensures
        final(setup).well_formed(),
        final(frame_allocator).regions() == old(frame_allocator).regions(),
        match old(setup).plan(mapped) {
            HeapPlan::Page { page } => {
                let frames = frames_in(old(frame_allocator).regions());
                &&& *final(allocator) == *old(allocator)
                &&& final(frame_allocator).asked() == old(frame_allocator).asked() + 1
                &&& if old(frame_allocator).asked() < frames.len() {
                    &&& action == (HeapAction::MapPage {
                        page,
                        frame: frames[old(frame_allocator).asked() as int],
                        flags: HEAP_PAGE_FLAGS,
                    })
                    &&& *final(setup) == (HeapSetup::Mapping { page })
                } else {
                    &&& action == HeapAction::Failed(MapToError::FrameAllocationFailed)
                    &&& *final(setup) == (HeapSetup::Finished { action })
                }
            },
            HeapPlan::Enable => {
                &&& final(frame_allocator).asked() == old(frame_allocator).asked()
                &&& *final(setup) == (HeapSetup::Finished { action })
                &&& if HEAP_START + HEAP_SIZE <= usize::MAX {
                    &&& action == HeapAction::Ready
                    &&& final(allocator)@ == (HeapModel {
                        start: HEAP_START as int,
                        end: HEAP_START + HEAP_SIZE,
                        next: HEAP_START as int,
                    })
                } else {
                    &&& action == HeapAction::Unaddressable
                    &&& *final(allocator) == *old(allocator)
                }
            },
            HeapPlan::Stop { action: stop } => {
                &&& action == stop
                &&& *final(setup) == (HeapSetup::Finished { action })
                &&& final(frame_allocator).asked() == old(frame_allocator).asked()
                &&& *final(allocator) == *old(allocator)
            },
        },
{
    let page: u64 = match *setup {
        HeapSetup::Begin => page_containing(HEAP_START),
        HeapSetup::Mapping { page } => {
            if let Err(error) = mapped {
                let action: HeapAction = HeapAction::Failed(error);
                *setup = HeapSetup::Finished { action };
                return action;
            }
            if page >= page_containing(HEAP_START + HEAP_SIZE - 1) {
                let action: HeapAction = enable_heap(allocator);
                *setup = HeapSetup::Finished { action };
                return action;
            }
            page + FRAME_SIZE
        },
        HeapSetup::Finished { action } => return action,
    };
    match frame_allocator.allocate_frame() {
        Some(frame) => {
            *setup = HeapSetup::Mapping { page };
            HeapAction::MapPage { page, frame, flags: HEAP_PAGE_FLAGS }
        },
        None => {
            let action: HeapAction = HeapAction::Failed(MapToError::FrameAllocationFailed);
            *setup = HeapSetup::Finished { action };
            action
        },
    }
}

/// Hands the mapped heap to the allocator.
fn enable_heap(allocator: &mut BumpAllocator) -> (action: HeapAction)
    requires
        old(allocator)@.start == 0,
    ensures
        if HEAP_START + HEAP_SIZE <= usize::MAX {
            &&& action == HeapAction::Ready
            &&& final(allocator)@ == (HeapModel {
                start: HEAP_START as int,
                end: HEAP_START + HEAP_SIZE,
                next: HEAP_START as int,
            })
        } else {
            &&& action == HeapAction::Unaddressable
            &&& *final(allocator) == *old(allocator)
        },
{
    if HEAP_START + HEAP_SIZE <= usize::MAX as u64 {
        allocator.init(HEAP_START as usize, HEAP_SIZE as usize);
        HeapAction::Ready
    } else {
        HeapAction::Unaddressable
    }
}

/// What the setup comes to after a number of successful mappings.
pub open spec fn plan_after(successes: nat) -> HeapPlan
    decreases successes,
{
    if successes == 0 {
        HeapSetup::Begin.plan(Ok(()))
    } else {
        match plan_after((successes - 1) as nat) {
            HeapPlan::Page { page } => HeapSetup::Mapping { page }.plan(Ok(())),
            stopped => stopped,
        }
    }
}

/// The setup maps the pages of the heap in order, and enables the heap after the last
/// one.
pub proof fn law_heap_pages_come_in_order(number: nat)
    requires
        number <= heap_pages(),
    ensures
        number < heap_pages() ==> plan_after(number) == (HeapPlan::Page {
            page: heap_page(number as int) as u64,
        }),
        number == heap_pages() ==> plan_after(number) == HeapPlan::Enable,
    decreases number,
{
    if number > 0 {
        law_heap_pages_come_in_order((number - 1) as nat);
    }
}

/// Every address of the heap lies on exactly one of its pages.
pub proof fn law_heap_is_covered(address: int, number: int)
    requires
        HEAP_START <= address < HEAP_START + HEAP_SIZE,
    ensures
        heap_page(number) <= address < heap_page(number) + FRAME_SIZE <==> number == (address
            - HEAP_START) / (FRAME_SIZE as int),
        0 <= (address - HEAP_START) / (FRAME_SIZE as int) < heap_pages(),
{
}

/// Frames are given out in the order of the regions.
pub proof fn law_regions_are_used_in_order(a: Seq<MemoryRegion>, b: Seq<MemoryRegion>)
    ensures
        frames_in(a + b) == frames_in(a) + frames_in(b),
    decreases b.len(),
{
    if b.len() > 0 {
        law_regions_are_used_in_order(a, b.drop_last());
        assert((a + b).drop_last() =~= a + b.drop_last());
        assert(frames_in(a + b) =~= frames_in(a) + frames_in(b));
    } else {
        assert(a + b =~= a);
        assert(frames_in(a + b) =~= frames_in(a) + frames_in(b));
    }
}

/// A usable region gives every whole frame of 4096 bytes in it, from the lowest to the
/// highest, and a region of any other kind gives none.
pub proof fn law_region_gives_all_its_frames(region: MemoryRegion, address: int)
    requires
        region.well_formed(),
    ensures
        frames_in(seq![region]) == region.frames(),
        !(region.kind is Usable) ==> region.frames().len() == 0,
        region.kind is Usable && address % 4096 == 0 && region.start <= address && address + 4096
            <= region.end ==> {
            let number = (address - region.frames()[0]) / 4096;
            &&& region.frames()[0] <= address
            &&& 0 <= number < region.frames().len() && region.frames()[number] == address
        },
        region.frames().len() > 0 ==> region.start <= region.frames()[0] < region.start + 4096,
        forall|k: int|
            0 <= k < region.frames().len() ==> (#[trigger] region.frames()[k])
                == region.frames()[0] + 4096 * k,
{
    assert(frames_in(seq![region].drop_last()).len() == 0);
    assert(frames_in(seq![region]) =~= region.frames());
    assert forall|k: int| 0 <= k < region.frames().len() implies (#[trigger] region.frames()[k])
        == region.frames()[0] + 4096 * k by {
        assert(region.frames()[k] == (region.first_frame() + FRAME_SIZE * k) as u64);
        assert(region.frames()[0] == region.first_frame() as u64);
        assert(region.first_frame() + FRAME_SIZE * k <= region.frames_end());
    }
    if region.kind is Usable && address % 4096 == 0 && region.start <= address && address + 4096
        <= region.end {
        assert(region.first_frame() <= address);
        assert(address + 4096 <= region.frames_end());
        let number = (address - region.first_frame()) / 4096;
        assert(region.first_frame() + 4096 * number == address);
        assert(0 <= number < region.frame_count());
        assert(region.frames()[0] == region.first_frame() as u64);
        assert(region.frames()[number] == (region.first_frame() + FRAME_SIZE * number) as u64);
    }
}

/// Every whole frame of every usable region is given out.
pub proof fn law_every_usable_frame_is_given(regions: Seq<MemoryRegion>, i: int, address: int)
    requires
        well_formed_map(regions),
        0 <= i < regions.len(),
        regions[i].kind is Usable,
        address % 4096 == 0,
        regions[i].start <= address,
        address + 4096 <= regions[i].end,
    ensures
        exists|n: int| 0 <= n < frames_in(regions).len() && #[trigger] frames_in(regions)[n]
            == address,
    decreases regions.len(),
{
    let before = regions.drop_last();
    let last = regions.last();
    if i == regions.len() - 1 {
        law_region_gives_all_its_frames(last, address);
        let number = (address - last.frames()[0]) / 4096;
        assert(frames_in(regions)[frames_in(before).len() + number] == last.frames()[number]);
    } else {
        assert forall|k: int| 0 <= k < before.len() implies (#[trigger] before[k]).well_formed() by {
            assert(before[k] == regions[k]);
        }
        law_every_usable_frame_is_given(before, i, address);
        let n = choose|n: int|
            0 <= n < frames_in(before).len() && #[trigger] frames_in(before)[n] == address;
        assert(frames_in(regions)[n] == frames_in(before)[n]);
    }
}

/// The heap: two mebibytes at a fixed place, in pages that are present, writable and never
/// executable, and nothing else.
pub proof fn law_heap_measures()
    ensures
        HEAP_START == 0x5555_0000_0000,
        HEAP_SIZE == 2 * 1024 * 1024,
        HEAP_PAGE_FLAGS == 0x8000_0000_0000_0000 + 2 + 1,
        heap_pages() == 512,
{
}

/// One step of the heap's setup: it starts with the first page, goes on with the page right
/// behind one that was mapped, and ends behind the last page; a mapping that failed ends
/// it with that error.
pub proof fn law_heap_setup_steps(setup: HeapSetup, mapped: Result<(), MapToError>)
    requires
        setup.well_formed(),
    ensures
        match setup {
            HeapSetup::Begin => setup.plan(mapped) == (HeapPlan::Page { page: 0x5555_0000_0000 }),
            HeapSetup::Mapping { page } => {
                &&& 0x5555_0000_0000 <= page < 0x5555_0020_0000
                &&& mapped matches Err(error) ==> setup.plan(mapped) == (HeapPlan::Stop {
                    action: HeapAction::Failed(error),
                })
                &&& mapped is Ok ==> setup.plan(mapped) == if page + 4096 < 0x5555_0020_0000 {
                    HeapPlan::Page { page: (page + 4096) as u64 }
                } else {
                    HeapPlan::Enable
                }
            },
            HeapSetup::Finished { action } => setup.plan(mapped) == (HeapPlan::Stop { action }),
        },
{
}

/// A region is refused only for a usable frame that has no physical address: regions of
/// other kinds, and those that end within the 52 bits, never are.
pub proof fn law_regions_within_addresses_are_taken(region: MemoryRegion)
    ensures
        !(region.kind is Usable) ==> region.well_formed(),
        region.start <= u64::MAX - 4095 && region.end < 0x10_0000_0000_1000 ==> region.well_formed(),
        region.well_formed() && region.frames().len() > 0 ==> region.frames().last() + 4096
            <= 0x10_0000_0000_0000,
{
    if region.well_formed() && region.frames().len() > 0 {
        let k = region.frames().len() - 1;
        assert(region.frames()[k] == (region.first_frame() + FRAME_SIZE * k) as u64);
        assert(region.first_frame() + FRAME_SIZE * k + FRAME_SIZE <= region.frames_end());
    }
}

} // verus!
