//! Guest physical memory: addresses, regions, and the attributes that a region is given.

use vstd::prelude::*;

verus! {

/// Size of a small guest page.
pub const PAGE_SIZE: u64 = 0x1000;

/// Size of a large guest page.
pub const PAGE_SIZE_2MB: u64 = 0x200000;

/// Attribute of guest memory that is private to the guest.
pub const MEMORY_ATTRIBUTE_PRIVATE: u64 = 8;

/// An address in guest physical memory.
#[derive(Clone, Copy, Debug, PartialEq, Eq, Structural)]
pub struct GuestAddress(pub u64);

/// A range of guest physical memory.
#[derive(Clone, Copy, Debug, PartialEq, Eq, Structural)]
pub struct MemoryRegion {
    pub start: GuestAddress,
    pub len: u64,
}

/// A request to give `size` bytes of guest memory at `address` the attributes `attributes`.
#[derive(Clone, Copy, Debug, PartialEq, Eq, Structural)]
pub struct MemoryAttributes {
    pub address: u64,
    pub size: u64,
    pub attributes: u64,
    pub flags: u64,
}

/// A request to write `bytes` to guest memory at `address`.
#[derive(Debug)]
pub struct GuestWrite {
    pub address: GuestAddress,
    pub bytes: Vec<u8>,
}

impl View for GuestWrite {
    type V = (GuestAddress, Seq<u8>);

    open spec fn view(&self) -> (GuestAddress, Seq<u8>) {
        (self.address, self.bytes@)
    }
}

/// Guest memory after `write`, where it held `memory` before: the bytes of the write from its
/// address on, and what it held everywhere else.
pub open spec fn written(memory: spec_fn(int) -> u8, write: (GuestAddress, Seq<u8>)) -> spec_fn(
    int,
) -> u8 {
    let (address, bytes) = write;
    |a: int|
        if address.0 <= a < address.0 + bytes.len() {
            bytes[a - address.0]
        } else {
            memory(a)
        }
}

/// Where the initial ramdisk finally stands in guest memory.
#[derive(Clone, Copy, Debug, PartialEq, Eq, Structural)]
pub struct InitrdConfig {
    pub address: GuestAddress,
    pub size: usize,
}

/// An entry of the memory map that is handed to the guest kernel.
#[derive(Clone, Copy, Debug, PartialEq, Eq, Structural)]
pub struct E820Entry {
    pub addr: u64,
    pub size: u64,
}

/// The greatest multiple of `step` that is not above `x`.
pub open spec fn floor_to(x: int, step: int) -> int {
    x - x % step
}

/// The least multiple of `step` that is not below `x`.
pub open spec fn ceil_to(x: int, step: int) -> int {
    if x % step == 0 {
        x
    } else {
        x - x % step + step
    }
}

/// Whether exactly one bit of `x` is set.
pub open spec fn is_power_of_two(x: u64) -> bool {
    x != 0 && x & ((x - 1) as u64) == 0
}

/// `align_address::Align::align_down` for `u64`: the greatest multiple of `align` that is not
/// above `addr`. It panics where `align` is not a power of two.
#[verifier::external_body]
pub(crate) fn align_down(addr: u64, align: u64) -> (r: u64)
    requires
        is_power_of_two(align),
    ensures
        r == floor_to(addr as int, align as int),
{
    align_address::Align::align_down(addr, align)
}

/// `align_address::Align::align_up` for `u64`: the least multiple of `align` that is not below
/// `addr`. It panics where `align` is not a power of two or where that multiple does not fit.
#[verifier::external_body]
pub(crate) fn align_up(addr: u64, align: u64) -> (r: u64)
    requires
        is_power_of_two(align),
        ceil_to(addr as int, align as int) <= u64::MAX,
    ensures
        r == ceil_to(addr as int, align as int),
{
    align_address::Align::align_up(addr, align)
}

pub(crate) proof fn page_size_is_power_of_two()
    ensures
        is_power_of_two(PAGE_SIZE),
{
    assert(0x1000u64 & 0xfffu64 == 0) by (bit_vector);
}

impl MemoryRegion {
    /// The whole pages that `len` bytes from `start` on touch.
    pub open spec fn page_aligned(start: GuestAddress, len: u64) -> MemoryRegion {
        let first = floor_to(start.0 as int, PAGE_SIZE as int);
        MemoryRegion {
            start: GuestAddress(first as u64),
            len: ceil_to(len + (start.0 - first), PAGE_SIZE as int) as u64,
        }
    }

    /// Whether the pages that `len` bytes from `start` on touch have a length that fits.
    pub open spec fn page_aligned_fits(start: GuestAddress, len: u64) -> bool {
        ceil_to(len + start.0 % PAGE_SIZE, PAGE_SIZE as int) <= u64::MAX
    }

    /// Whether the region consists of whole pages.
    pub open spec fn is_page_aligned(self) -> bool {
        self.start.0 % PAGE_SIZE == 0 && self.len % PAGE_SIZE == 0
    }

    /// Whether the pages that `len` bytes from `start` on touch have a length that fits.
    pub fn fits(start: GuestAddress, len: u64) -> (ok: bool)
        ensures
            ok == MemoryRegion::page_aligned_fits(start, len),
    {
        let added: u64 = start.0 % PAGE_SIZE;
        len <= u64::MAX - added && can_round_up(len + added)
    }

    /// The whole pages that `len` bytes from `start` on touch.
    pub fn new(start: GuestAddress, len: u64) -> (region: MemoryRegion)
        requires
            MemoryRegion::page_aligned_fits(start, len),
        ensures
            region == MemoryRegion::page_aligned(start, len),
            region.is_page_aligned(),
    {
        proof {
            page_size_is_power_of_two();
        }
        let start_addr: u64 = align_down(start.0, PAGE_SIZE);
        let added: u64 = start.0 - start_addr;
        let len: u64 = align_up(len + added, PAGE_SIZE);
        MemoryRegion { start: GuestAddress(start_addr), len }
    }
}

/// Whether `size` rounded up to a small page fits.
pub fn can_round_up(size: u64) -> (ok: bool)
    ensures
        ok == (ceil_to(size as int, PAGE_SIZE as int) <= u64::MAX),
{
    size % PAGE_SIZE == 0 || size <= u64::MAX - PAGE_SIZE
}

/// `address` rounded down to a large page.
pub fn align_to_large_page(address: u64) -> (r: u64)
    ensures
        r == floor_to(address as int, PAGE_SIZE_2MB as int),
{
    assert(address & !(0x1fffffu64) == address - address % 0x200000) by (bit_vector);
    assert(0x200000u64 - 1 == 0x1fffffu64);
    address & !(0x200000 - 1)
}

/// `size` rounded up to a small page.
pub fn round_up_to_page(size: u64) -> (r: u64)
    requires
        ceil_to(size as int, PAGE_SIZE as int) <= u64::MAX,
    ensures
        r == ceil_to(size as int, PAGE_SIZE as int),
{
    assert(size & !(0xfffu64) == size - size % 0x1000) by (bit_vector);
    let floor: u64 = size & !(0x1000 - 1);
    if size > floor {
        floor + 0x1000
    } else {
        size
    }
}

/// The attributes for one region: its pages get `attributes`.
pub open spec fn region_attributes(region: MemoryRegion, attributes: u64) -> MemoryAttributes {
    MemoryAttributes {
        address: region.start.0,
        size: ceil_to(region.len as int, PAGE_SIZE as int) as u64,
        attributes,
        flags: 0,
    }
}

/// The attributes for `regions`, the last of them first.
pub open spec fn attributes_of(regions: Seq<MemoryRegion>, attributes: u64) -> Seq<MemoryAttributes> {
    Seq::new(
        regions.len(),
        |i: int| region_attributes(regions[regions.len() - 1 - i], attributes),
    )
}

/// Whether the pages of each of `regions` have a length that fits.
pub open spec fn all_fit(regions: Seq<MemoryRegion>) -> bool {
    forall|i: int|
        0 <= i < regions.len() ==> ceil_to((#[trigger] regions[i]).len as int, PAGE_SIZE as int)
            <= u64::MAX
}

/// Whether the pages of each of `regions` have a length that fits.
pub fn can_drain(regions: &Vec<MemoryRegion>) -> (ok: bool)
    ensures
        ok == all_fit(regions@),
{
    let mut i: usize = 0;
    while i < regions.len()
        invariant
            i <= regions@.len(),
            forall|j: int|
                0 <= j < i ==> ceil_to((#[trigger] regions@[j]).len as int, PAGE_SIZE as int)
                    <= u64::MAX,
        decreases regions@.len() - i,
    {
        if !can_round_up(regions[i].len) {
            return false;
        }
        i += 1;
    }
    true
}

/// Takes all of `regions` away, the last of them first, and gives the attributes for them.
pub fn drain_regions(regions: &mut Vec<MemoryRegion>, attributes: u64) -> (out: Vec<
    MemoryAttributes,
>)
    requires
        all_fit(old(regions)@),
    ensures
        out@ == attributes_of(old(regions)@, attributes),
        final(regions)@ == Seq::<MemoryRegion>::empty(),
{
    let mut out: Vec<MemoryAttributes> = Vec::new();
    let ghost all = regions@;
    while regions.len() > 0
        invariant
            all_fit(all),
            regions@.len() <= all.len(),
            regions@ == all.take(regions@.len() as int),
            out@ == attributes_of(all, attributes).take(all.len() - regions@.len()),
        decreases regions@.len(),
    {
        match regions.pop() {
            Some(e) => {
                out.push(
                    MemoryAttributes {
                        address: e.start.0,
                        size: round_up_to_page(e.len),
                        attributes,
                        flags: 0,
                    },
                );
            },
            None => {},
        }
        assert(out@ =~= attributes_of(all, attributes).take(all.len() - regions@.len()));
    }
    out
}

impl InitrdConfig {
    /// Whether there is room for the plain text ahead of the place where the ramdisk will stand.
    pub open spec fn has_room(self) -> bool {
        self.size <= floor_to(self.address.0 as int, PAGE_SIZE_2MB as int)
    }

    /// The large pages that hold the plain text of the ramdisk: as many as it needs, ending where
    /// the large page of its final address starts.
    pub open spec fn plain_text(self) -> MemoryRegion {
        let top = floor_to(self.address.0 as int, PAGE_SIZE_2MB as int);
        MemoryRegion {
            start: GuestAddress(floor_to(top - self.size, PAGE_SIZE_2MB as int) as u64),
            len: ceil_to(self.size as int, PAGE_SIZE_2MB as int) as u64,
        }
    }

    /// Whether there is room for the plain text ahead of the place where the ramdisk will stand.
    pub fn fits(&self) -> (ok: bool)
        ensures
            ok == self.has_room(),
    {
        self.size as u64 <= align_to_large_page(self.address.0)
    }

    /// Where the plain text of the ramdisk is kept for the guest to copy.
    pub fn plain_text_region(&self) -> (region: MemoryRegion)
        requires
            self.has_room(),
        ensures
            region == self.plain_text(),
    {
        let load_addr: u64 = self.address.0;
        let size: u64 = self.size as u64;
        let load_addr_aligned: u64 = align_to_large_page(load_addr);
        let plain_text_addr: u64 = align_to_large_page(load_addr_aligned - size);
        let floor: u64 = align_to_large_page(size);
        let len: u64 = if size > floor {
            assert(load_addr_aligned == 0x200000 * (load_addr / 0x200000));
            assert(floor == 0x200000 * (size / 0x200000));
            floor + 0x200000
        } else {
            size
        };
        MemoryRegion { start: GuestAddress(plain_text_addr), len }
    }
}

/// The plain text of the ramdisk ends exactly where the large page of its final address starts,
/// so the two never overlap, and its region is made of whole large pages and holds it all.
pub proof fn plain_text_ends_before_initrd(initrd: InitrdConfig)
    requires
        initrd.has_room(),
    ensures
        initrd.plain_text().start.0 + initrd.plain_text().len == floor_to(
            initrd.address.0 as int,
            PAGE_SIZE_2MB as int,
        ),
        initrd.plain_text().start.0 + initrd.plain_text().len <= initrd.address.0,
        initrd.plain_text().start.0 % PAGE_SIZE_2MB == 0,
        initrd.plain_text().len % PAGE_SIZE_2MB == 0,
        initrd.plain_text().len >= initrd.size,
{
    let pages = initrd.address.0 as int / 0x200000;
    let full = initrd.size as int / 0x200000;
    let left = initrd.size as int % 0x200000;
    let top = floor_to(initrd.address.0 as int, PAGE_SIZE_2MB as int);
    assert(top == 0x200000 * pages);
    assert(initrd.size == 0x200000 * full + left);
    if left == 0 {
        assert(top - initrd.size == 0x200000 * (pages - full));
    } else {
        assert(top - initrd.size == 0x200000 * (pages - full - 1) + (0x200000 - left));
    }
}

proof fn large_pages_are_small_pages(x: int)
    requires
        x % 0x200000 == 0,
    ensures
        x % 0x1000 == 0,
{
    assert(x == 0x1000 * (512 * (x / 0x200000)));
}

/// The plain text of the ramdisk is made of whole small pages too, and rounding keeps it as it is.
pub proof fn plain_text_is_page_aligned(initrd: InitrdConfig)
    requires
        initrd.has_room(),
    ensures
        ({
            let region = initrd.plain_text();
            &&& region.is_page_aligned()
            &&& MemoryRegion::page_aligned_fits(region.start, region.len)
            &&& MemoryRegion::page_aligned(region.start, region.len) == region
        }),
{
    let region = initrd.plain_text();
    plain_text_ends_before_initrd(initrd);
    large_pages_are_small_pages(region.start.0 as int);
    large_pages_are_small_pages(region.len as int);
    page_aligned_is_idempotent(region);
}

/// The pages of a region hold every byte that it was made of, and less than a page of other bytes
/// on either side.
pub proof fn page_aligned_covers(start: GuestAddress, len: u64)
    requires
        MemoryRegion::page_aligned_fits(start, len),
    ensures
        ({
            let region = MemoryRegion::page_aligned(start, len);
            &&& region.is_page_aligned()
            &&& region.start.0 <= start.0 < region.start.0 + PAGE_SIZE
            &&& start.0 + len <= region.start.0 + region.len < start.0 + len + PAGE_SIZE
        }),
{
}

/// A region that already consists of whole pages is kept as it is.
pub proof fn page_aligned_is_idempotent(region: MemoryRegion)
    requires
        region.is_page_aligned(),
    ensures
        MemoryRegion::page_aligned_fits(region.start, region.len),
        MemoryRegion::page_aligned(region.start, region.len) == region,
{
}

impl MemoryAttributes {
    /// Whether the attributes are for `address`.
    pub open spec fn covers(self, address: int) -> bool {
        self.address <= address < self.address + self.size
    }
}

impl MemoryRegion {
    /// Whether `address` lies in the region.
    pub open spec fn contains(self, address: int) -> bool {
        self.start.0 <= address < self.start.0 + self.len
    }
}

/// The attributes that `address` has when those in `set` have been set in their order, if any of
/// them is for it.
pub open spec fn attributes_at(set: Seq<MemoryAttributes>, address: int) -> Option<u64>
    decreases set.len(),
{
    if set.len() == 0 {
        None
    } else if set.last().covers(address) {
        Some(set.last().attributes)
    } else {
        attributes_at(set.drop_last(), address)
    }
}

/// Where private and shared regions overlap, an address ends up shared if the shared regions are
/// registered after the private ones.
pub proof fn shared_regions_win(
    ram: Seq<MemoryRegion>,
    shared: Seq<MemoryRegion>,
    address: int,
    i: int,
)
    requires
        all_fit(shared),
        0 <= i < shared.len(),
        shared[i].contains(address),
    ensures
        attributes_at(
            attributes_of(ram, MEMORY_ATTRIBUTE_PRIVATE) + attributes_of(shared, 0),
            address,
        ) == Some(0u64),
{
    let set = attributes_of(ram, MEMORY_ATTRIBUTE_PRIVATE) + attributes_of(shared, 0);
    let at = ram.len() + (shared.len() - 1 - i);
    assert(set[at] == region_attributes(shared[i], 0));
    some_cover(set, ram.len() as int, at, address, 0);
}

/// An address in a private region that no shared region has a page at ends up private.
pub proof fn private_regions_stay_private(
    ram: Seq<MemoryRegion>,
    shared: Seq<MemoryRegion>,
    address: int,
    i: int,
)
    requires
        all_fit(ram),
        0 <= i < ram.len(),
        ram[i].contains(address),
        forall|j: int|
            0 <= j < shared.len() ==> !region_attributes(#[trigger] shared[j], 0).covers(address),
    ensures
        attributes_at(
            attributes_of(ram, MEMORY_ATTRIBUTE_PRIVATE) + attributes_of(shared, 0),
            address,
        ) == Some(MEMORY_ATTRIBUTE_PRIVATE),
{
    let private = attributes_of(ram, MEMORY_ATTRIBUTE_PRIVATE);
    let set = private + attributes_of(shared, 0);
    uncovered_tail(set, ram.len() as int, address);
    assert(set.take(ram.len() as int) =~= private);
    assert(private[ram.len() - 1 - i] == region_attributes(ram[i], MEMORY_ATTRIBUTE_PRIVATE));
    some_cover(private, 0, ram.len() - 1 - i, address, MEMORY_ATTRIBUTE_PRIVATE);
}

proof fn uncovered_tail(set: Seq<MemoryAttributes>, from: int, address: int)
    requires
        0 <= from <= set.len(),
        forall|j: int| from <= j < set.len() ==> !(#[trigger] set[j]).covers(address),
    ensures
        attributes_at(set, address) == attributes_at(set.take(from), address),
    decreases set.len(),
{
    if from == set.len() {
        assert(set.take(from) =~= set);
    } else {
        uncovered_tail(set.drop_last(), from, address);
        assert(set.drop_last().take(from) =~= set.take(from));
    }
}

proof fn some_cover(set: Seq<MemoryAttributes>, from: int, at: int, address: int, attributes: u64)
    requires
        0 <= from <= at < set.len(),
        set[at].covers(address),
        forall|j: int| from <= j < set.len() ==> (#[trigger] set[j]).attributes == attributes,
    ensures
        attributes_at(set, address) == Some(attributes),
    decreases set.len(),
{
    if !set.last().covers(address) {
        some_cover(set.drop_last(), from, at, address, attributes);
    }
}

/// Rounding down gives a multiple that is not above the number and less than a step below it.
pub proof fn rounding_down_gives_the_greatest_multiple(x: int, step: int)
    requires
        step > 0,
    ensures
        floor_to(x, step) % step == 0,
        floor_to(x, step) <= x < floor_to(x, step) + step,
{
    vstd::arithmetic::div_mod::lemma_fundamental_div_mod(x, step);
    vstd::arithmetic::div_mod::lemma_mod_bound(x, step);
    vstd::arithmetic::div_mod::lemma_mod_multiples_basic(x / step, step);
    assert(floor_to(x, step) == (x / step) * step) by (nonlinear_arith)
        requires
            x == step * (x / step) + x % step,
            floor_to(x, step) == x - x % step,
    ;
}

/// Rounding up gives a multiple that is not below the number and less than a step above it.
pub proof fn rounding_up_gives_the_least_multiple(x: int, step: int)
    requires
        step > 0,
    ensures
        ceil_to(x, step) % step == 0,
        x <= ceil_to(x, step) < x + step,
{
    rounding_down_gives_the_greatest_multiple(x, step);
    vstd::arithmetic::div_mod::lemma_mod_bound(x, step);
    vstd::arithmetic::div_mod::lemma_mod_add_multiples_vanish(x - x % step, step);
}

/// The pages that `len` bytes from `start` on touch are whole pages of 4 KiB: the first holds the
/// first byte, and the last ends less than a page behind the last byte.
pub proof fn touched_pages_hold_every_byte(start: GuestAddress, len: u64)
    requires
        start.0 % 0x1000 + len + 0xfff <= u64::MAX,
    ensures
        MemoryRegion::page_aligned_fits(start, len),
        ({
            let region = MemoryRegion::page_aligned(start, len);
            &&& region.start.0 % 0x1000 == 0
            &&& region.len % 0x1000 == 0
            &&& region.start.0 <= start.0 < region.start.0 + 0x1000
            &&& start.0 + len <= region.start.0 + region.len < start.0 + len + 0x1000
        }),
{
}

/// The attributes for a region are for the memory from its start on, in whole pages of 4 KiB, as few
/// as hold it, and they are the attributes that are asked for.
pub proof fn attributes_are_for_the_pages_of_the_region(region: MemoryRegion, attributes: u64)
    requires
        region.len + 0xfff <= u64::MAX,
    ensures
        ({
            let set = region_attributes(region, attributes);
            &&& set.address == region.start.0
            &&& set.size % 0x1000 == 0
            &&& region.len <= set.size < region.len + 0x1000
            &&& set.attributes == attributes
            &&& set.flags == 0
        }),
{
}

/// Every region gets its attributes, in the order in which regions are taken off the end of the list.
pub proof fn every_region_gets_its_attributes(regions: Seq<MemoryRegion>, attributes: u64, i: int)
    requires
        0 <= i < regions.len(),
        regions[i].len + 0xfff <= u64::MAX,
    ensures
        ({
            let set = attributes_of(regions, attributes);
            let one = set[regions.len() - 1 - i];
            &&& set.len() == regions.len()
            &&& one.address == regions[i].start.0
            &&& one.size % 0x1000 == 0
            &&& regions[i].len <= one.size < regions[i].len + 0x1000
            &&& one.attributes == attributes
            &&& one.flags == 0
        }),
{
    attributes_are_for_the_pages_of_the_region(regions[i], attributes);
}

/// The plain text of a ramdisk is kept in the fewest pages of 2 MiB that hold it. They end at the
/// start of the page of 2 MiB in which the ramdisk will finally stand, and there is room for them
/// exactly if the ramdisk is not longer than what lies before that page.
pub proof fn plain_text_lies_right_before_the_ramdisk(initrd: InitrdConfig)
    ensures
        initrd.has_room() <==> initrd.size <= initrd.address.0 - initrd.address.0 % 0x200000,
        initrd.has_room() ==> {
            let region = initrd.plain_text();
            let end = region.start.0 + region.len;
            &&& region.start.0 % 0x200000 == 0
            &&& region.len % 0x200000 == 0
            &&& initrd.size <= region.len < initrd.size + 0x200000
            &&& end == initrd.address.0 - initrd.address.0 % 0x200000
        },
{
    if initrd.has_room() {
        plain_text_ends_before_initrd(initrd);
    }
}

/// Regions can be registered if the length of each can be rounded up to whole pages.
pub proof fn regions_in_memory_fit(regions: Seq<MemoryRegion>)
    requires
        forall|i: int| 0 <= i < regions.len() ==> (#[trigger] regions[i]).len + 0xfff <= u64::MAX,
    ensures
        all_fit(regions),
{
}

} // verus!
