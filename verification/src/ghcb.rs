//! Page state changes that a running guest asks for in the block that it shares with its host.
//!
//! The shared buffer of the block starts with the number of the current entry and that of the last
//! one; the entries follow.

use vstd::prelude::*;

use crate::bytes;
use crate::memory::{GuestAddress, GuestWrite, MemoryAttributes, MEMORY_ATTRIBUTE_PRIVATE};

verus! {

/// Length of the block, as far as it is read.
pub const GHCB_LEN: usize = 0xffe;

/// Where the shared buffer stands in the block.
pub const GHCB_SHARED_BUF_OFFSET: usize = 0x800;

/// Length of the shared buffer.
pub const GHCB_SHARED_BUF_SIZE: usize = 0x7f0;

/// How many entries the shared buffer has room for.
pub const VMGEXIT_PSC_MAX_ENTRY: usize = 253;

/// One request to change the state of a page.
#[derive(Clone, Copy, Debug, PartialEq, Eq, Structural)]
pub struct PscEntry(pub u64);

impl PscEntry {
    /// The page that is being worked on: the lowest 12 bits.
    pub open spec fn cur_page(self) -> int {
        self.0 as int % 0x1000
    }

    /// The number of the guest page: the next 40 bits.
    pub open spec fn gfn(self) -> int {
        self.0 as int / 0x1000 % 0x100_0000_0000
    }

    /// What is asked for: the next 4 bits.
    pub open spec fn operation(self) -> int {
        self.0 as int / 0x10_0000_0000_0000 % 0x10
    }

    /// Whether the page is a large one: the next bit.
    pub open spec fn page_size(self) -> int {
        self.0 as int / 0x100_0000_0000_0000 % 2
    }

    pub fn _get_cur_page(&self) -> (r: u64)
        ensures
            r == self.cur_page(),
    {
        let x: u64 = self.0;
        assert(x & 0xfff == x % 0x1000) by (bit_vector);
        self.0 & 0xfff
    }

    pub fn get_gfn(&self) -> (r: u64)
        ensures
            r == self.gfn(),
    {
        let x: u64 = self.0;
        assert((x & 0xf_ffff_ffff_f000) >> 12 == x / 0x1000 % 0x100_0000_0000) by (bit_vector);
        assert(0xff_ffff_ffffu64 << 12 == 0xf_ffff_ffff_f000u64) by (bit_vector);
        (self.0 & (0xff_ffff_ffff << 12)) >> 12
    }

    pub fn get_operation(&self) -> (r: u64)
        ensures
            r == self.operation(),
    {
        let x: u64 = self.0;
        assert((x & 0xf0_0000_0000_0000) >> 52 == x / 0x10_0000_0000_0000 % 0x10) by (bit_vector);
        assert(0xfu64 << 52 == 0xf0_0000_0000_0000u64) by (bit_vector);
        (self.0 & (0xf << 52)) >> 52
    }

    pub fn get_page_size(&self) -> (r: u64)
        ensures
            r == self.page_size(),
    {
        let x: u64 = self.0;
        assert((x & 0x100_0000_0000_0000) >> 56 == x / 0x100_0000_0000_0000 % 2) by (bit_vector);
        assert(1u64 << 56 == 0x100_0000_0000_0000u64) by (bit_vector);
        (self.0 & (1 << 56)) >> 56
    }
}

/// The fields of an entry stand side by side and overlap nowhere: together with what stands above
/// them they make up the entry.
pub proof fn entry_is_its_fields(e: PscEntry)
    ensures
        e.0 == e.cur_page() + 0x1000 * e.gfn() + 0x10_0000_0000_0000 * e.operation()
            + 0x100_0000_0000_0000 * e.page_size() + 0x200_0000_0000_0000 * (e.0 as int
            / 0x200_0000_0000_0000),
{
    let x = e.0;
    assert(x == x % 0x1000 + 0x1000 * (x / 0x1000 % 0x100_0000_0000) + 0x10_0000_0000_0000 * (x
        / 0x10_0000_0000_0000 % 0x10) + 0x100_0000_0000_0000 * (x / 0x100_0000_0000_0000 % 2)
        + 0x200_0000_0000_0000 * (x / 0x200_0000_0000_0000)) by (bit_vector);
}

/// What the memory attributes are to be for the page `gfn`, counted in pages of its size.
pub open spec fn page_state(gfn: u64, pg_size: u64, private: bool) -> MemoryAttributes {
    MemoryAttributes {
        address: (if pg_size == 0x1000 {
            gfn * 0x1000
        } else {
            gfn * 0x200000
        } % 0x1_0000_0000_0000_0000) as u64,
        size: pg_size,
        attributes: if private {
            MEMORY_ATTRIBUTE_PRIVATE
        } else {
            0
        },
        flags: 0,
    }
}

/// What the memory attributes are to be for the page `gfn`, counted in pages of its size.
pub fn set_page_state(gfn: u64, pg_size: u64, private: bool) -> (attrs: MemoryAttributes)
    ensures
        attrs == page_state(gfn, pg_size, private),
{
    assert(gfn << 12 == (gfn * 0x1000) % 0x1_0000_0000_0000_0000) by (bit_vector);
    assert(gfn << 21 == (gfn * 0x200000) % 0x1_0000_0000_0000_0000) by (bit_vector);
    MemoryAttributes {
        attributes: if private {
            MEMORY_ATTRIBUTE_PRIVATE
        } else {
            0
        },
        address: if pg_size == 0x1000 {
            gfn << 12
        } else {
            gfn << 21
        },
        size: pg_size,
        flags: 0,
    }
}

/// What the guest asks for with an entry.
pub open spec fn entry_state(e: PscEntry) -> MemoryAttributes {
    page_state(
        e.gfn() as u64,
        if e.page_size() == 0 {
            0x1000
        } else {
            0x200000
        },
        e.operation() == 1,
    )
}

/// The number of the current entry in the shared buffer `buf`.
pub open spec fn cur_entry(buf: Seq<u8>) -> u16 {
    bytes::de16(buf, 0)
}

/// The number of the last entry in the shared buffer `buf`.
pub open spec fn end_entry(buf: Seq<u8>) -> u16 {
    bytes::de16(buf, 2)
}

/// The entry `i` in the shared buffer `buf`.
pub open spec fn entry(buf: Seq<u8>, i: int) -> PscEntry {
    PscEntry(bytes::de64(buf, 8 + 8 * i))
}

/// The shared buffer of the block `ghcb`.
pub open spec fn shared_buffer(ghcb: Seq<u8>) -> Seq<u8> {
    ghcb.subrange(0x800, 0xff0)
}

/// Whether all entries that are to be handled stand in the shared buffer `buf`.
pub open spec fn entries_in_range(buf: Seq<u8>) -> bool {
    &&& end_entry(buf) < u16::MAX
    &&& cur_entry(buf) <= end_entry(buf) ==> end_entry(buf) < VMGEXIT_PSC_MAX_ENTRY
}

/// What the guest asks for in the shared buffer `buf`: the entries from the current one to the last
/// one, in their order.
pub open spec fn requested(buf: Seq<u8>) -> Seq<MemoryAttributes> {
    if cur_entry(buf) <= end_entry(buf) {
        Seq::new(
            (end_entry(buf) + 1 - cur_entry(buf)) as nat,
            |k: int| entry_state(entry(buf, cur_entry(buf) + k)),
        )
    } else {
        Seq::empty()
    }
}

/// The shared buffer `buf` when its entries have been handled: the current entry is the one after
/// the last one, and nothing else has changed.
pub open spec fn handled(buf: Seq<u8>) -> Seq<u8> {
    if cur_entry(buf) <= end_entry(buf) {
        bytes::le16((end_entry(buf) + 1) as u16) + buf.skip(2)
    } else {
        buf
    }
}

/// How the host reacts to a request of the guest.
#[derive(Debug)]
pub struct VmgExit {
    /// The memory attributes to set, in this order
    pub changes: Vec<MemoryAttributes>,
    /// What is then written back
    pub reply: GuestWrite,
}

/// Whether all entries that are to be handled stand in the shared buffer of the block `ghcb`.
pub fn can_handle(ghcb: &[u8]) -> (ok: bool)
    requires
        ghcb@.len() == GHCB_LEN,
    ensures
        ok == entries_in_range(shared_buffer(ghcb@)),
{
    let shared_buf = vstd::slice::slice_subrange(ghcb, 0x800, 0xff0);
    let cur: u16 = bytes::read_le16(shared_buf, 0);
    let end: u16 = bytes::read_le16(shared_buf, 2);
    end < u16::MAX && (cur > end || (end as usize) < VMGEXIT_PSC_MAX_ENTRY)
}

/// Whether the guest asks for anything in the shared buffer of the block `ghcb`.
pub fn has_requests(ghcb: &[u8]) -> (b: bool)
    requires
        ghcb@.len() == GHCB_LEN,
    ensures
        b == (requested(shared_buffer(ghcb@)).len() > 0),
{
    let shared_buf = vstd::slice::slice_subrange(ghcb, 0x800, 0xff0);
    let cur: u16 = bytes::read_le16(shared_buf, 0);
    let end: u16 = bytes::read_le16(shared_buf, 2);
    cur <= end
}

/// Handles the requests in the block `ghcb`, which stands at `ghcb_msr` in guest memory.
pub fn handle_vmgexit(ghcb_msr: u64, ghcb: &[u8]) -> (exit: VmgExit)
    requires
        ghcb@.len() == GHCB_LEN,
        entries_in_range(shared_buffer(ghcb@)),
        ghcb_msr + GHCB_SHARED_BUF_OFFSET <= u64::MAX,
    ensures
        exit.changes@ == requested(shared_buffer(ghcb@)),
        exit.reply@ == (
            GuestAddress((ghcb_msr + GHCB_SHARED_BUF_OFFSET) as u64),
            handled(shared_buffer(ghcb@)),
        ),
        exit.reply.address.0 == ghcb_msr + 0x800,
{
    let shared_buf = vstd::slice::slice_subrange(ghcb, 0x800, 0xff0);
    let first: u16 = bytes::read_le16(shared_buf, 0);
    let end: u16 = bytes::read_le16(shared_buf, 2);
    let mut changes: Vec<MemoryAttributes> = Vec::new();
    let mut cur: u16 = first;
    while cur <= end
        invariant
            shared_buf@.len() == GHCB_SHARED_BUF_SIZE,
            first == cur_entry(shared_buf@),
            end == end_entry(shared_buf@),
            entries_in_range(shared_buf@),
            first <= cur,
            first <= end ==> cur <= end + 1,
            first > end ==> cur == first,
            changes@ == Seq::new(
                (cur - first) as nat,
                |k: int| entry_state(entry(shared_buf@, first + k)),
            ),
        decreases end + 1 - cur,
    {
        let e = PscEntry(bytes::read_le64(shared_buf, 8 + 8 * cur as usize));
        let private: bool = e.get_operation() == 1;
        let pg_size: u64 = if e.get_page_size() == 0 {
            0x1000
        } else {
            0x200000
        };
        changes.push(set_page_state(e.get_gfn(), pg_size, private));
        cur = cur + 1;
        assert(changes@ =~= Seq::new(
            (cur - first) as nat,
            |k: int| entry_state(entry(shared_buf@, first + k)),
        ));
    }
    let mut reply: Vec<u8> = Vec::new();
    bytes::push_le16(&mut reply, cur);
    let mut rest: Vec<u8> = vstd::slice::slice_to_vec(
        vstd::slice::slice_subrange(shared_buf, 2, 0x7f0),
    );
    reply.append(&mut rest);
    proof {
        bytes::encode_after_decode16(shared_buf@, 0);
        assert(reply@ =~= handled(shared_buf@));
    }
    VmgExit {
        changes,
        reply: GuestWrite {
            address: GuestAddress(ghcb_msr + GHCB_SHARED_BUF_OFFSET as u64),
            bytes: reply,
        },
    }
}

/// Every entry is handled once: in the buffer that is written back nothing is left to handle, and
/// to handle it again would not change it.
pub proof fn entries_are_handled_once(buf: Seq<u8>)
    requires
        buf.len() == GHCB_SHARED_BUF_SIZE,
        entries_in_range(buf),
    ensures
        handled(buf).len() == buf.len(),
        entries_in_range(handled(buf)),
        requested(handled(buf)) == Seq::<MemoryAttributes>::empty(),
        handled(handled(buf)) == handled(buf),
{
    let after = handled(buf);
    if cur_entry(buf) <= end_entry(buf) {
        let next = (end_entry(buf) + 1) as u16;
        assert(after.subrange(0, 2) =~= bytes::le16(next));
        bytes::decode_after_encode16(after, 0, next);
        assert(after[2] == buf[2] && after[3] == buf[3]);
    }
}

/// No request is lost and none is added: what is handled is one change for each entry from the
/// current one to the last one, and the entries themselves are written back as they were.
pub proof fn each_entry_is_one_change(buf: Seq<u8>, i: int)
    requires
        buf.len() == GHCB_SHARED_BUF_SIZE,
        entries_in_range(buf),
        cur_entry(buf) <= i <= end_entry(buf),
    ensures
        requested(buf).len() == end_entry(buf) + 1 - cur_entry(buf),
        requested(buf)[i - cur_entry(buf)] == entry_state(entry(buf, i)),
        entry(handled(buf), i) == entry(buf, i),
{
    let after = handled(buf);
    assert forall|j: int| 2 <= j < buf.len() implies after[j] == buf[j] by {
    }
}

/// The fields of an entry are its bits: 0 to 11, 12 to 51, 52 to 55, and 56.
pub proof fn fields_are_bits_of_the_entry(entry: PscEntry)
    ensures
        entry.cur_page() == entry.0 & 0xfff,
        entry.gfn() == (entry.0 >> 12) & 0xff_ffff_ffff,
        entry.operation() == (entry.0 >> 52) & 0xf,
        entry.page_size() == (entry.0 >> 56) & 1,
{
    let e = entry.0;
    assert(e % 0x1000 == e & 0xfff) by (bit_vector);
    assert(e / 0x1000 % 0x100_0000_0000 == (e >> 12) & 0xff_ffff_ffff) by (bit_vector);
    assert(e / 0x10_0000_0000_0000 % 0x10 == (e >> 52) & 0xf) by (bit_vector);
    assert(e / 0x100_0000_0000_0000 % 2 == (e >> 56) & 1) by (bit_vector);
}

/// A page gets the private attribute if it is to be private and none otherwise, whatever its size,
/// and the attributes are for that page and no other memory: the page numbers count pages of 4 KiB,
/// or of 2 MiB where the size is another one.
pub proof fn page_gets_the_state_that_is_asked_for(gfn: u64, pg_size: u64, private: bool)
    ensures
        ({
            let change = page_state(gfn, pg_size, private);
            &&& private ==> change.attributes == 8
            &&& !private ==> change.attributes == 0
            &&& change.size == pg_size
            &&& change.flags == 0
            &&& pg_size == 0x1000 ==> change.address == (gfn * 0x1000) % 0x1_0000_0000_0000_0000
            &&& pg_size != 0x1000 ==> change.address == (gfn * 0x200000) % 0x1_0000_0000_0000_0000
        }),
{
}

/// For every entry from the current one to the last one, of either page size, one change is made, in
/// the order of the entries. It makes the page private if bits 52 to 55 of the entry are 1 and shared
/// otherwise. Its size is 4 KiB or 2 MiB by bit 56, and it starts where the page with the number in
/// bits 12 to 51 stands, counted in pages of that size.
pub proof fn change_is_what_the_entry_asks_for(buf: Seq<u8>, i: int)
    requires
        ({
            let cur = buf[0] + 0x100 * buf[1];
            let end = buf[2] + 0x100 * buf[3];
            cur <= i <= end
        }),
    ensures
        ({
            let cur = buf[0] + 0x100 * buf[1];
            let end = buf[2] + 0x100 * buf[3];
            let e = bytes::de64(buf, 8 + 8 * i);
            let change = requested(buf)[i - cur];
            &&& requested(buf).len() == end - cur + 1
            &&& (e >> 52) & 0xf == 1 ==> change.attributes == 8
            &&& (e >> 52) & 0xf != 1 ==> change.attributes == 0
            &&& (e >> 56) & 1 == 0 ==> change.size == 0x1000
            &&& (e >> 56) & 1 == 1 ==> change.size == 0x200000
            &&& change.address == ((e >> 12) & 0xff_ffff_ffff) * change.size
            &&& change.flags == 0
        }),
{
    bytes::bytes_add_up_to_their_number(buf, 0);
    bytes::bytes_add_up_to_their_number(buf, 2);
    requested_entry(buf, i);
    change_of_an_entry(bytes::de64(buf, 8 + 8 * i));
}

proof fn requested_entry(buf: Seq<u8>, i: int)
    requires
        cur_entry(buf) <= i <= end_entry(buf),
    ensures
        requested(buf).len() == end_entry(buf) + 1 - cur_entry(buf),
        requested(buf)[i - cur_entry(buf)] == entry_state(PscEntry(bytes::de64(buf, 8 + 8 * i))),
{
}

proof fn change_of_an_entry(e: u64)
    ensures
        ({
            let change = entry_state(PscEntry(e));
            &&& (e >> 52) & 0xf == 1 ==> change.attributes == 8
            &&& (e >> 52) & 0xf != 1 ==> change.attributes == 0
            &&& (e >> 56) & 1 == 0 ==> change.size == 0x1000
            &&& (e >> 56) & 1 == 1 ==> change.size == 0x200000
            &&& change.address == ((e >> 12) & 0xff_ffff_ffff) * change.size
            &&& change.flags == 0
        }),
{
    fields_are_bits_of_the_entry(PscEntry(e));
}

/// Nothing is changed where the last entry comes before the current one, and the buffer is then
/// written back as it was.
pub proof fn nothing_is_changed_without_entries(buf: Seq<u8>)
    requires
        buf[2] + 0x100 * buf[3] < buf[0] + 0x100 * buf[1],
    ensures
        requested(buf).len() == 0,
        handled(buf) == buf,
{
    bytes::bytes_add_up_to_their_number(buf, 0);
    bytes::bytes_add_up_to_their_number(buf, 2);
}

/// The buffer that is written back tells the guest that the entry after the last one is the current
/// one, in its first two bytes; all its other bytes are those of the guest.
pub proof fn reply_moves_the_current_entry_only(buf: Seq<u8>)
    requires
        buf.len() == 0x7f0,
        buf[0] + 0x100 * buf[1] <= buf[2] + 0x100 * buf[3] < 0xffff,
    ensures
        handled(buf).len() == 0x7f0,
        handled(buf)[0] + 0x100 * handled(buf)[1] == buf[2] + 0x100 * buf[3] + 1,
        forall|j: int| 2 <= j < 0x7f0 ==> (#[trigger] handled(buf)[j]) == buf[j],
{
    bytes::bytes_add_up_to_their_number(buf, 0);
    bytes::bytes_add_up_to_their_number(buf, 2);
    bytes::number_is_the_sum_of_its_bytes16((end_entry(buf) + 1) as u16);
}

/// The shared buffer is what stands in the block from 0x800 to 0xff0.
pub proof fn shared_buffer_stands_in_the_block(ghcb: Seq<u8>, j: int)
    requires
        ghcb.len() == 0xffe,
        0 <= j < 0x7f0,
    ensures
        shared_buffer(ghcb).len() == 0x7f0,
        shared_buffer(ghcb)[j] == ghcb[0x800 + j],
{
}

/// A block is handled unless an entry that is asked for would stand behind the 253 for which there is
/// room, or the entry after the last one has no number.
pub proof fn blocks_with_room_for_their_entries_are_handled(buf: Seq<u8>)
    ensures
        ({
            let cur = buf[0] + 0x100 * buf[1];
            let end = buf[2] + 0x100 * buf[3];
            entries_in_range(buf) <==> end < 253 || cur > end && end < 0xffff
        }),
{
    bytes::bytes_add_up_to_their_number(buf, 0);
    bytes::bytes_add_up_to_their_number(buf, 2);
}

} // verus!
