//! The page of CPUID values that an SNP guest is launched with.

use vstd::prelude::*;

use crate::bytes;

verus! {

/// How many values the page has room for.
pub const CPUID_FUNCTION_COUNT_MAX: u32 = 64;

/// Length of one value in the page.
pub const CPUID_FUNCTION_LEN: usize = 48;

/// Length of the page, as far as anything stands in it.
pub const CPUID_PAGE_USED: usize = 3088;

/// What CPUID gives for one function and index.
#[derive(Clone, Copy, Debug, PartialEq, Eq, Structural)]
pub struct CpuidEntry {
    pub function: u32,
    pub index: u32,
    pub eax: u32,
    pub ebx: u32,
    pub ecx: u32,
    pub edx: u32,
}

impl CpuidEntry {
    /// The value as it stands in the page. Of the two extended state masks that it depends on, the
    /// first is 1 for the function that enumerates the extended state and 0 for all others; the
    /// second is 0.
    #[verifier::opaque]
    pub open spec fn encode(self) -> Seq<u8> {
        bytes::le32(self.function) + bytes::le32(self.index) + bytes::le64(
            if self.function == 0xd {
                1
            } else {
                0
            },
        ) + bytes::le64(0) + bytes::le32(self.eax) + bytes::le32(self.ebx) + bytes::le32(self.ecx)
            + bytes::le32(self.edx) + bytes::le64(0)
    }

    /// The value as it stands in the page.
    fn to_bytes(&self) -> (out: Vec<u8>)
        ensures
            out@ == self.encode(),
    {
        reveal(CpuidEntry::encode);
        let xcr0_in: u64 = if self.function == 0xd {
            1
        } else {
            0
        };
        let mut out: Vec<u8> = Vec::new();
        bytes::push_le32(&mut out, self.function);
        assert(out@ =~= bytes::le32(self.function));
        bytes::push_le32(&mut out, self.index);
        bytes::push_le64(&mut out, xcr0_in);
        bytes::push_le64(&mut out, 0);
        bytes::push_le32(&mut out, self.eax);
        bytes::push_le32(&mut out, self.ebx);
        bytes::push_le32(&mut out, self.ecx);
        bytes::push_le32(&mut out, self.edx);
        bytes::push_le64(&mut out, 0);
        out
    }
}

/// What stands in the slot `i` of the page: the value `i`, or zeros where there is none.
pub open spec fn slot(entries: Seq<CpuidEntry>, i: int) -> Seq<u8> {
    if i < entries.len() {
        entries[i].encode()
    } else {
        Seq::new(CPUID_FUNCTION_LEN as nat, |j: int| 0u8)
    }
}

/// The first `n` slots of the page.
pub open spec fn slots(entries: Seq<CpuidEntry>, n: nat) -> Seq<u8>
    decreases n,
{
    if n == 0 {
        Seq::empty()
    } else {
        slots(entries, (n - 1) as nat) + slot(entries, n - 1)
    }
}

/// How many of `entries` stand in the page: all, as far as there is room.
pub open spec fn page_count(entries: Seq<CpuidEntry>) -> u32 {
    if entries.len() < CPUID_FUNCTION_COUNT_MAX {
        entries.len() as u32
    } else {
        CPUID_FUNCTION_COUNT_MAX
    }
}

/// The page: the number of values, reserved bytes, and the slots.
pub open spec fn page(entries: Seq<CpuidEntry>) -> Seq<u8> {
    bytes::le32(page_count(entries)) + bytes::le32(0) + bytes::le64(0) + slots(
        entries,
        CPUID_FUNCTION_COUNT_MAX as nat,
    )
}

fn push_zeros(out: &mut Vec<u8>, n: usize)
    ensures
        final(out)@ == old(out)@ + Seq::new(n as nat, |j: int| 0u8),
{
    let mut i: usize = 0;
    while i < n
        invariant
            i <= n,
            out@ == old(out)@ + Seq::new(i as nat, |j: int| 0u8),
        decreases n - i,
    {
        out.push(0);
        i += 1;
        assert(out@ =~= old(out)@ + Seq::new(i as nat, |j: int| 0u8));
    }
}

/// Lays out the page for `entries`.
pub fn cpuid_page(entries: &[CpuidEntry]) -> (out: Vec<u8>)
    ensures
        out@ == page(entries@),
{
    let count: u32 = if entries.len() < CPUID_FUNCTION_COUNT_MAX as usize {
        entries.len() as u32
    } else {
        CPUID_FUNCTION_COUNT_MAX
    };
    let mut out: Vec<u8> = Vec::new();
    bytes::push_le32(&mut out, count);
    assert(out@ =~= bytes::le32(count));
    bytes::push_le32(&mut out, 0);
    bytes::push_le64(&mut out, 0);
    let ghost head = out@;
    let mut i: usize = 0;
    assert(head + slots(entries@, 0) =~= head);
    while i < 64
        invariant
            i <= 64,
            out@ == head + slots(entries@, i as nat),
        decreases 64 - i,
    {
        if i < entries.len() {
            let mut value: Vec<u8> = entries[i].to_bytes();
            out.append(&mut value);
        } else {
            push_zeros(&mut out, CPUID_FUNCTION_LEN);
        }
        assert(head + slots(entries@, i as nat) + slot(entries@, i as int) =~= head + (slots(
            entries@,
            i as nat,
        ) + slot(entries@, i as int)));
        i += 1;
    }
    out
}

/// The page always has the same length, and fits in a page of memory.
pub proof fn page_len(entries: Seq<CpuidEntry>)
    ensures
        page(entries).len() == CPUID_PAGE_USED,
        CPUID_PAGE_USED <= crate::layout::CPUID_PAGE_LEN,
{
    slots_len(entries, CPUID_FUNCTION_COUNT_MAX as nat);
}

proof fn value_len(entry: CpuidEntry)
    ensures
        entry.encode().len() == CPUID_FUNCTION_LEN,
{
    reveal(CpuidEntry::encode);
}

proof fn slots_len(entries: Seq<CpuidEntry>, n: nat)
    ensures
        slots(entries, n).len() == CPUID_FUNCTION_LEN * n,
    decreases n,
{
    if n > 0 {
        slots_len(entries, (n - 1) as nat);
        if n <= entries.len() {
            value_len(entries[n - 1]);
        }
    }
}

/// Values for which there is no room are left out: the page is the one of those that fit.
pub proof fn values_beyond_the_page_are_left_out(entries: Seq<CpuidEntry>)
    requires
        entries.len() >= CPUID_FUNCTION_COUNT_MAX,
    ensures
        page(entries) == page(entries.take(CPUID_FUNCTION_COUNT_MAX as int)),
{
    same_slots(entries, CPUID_FUNCTION_COUNT_MAX as nat);
}

proof fn same_slots(entries: Seq<CpuidEntry>, n: nat)
    requires
        n <= CPUID_FUNCTION_COUNT_MAX <= entries.len(),
    ensures
        slots(entries, n) == slots(entries.take(CPUID_FUNCTION_COUNT_MAX as int), n),
    decreases n,
{
    if n > 0 {
        same_slots(entries, (n - 1) as nat);
    }
}

/// The slot `i` of the page stands where 48 bytes are left to each slot before it.
proof fn slot_stands_at(entries: Seq<CpuidEntry>, n: nat, i: int)
    requires
        0 <= i < n,
    ensures
        slots(entries, n).subrange(48 * i, 48 * i + 48) == slot(entries, i),
        slots(entries, n).len() == 48 * n,
        slot(entries, i).len() == 48,
    decreases n,
{
    slots_len(entries, n);
    slots_len(entries, (n - 1) as nat);
    if i < entries.len() {
        value_len(entries[i]);
    }
    if i < n - 1 {
        slot_stands_at(entries, (n - 1) as nat, i);
        assert(slots(entries, n).subrange(48 * i, 48 * i + 48) =~= slots(
            entries,
            (n - 1) as nat,
        ).subrange(48 * i, 48 * i + 48));
    } else {
        assert(slots(entries, n).subrange(48 * i, 48 * i + 48) =~= slot(entries, i));
    }
}

/// The fields of a value can be read back from where they stand in its encoding.
proof fn value_fields(v: CpuidEntry)
    ensures
        v.encode().len() == 48,
        bytes::de32(v.encode(), 0) == v.function,
        bytes::de32(v.encode(), 4) == v.index,
        v.function == 0xd ==> bytes::de64(v.encode(), 8) == 1,
        v.function != 0xd ==> bytes::de64(v.encode(), 8) == 0,
        bytes::de64(v.encode(), 16) == 0,
        bytes::de32(v.encode(), 24) == v.eax,
        bytes::de32(v.encode(), 28) == v.ebx,
        bytes::de32(v.encode(), 32) == v.ecx,
        bytes::de32(v.encode(), 36) == v.edx,
        bytes::de64(v.encode(), 40) == 0,
{
    reveal(CpuidEntry::encode);
    let s = v.encode();
    let mask: u64 = if v.function == 0xd {
        1
    } else {
        0
    };
    assert(s.subrange(0, 4) =~= bytes::le32(v.function));
    assert(s.subrange(4, 8) =~= bytes::le32(v.index));
    assert(s.subrange(8, 16) =~= bytes::le64(mask));
    assert(s.subrange(16, 24) =~= bytes::le64(0));
    assert(s.subrange(24, 28) =~= bytes::le32(v.eax));
    assert(s.subrange(28, 32) =~= bytes::le32(v.ebx));
    assert(s.subrange(32, 36) =~= bytes::le32(v.ecx));
    assert(s.subrange(36, 40) =~= bytes::le32(v.edx));
    assert(s.subrange(40, 48) =~= bytes::le64(0));
    bytes::decode_after_encode32(s, 0, v.function);
    bytes::decode_after_encode32(s, 4, v.index);
    bytes::decode_after_encode64(s, 8, mask);
    bytes::decode_after_encode64(s, 16, 0);
    bytes::decode_after_encode32(s, 24, v.eax);
    bytes::decode_after_encode32(s, 28, v.ebx);
    bytes::decode_after_encode32(s, 32, v.ecx);
    bytes::decode_after_encode32(s, 36, v.edx);
    bytes::decode_after_encode64(s, 40, 0);
}

/// What is read from `s` at `at` is what is read from the part of `s` that starts at `from`.
proof fn read_in_part(s: Seq<u8>, from: int, len: int, at: int)
    requires
        0 <= from,
        from + len <= s.len(),
        0 <= at,
    ensures
        at + 4 <= len ==> bytes::de32(s, from + at) == bytes::de32(s.subrange(from, from + len), at),
        at + 8 <= len ==> bytes::de64(s, from + at) == bytes::de64(s.subrange(from, from + len), at),
{
    let part = s.subrange(from, from + len);
    assert forall|j: int| 0 <= j < len implies s[from + j] == #[trigger] part[j] by {
    }
    bytes::bytes_add_up_to_their_number(s, from + at);
    bytes::bytes_add_up_to_their_number(part, at);
    if at + 4 <= len {
        assert(s[from + at] == part[at] && s[from + at + 1] == part[at + 1] && s[from + at + 2]
            == part[at + 2] && s[from + at + 3] == part[at + 3]);
    }
    if at + 8 <= len {
        assert(s[from + at + 4] == part[at + 4] && s[from + at + 5] == part[at + 5] && s[from + at
            + 6] == part[at + 6] && s[from + at + 7] == part[at + 7]);
    }
}

proof fn part_of_page(entries: Seq<CpuidEntry>, i: int)
    requires
        0 <= i < 64,
    ensures
        page(entries).len() == 3088,
        page(entries).subrange(16 + 48 * i, 16 + 48 * i + 48) == slot(entries, i),
{
    slot_stands_at(entries, 64, i);
    let all = slots(entries, 64);
    assert(page(entries).subrange(16 + 48 * i, 16 + 48 * i + 48) =~= all.subrange(
        48 * i,
        48 * i + 48,
    ));
}

/// The guest finds every CPUID value in the page, as far as there is room, in the order in which the
/// values were given: function, index and the four registers, each at its place in the slot of the
/// value. The first extended state mask is 1 for the function that enumerates the extended state and
/// 0 for all others; the second mask and what is reserved are 0.
pub proof fn values_can_be_read_back(entries: Seq<CpuidEntry>, i: int)
    requires
        0 <= i < entries.len(),
        i < 64,
    ensures
        ({
            let s = page(entries);
            let at = 16 + 48 * i;
            let v = entries[i];
            &&& s.len() == 3088
            &&& bytes::de32(s, at) == v.function
            &&& bytes::de32(s, at + 4) == v.index
            &&& v.function == 0xd ==> bytes::de64(s, at + 8) == 1
            &&& v.function != 0xd ==> bytes::de64(s, at + 8) == 0
            &&& bytes::de64(s, at + 16) == 0
            &&& bytes::de32(s, at + 24) == v.eax
            &&& bytes::de32(s, at + 28) == v.ebx
            &&& bytes::de32(s, at + 32) == v.ecx
            &&& bytes::de32(s, at + 36) == v.edx
            &&& bytes::de64(s, at + 40) == 0
        }),
{
    let s = page(entries);
    let at = 16 + 48 * i;
    part_of_page(entries, i);
    value_fields(entries[i]);
    read_in_part(s, at, 48, 0);
    read_in_part(s, at, 48, 4);
    read_in_part(s, at, 48, 8);
    read_in_part(s, at, 48, 16);
    read_in_part(s, at, 48, 24);
    read_in_part(s, at, 48, 28);
    read_in_part(s, at, 48, 32);
    read_in_part(s, at, 48, 36);
    read_in_part(s, at, 48, 40);
}

/// The page starts with the number of values in it, which is that of all values up to 64. What
/// follows up to the slots is 0, and so is every byte of a slot for which there is no value.
pub proof fn page_tells_how_many_values_it_holds(entries: Seq<CpuidEntry>)
    ensures
        ({
            let s = page(entries);
            &&& s.len() == 3088
            &&& entries.len() <= 64 ==> bytes::de32(s, 0) == entries.len()
            &&& entries.len() > 64 ==> bytes::de32(s, 0) == 64
            &&& bytes::de32(s, 4) == 0
            &&& bytes::de64(s, 8) == 0
            &&& forall|j: int| 16 + 48 * entries.len() <= j < 3088 ==> (#[trigger] s[j]) == 0
        }),
{
    let s = page(entries);
    part_of_page(entries, 0);
    assert(s.subrange(0, 4) =~= bytes::le32(page_count(entries)));
    assert(s.subrange(4, 8) =~= bytes::le32(0));
    assert(s.subrange(8, 16) =~= bytes::le64(0));
    bytes::decode_after_encode32(s, 0, page_count(entries));
    bytes::decode_after_encode32(s, 4, 0);
    bytes::decode_after_encode64(s, 8, 0);
    assert forall|j: int| 16 + 48 * entries.len() <= j < 3088 implies (#[trigger] s[j]) == 0 by {
        let i = (j - 16) / 48;
        part_of_page(entries, i);
        assert(s.subrange(16 + 48 * i, 16 + 48 * i + 48)[j - 16 - 48 * i] == s[j]);
    }
}

} // verus!
