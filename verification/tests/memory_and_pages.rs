use sev_boot::bytes;
use sev_boot::cpuid::{self, CpuidEntry};
use sev_boot::debug_port::{DebugPort, DebugRecord};
use sev_boot::ghcb::{self, PscEntry};
use sev_boot::layout::{HashPlacement, PageType};
use sev_boot::memory::{self, GuestAddress, InitrdConfig, MemoryAttributes, MemoryRegion};
use sev_boot::time::TimestampUs;

#[test]
fn numbers_are_little_endian() {
    let mut out: Vec<u8> = Vec::new();
    bytes::push_le16(&mut out, 0x0102);
    bytes::push_le32(&mut out, 0x03040506);
    bytes::push_le64(&mut out, 0x0708090a0b0c0d0e);
    assert_eq!(out, [2, 1, 6, 5, 4, 3, 0xe, 0xd, 0xc, 0xb, 0xa, 9, 8, 7]);
    assert_eq!(bytes::read_le16(&out, 0), 0x0102);
    assert_eq!(bytes::read_le32(&out, 2), 0x03040506);
    assert_eq!(bytes::read_le64(&out, 6), 0x0708090a0b0c0d0e);
    assert_eq!(bytes::pad(&[1, 2], 4), [1, 2, 0, 0]);
}

#[test]
fn regions_are_whole_pages() {
    let region = MemoryRegion::new(GuestAddress(0x1234), 0x1000);
    assert_eq!(region, MemoryRegion { start: GuestAddress(0x1000), len: 0x2000 });
    let region = MemoryRegion::new(GuestAddress(0x1000), 0x1000);
    assert_eq!(region, MemoryRegion { start: GuestAddress(0x1000), len: 0x1000 });
    let region = MemoryRegion::new(GuestAddress(0x1fff), 0);
    assert_eq!(region, MemoryRegion { start: GuestAddress(0x1000), len: 0x1000 });
    assert!(MemoryRegion::fits(GuestAddress(0), 0xfffffffffffff000));
    assert!(!MemoryRegion::fits(GuestAddress(1), 0xfffffffffffff000));
    assert!(!MemoryRegion::fits(GuestAddress(0xfff), u64::MAX));
}

#[test]
fn sizes_are_rounded() {
    assert_eq!(memory::round_up_to_page(0), 0);
    assert_eq!(memory::round_up_to_page(1), 0x1000);
    assert_eq!(memory::round_up_to_page(0x1000), 0x1000);
    assert!(memory::can_round_up(0xfffffffffffff000));
    assert!(!memory::can_round_up(0xfffffffffffff001));
    assert_eq!(memory::align_to_large_page(0x3fffff), 0x200000);
}

#[test]
fn ramdisk_text_ends_where_the_ramdisk_starts() {
    let initrd = InitrdConfig { address: GuestAddress(0x7654321), size: 0x200001 };
    assert!(initrd.fits());
    let region = initrd.plain_text_region();
    assert_eq!(region, MemoryRegion { start: GuestAddress(0x7200000), len: 0x400000 });
    let exact = InitrdConfig { address: GuestAddress(0x600000), size: 0x400000 };
    let region = exact.plain_text_region();
    assert_eq!(region, MemoryRegion { start: GuestAddress(0x200000), len: 0x400000 });
    assert!(!InitrdConfig { address: GuestAddress(0x3fffff), size: 0x200001 }.fits());
}

#[test]
fn regions_are_registered_from_the_last_on() {
    let mut regions = vec![
        MemoryRegion { start: GuestAddress(0x10), len: 0x1001 },
        MemoryRegion { start: GuestAddress(0x4000), len: 0x1000 },
    ];
    assert!(memory::can_drain(&regions));
    let out = memory::drain_regions(&mut regions, 8);
    assert!(regions.is_empty());
    assert_eq!(
        out,
        [
            MemoryAttributes { address: 0x4000, size: 0x1000, attributes: 8, flags: 0 },
            MemoryAttributes { address: 0x10, size: 0x2000, attributes: 8, flags: 0 },
        ]
    );
    assert!(!memory::can_drain(&vec![MemoryRegion { start: GuestAddress(0), len: u64::MAX }]));
}

#[test]
fn entry_is_split_into_its_fields() {
    let e = PscEntry((1 << 56) | (2 << 52) | (0xabcdef0123 << 12) | 0x456);
    assert_eq!(e._get_cur_page(), 0x456);
    assert_eq!(e.get_gfn(), 0xabcdef0123);
    assert_eq!(e.get_operation(), 2);
    assert_eq!(e.get_page_size(), 1);
    let e = PscEntry(u64::MAX);
    assert_eq!((e._get_cur_page(), e.get_gfn()), (0xfff, 0xffffffffff));
    assert_eq!((e.get_operation(), e.get_page_size()), (0xf, 1));
}

fn block(cur: u16, end: u16, entries: &[u64]) -> Vec<u8> {
    let mut b = vec![0u8; 0xffe];
    b[0x800..0x802].copy_from_slice(&cur.to_le_bytes());
    b[0x802..0x804].copy_from_slice(&end.to_le_bytes());
    b[0x804] = 0x77;
    for (i, e) in entries.iter().enumerate() {
        b[0x808 + 8 * i..0x810 + 8 * i].copy_from_slice(&e.to_le_bytes());
    }
    b
}

#[test]
fn page_state_changes_are_handled_in_order() {
    let entries = [9 << 12, (1 << 52) | (7 << 12), (1 << 56) | (2 << 52) | (3 << 12)];
    let b = block(1, 2, &entries);
    assert!(ghcb::can_handle(&b));
    assert!(ghcb::has_requests(&b));
    let exit = ghcb::handle_vmgexit(0x5000, &b);
    assert_eq!(
        exit.changes,
        [
            MemoryAttributes { address: 0x7000, size: 0x1000, attributes: 8, flags: 0 },
            MemoryAttributes { address: 0x600000, size: 0x200000, attributes: 0, flags: 0 },
        ]
    );
    assert_eq!(exit.reply.address, GuestAddress(0x5800));
    let mut expected = b[0x800..0xff0].to_vec();
    expected[0] = 3;
    assert_eq!(exit.reply.bytes, expected);
    // What is written back asks for nothing more.
    let mut again = b.clone();
    again[0x800..0xff0].copy_from_slice(&exit.reply.bytes);
    assert!(!ghcb::has_requests(&again));
    let exit = ghcb::handle_vmgexit(0x5000, &again);
    assert!(exit.changes.is_empty());
    assert_eq!(exit.reply.bytes, expected);
}

#[test]
fn entries_beyond_the_buffer_are_not_handled() {
    assert!(ghcb::can_handle(&block(0, 252, &[])));
    assert!(!ghcb::can_handle(&block(0, 253, &[])));
    assert!(ghcb::can_handle(&block(254, 253, &[])));
    assert!(!ghcb::can_handle(&block(0, 0xffff, &[])));
    assert_eq!(ghcb::handle_vmgexit(0, &block(0, 252, &[])).changes.len(), 253);
}

#[test]
fn page_number_is_shifted_by_the_page_size() {
    let small = ghcb::set_page_state(5, 0x1000, true);
    assert_eq!(small, MemoryAttributes { address: 0x5000, size: 0x1000, attributes: 8, flags: 0 });
    let large = ghcb::set_page_state(5, 0x200000, false);
    assert_eq!(
        large,
        MemoryAttributes { address: 0xa00000, size: 0x200000, attributes: 0, flags: 0 }
    );
    assert_eq!(ghcb::set_page_state(1 << 60, 0x1000, false).address, 0);
}

#[test]
fn cpuid_page_is_laid_out() {
    let entries = [
        CpuidEntry { function: 0xd, index: 1, eax: 2, ebx: 3, ecx: 4, edx: 5 },
        CpuidEntry { function: 0x80000000, index: 0, eax: 6, ebx: 7, ecx: 8, edx: 9 },
    ];
    let page = cpuid::cpuid_page(&entries);
    assert_eq!(page.len(), 3088);
    assert_eq!(page[0..16], [2, 0, 0, 0, 0, 0, 0, 0, 0, 0, 0, 0, 0, 0, 0, 0]);
    assert_eq!(page[16..32], [0xd, 0, 0, 0, 1, 0, 0, 0, 1, 0, 0, 0, 0, 0, 0, 0]);
    assert_eq!(page[32..40], [0u8; 8]);
    assert_eq!(page[40..56], [2, 0, 0, 0, 3, 0, 0, 0, 4, 0, 0, 0, 5, 0, 0, 0]);
    assert_eq!(page[56..64], [0u8; 8]);
    assert_eq!(page[64..80], [0, 0, 0, 0x80, 0, 0, 0, 0, 0, 0, 0, 0, 0, 0, 0, 0]);
    assert!(page[112..].iter().all(|b| *b == 0));
}

#[test]
fn cpuid_values_beyond_the_page_are_left_out() {
    let entry = CpuidEntry { function: 1, index: 0, eax: 2, ebx: 3, ecx: 4, edx: 5 };
    let full = cpuid::cpuid_page(&vec![entry; 64]);
    assert_eq!(full[0], 64);
    assert_eq!(full[16 + 63 * 48], 1);
    let mut more = vec![entry; 64];
    more.push(CpuidEntry { function: 9, index: 9, eax: 9, ebx: 9, ecx: 9, edx: 9 });
    assert_eq!(cpuid::cpuid_page(&more), full);
    assert_eq!(cpuid::cpuid_page(&[]), vec![0u8; 3088]);
}

#[test]
fn codes_are_timed() {
    let port = DebugPort::new(TimestampUs { time_us: 10, cputime_us: 3 });
    let record = port.write(&[0x42, 1], TimestampUs { time_us: 25, cputime_us: 5 });
    assert_eq!(record, DebugRecord { code: 0x42, real: 15, cpu: 2 });
}

#[test]
fn page_types_have_numbers() {
    assert_eq!(PageType::Normal.code(), 1);
    assert_eq!(PageType::Secrets.code(), 5);
    assert_eq!(PageType::Cpuid.code(), 6);
    assert_eq!(HashPlacement::new(true).first(), GuestAddress(0xfffc0));
    assert_eq!(HashPlacement::new(false).first(), GuestAddress(0xfffe0));
}
