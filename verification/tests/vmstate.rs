use zeroboot::cpuid::parse_cpuid;
use zeroboot::kvm::{KvmCpuidEntry2, KvmMsrEntry, KvmXcr};
use zeroboot::layout::{adj, detect_offset_shift, VmStateError};
use zeroboot::msrs::{is_wanted, parse_msrs};
use zeroboot::snapshot::build_snapshot;
use zeroboot::vmstate::{
    has_apic_base, parse_ioapic_redirtbl, parse_lapic, parse_regs, parse_seg, parse_sregs,
    parse_vmstate, parse_xcrs, parse_xsave,
};

const IOAPIC: usize = 0x0591;
const LAPIC: usize = 0x2541;
const REGS: usize = 0x2955;
const SEGS: usize = 0x29ED;
const GDT: usize = 0x2AAD;
const IDT: usize = 0x2ABD;
const CR: usize = 0x2ACD;
const EFER: usize = 0x2AF5;
const APIC_BASE: usize = 0x2AFD;
const XCRS: usize = 0x2B75;
const XSAVE: usize = 0x2D0D;

fn put16(d: &mut Vec<u8>, o: usize, v: u16) {
    d[o..o + 2].copy_from_slice(&v.to_le_bytes());
}

fn put32(d: &mut Vec<u8>, o: usize, v: u32) {
    d[o..o + 4].copy_from_slice(&v.to_le_bytes());
}

fn put64(d: &mut Vec<u8>, o: usize, v: u64) {
    d[o..o + 8].copy_from_slice(&v.to_le_bytes());
}

fn put_msr(d: &mut Vec<u8>, o: usize, index: u32, value: u64) {
    put32(d, o, index);
    put32(d, o + 4, 0);
    put64(d, o + 8, value);
}

fn put_cpuid(d: &mut Vec<u8>, o: usize, function: u32, index: u32, vendor: &[u8; 4]) {
    put64(d, o, 0x28);
    put32(d, o + 8, function);
    put32(d, o + 12, index);
    put32(d, o + 16, 7);
    put32(d, o + 20, 0x10);
    d[o + 24..o + 28].copy_from_slice(vendor);
    put32(d, o + 28, 0x444d_4163);
    put32(d, o + 32, 0x6974_6e65);
    put32(d, o + 36, 0xffff_ffff);
}

/// A file with the reference layout and a distinct value in every field.
fn reference_file() -> Vec<u8> {
    let mut d: Vec<u8> = vec![0; XSAVE + 4096 + 64];
    put64(&mut d, IOAPIC, 0xFEC0_0000);
    for i in 0..24usize {
        put64(&mut d, IOAPIC + 24 + 8 * i, 0x1_0000 + i as u64);
    }
    for i in 0..1024usize {
        d[LAPIC + i] = (i % 251) as u8;
    }
    for i in 0..18usize {
        put64(&mut d, REGS + 8 * i, 0x1111_0000_0000_0001 * (i as u64 + 1));
    }
    for i in 0..8usize {
        let o = SEGS + 24 * i;
        put64(&mut d, o, 0x8000_0000_0000 + i as u64);
        put32(&mut d, o + 8, 0xfff0_0000 + i as u32);
        put16(&mut d, o + 12, 0x10 + i as u16);
        for k in 14..24usize {
            d[o + k] = (0x80 + k + i) as u8;
        }
    }
    put64(&mut d, GDT, 0xffff_8880_0001);
    put16(&mut d, GDT + 8, 0x7f);
    put64(&mut d, IDT, 0xffff_8880_0002);
    put16(&mut d, IDT + 8, 0xfff);
    put16(&mut d, IDT + 10, 0xbeef);
    for i in 0..4usize {
        put64(&mut d, CR + 8 * i, 0x8005_0033 + i as u64);
    }
    put64(&mut d, EFER, 0xD01);
    put64(&mut d, APIC_BASE, 0xfee0_0900);
    put32(&mut d, XCRS, 2);
    put32(&mut d, XCRS + 4, 0x55);
    put32(&mut d, XCRS + 8, 3);
    put32(&mut d, XCRS + 12, 4);
    put64(&mut d, XCRS + 16, 0xe7);
    put32(&mut d, XCRS + 24, 5);
    put64(&mut d, XCRS + 32, 0x99);
    for i in 0..1024usize {
        put32(&mut d, XSAVE + 4 * i, 0x0102_0000 + i as u32);
    }
    d
}

#[test]
fn reads_every_fixed_section() {
    let d = reference_file();
    assert_eq!(detect_offset_shift(&d), Ok(0));
    let p = parse_vmstate(&d).unwrap();
    assert_eq!(p.regs.rax, 0x1111_0000_0000_0001);
    assert_eq!(p.regs.rsp, 0x1111_0000_0000_0001 * 7);
    assert_eq!(p.regs.r15, 0x1111_0000_0000_0001u64.wrapping_mul(16));
    assert_eq!(p.sregs.cs.base, 0x8000_0000_0000);
    assert_eq!(p.sregs.ds.base, 0x8000_0000_0001);
    assert_eq!(p.sregs.es.base, 0x8000_0000_0002);
    assert_eq!(p.sregs.fs.base, 0x8000_0000_0003);
    assert_eq!(p.sregs.gs.base, 0x8000_0000_0004);
    assert_eq!(p.sregs.ss.base, 0x8000_0000_0005);
    assert_eq!(p.sregs.tr.base, 0x8000_0000_0006);
    assert_eq!(p.sregs.ldt.base, 0x8000_0000_0007);
    assert_eq!(p.sregs.ldt.limit, 0xfff0_0007);
    assert_eq!(p.sregs.ldt.selector, 0x17);
    assert_eq!(p.sregs.ldt.type_, 0x95);
    assert_eq!(p.sregs.ldt.padding, 0x9e);
    assert_eq!(p.sregs.gdt.base, 0xffff_8880_0001);
    assert_eq!(p.sregs.gdt.limit, 0x7f);
    assert_eq!(p.sregs.idt.base, 0xffff_8880_0002);
    assert_eq!(p.sregs.idt.padding, [0u16; 3]);
    assert_eq!(p.sregs.cr0, 0x8005_0033);
    assert_eq!(p.sregs.cr2, 0x8005_0034);
    assert_eq!(p.sregs.cr3, 0x8005_0035);
    assert_eq!(p.sregs.cr4, 0x8005_0036);
    assert_eq!(p.sregs.cr8, 0);
    assert_eq!(p.sregs.efer, 0xD01);
    assert_eq!(p.sregs.apic_base, 0xfee0_0900);
    assert_eq!(p.sregs.interrupt_bitmap, [0u64; 4]);
    assert_eq!(p.lapic.regs[1], 1);
    assert_eq!(p.lapic.regs[130], 130u8 as i8);
    assert_eq!(p.lapic.regs[1023], 19);
    assert_eq!(p.ioapic_redirtbl[0], 0x1_0000);
    assert_eq!(p.ioapic_redirtbl[23], 0x1_0017);
    assert_eq!(p.xcrs.nr_xcrs, 2);
    assert_eq!(p.xcrs.flags, 0x55);
    assert_eq!(p.xcrs.xcrs[0], KvmXcr { xcr: 3, reserved: 4, value: 0xe7 });
    assert_eq!(p.xcrs.xcrs[1], KvmXcr { xcr: 5, reserved: 0, value: 0x99 });
    assert_eq!(p.xcrs.xcrs[2], KvmXcr { xcr: 0, reserved: 0, value: 0 });
    assert_eq!(p.xcrs.padding, [0u64; 16]);
    assert_eq!(p.xsave.region[0], 0x0102_0000);
    assert_eq!(p.xsave.region[1023], 0x0102_03ff);
    assert!(p.msrs.is_empty());
    assert!(p.cpuid_entries.is_empty());
}

#[test]
fn refuses_a_file_without_anchor() {
    let d: Vec<u8> = vec![0; 20000];
    assert_eq!(parse_vmstate(&d), Err(VmStateError::LayoutNotFound));
    assert_eq!(parse_vmstate(&[]), Err(VmStateError::LayoutNotFound));
    assert_eq!(
        VmStateError::LayoutNotFound.message(),
        "cannot detect vmstate layout: IOAPIC base address 0xFEC00000 not found"
    );
}

#[test]
fn refuses_an_anchor_without_plausible_efer() {
    let mut d = reference_file();
    put64(&mut d, EFER, 0xD00);
    assert_eq!(detect_offset_shift(&d), Err(VmStateError::LayoutNotFound));
    put64(&mut d, EFER, 0x501);
    assert_eq!(detect_offset_shift(&d), Ok(0));
}

#[test]
fn takes_the_first_anchor() {
    let mut d = reference_file();
    put64(&mut d, IOAPIC - 0x100, 0xFEC0_0000);
    assert_eq!(detect_offset_shift(&d), Ok(0));
    put64(&mut d, EFER - 0x100, 0x501);
    assert_eq!(detect_offset_shift(&d), Ok(0x100));
}

#[test]
fn layout_needs_efer_inside_the_file() {
    let mut d: Vec<u8> = vec![0; EFER - IOAPIC + 8];
    put64(&mut d, 0, 0xFEC0_0000);
    put64(&mut d, EFER - IOAPIC, 0xD01);
    assert_eq!(d.len(), 9580);
    assert_eq!(detect_offset_shift(&d), Ok(0x591));
    assert!(!has_apic_base(&d));
    d.pop();
    assert_eq!(detect_offset_shift(&d), Err(VmStateError::LayoutNotFound));
    assert!(has_apic_base(&d));
}

#[test]
fn file_may_end_behind_the_apic_base() {
    let mut d = reference_file();
    d.truncate(APIC_BASE + 8);
    assert!(has_apic_base(&d));
    let p = parse_vmstate(&d).unwrap();
    assert_eq!(p.sregs.apic_base, 0xfee0_0900);
    assert_eq!(p.xcrs.nr_xcrs, 0);
    assert_eq!(p.xcrs.xcrs, [KvmXcr { xcr: 0, reserved: 0, value: 0 }; 16]);
    assert_eq!(p.xsave.region, [0u32; 1024]);
}

#[test]
fn bytes_before_the_sections_move_them() {
    let d = reference_file();
    let p = parse_vmstate(&d).unwrap();
    for k in [1usize, 16, 1000] {
        let mut e: Vec<u8> = vec![0x5a; k];
        e.extend_from_slice(&d);
        assert_eq!(detect_offset_shift(&e), Ok(-(k as isize)));
        assert_eq!(parse_vmstate(&e).unwrap(), p);
    }
    let cut: Vec<u8> = d[IOAPIC..].to_vec();
    assert_eq!(detect_offset_shift(&cut), Ok(0x591));
    assert_eq!(parse_vmstate(&cut).unwrap(), p);
}

#[test]
fn bytes_behind_the_sections_change_nothing() {
    let mut d = reference_file();
    let p = parse_vmstate(&d).unwrap();
    d.extend_from_slice(&[0xa5; 77]);
    assert_eq!(parse_vmstate(&d).unwrap(), p);
}

#[test]
fn adjusts_offsets() {
    assert_eq!(adj(0x2955, 0x100), 0x2855);
    assert_eq!(adj(0x2955, -0x100), 0x2a55);
}

#[test]
fn section_readers_take_any_offset() {
    let d = reference_file();
    assert_eq!(parse_regs(&d, REGS).rip, 0x1111_0000_0000_0001u64.wrapping_mul(17));
    assert_eq!(parse_regs(&d, REGS + 8).rax, parse_regs(&d, REGS).rbx);
    assert_eq!(parse_seg(&d, SEGS + 24).selector, 0x11);
    assert_eq!(parse_sregs(&d, 0).cr3, 0x8005_0035);
    assert_eq!(parse_lapic(&d, LAPIC).regs[250], 250u8 as i8);
}

#[test]
fn redirection_table_is_all_or_nothing() {
    let d = reference_file();
    let end = IOAPIC + 24 + 192;
    assert_eq!(parse_ioapic_redirtbl(&d[..end], IOAPIC)[23], 0x1_0017);
    assert_eq!(parse_ioapic_redirtbl(&d[..end - 1], IOAPIC), [0u64; 24]);
    assert_eq!(parse_ioapic_redirtbl(&d, usize::MAX), [0u64; 24]);
}

#[test]
fn xcrs_out_of_range_count_is_kept() {
    let mut d = reference_file();
    put32(&mut d, XCRS, 17);
    let x = parse_xcrs(&d, XCRS);
    assert_eq!(x.nr_xcrs, 17);
    assert_eq!(x.flags, 0x55);
    assert_eq!(x.xcrs, [KvmXcr { xcr: 0, reserved: 0, value: 0 }; 16]);
    put32(&mut d, XCRS, 0);
    assert_eq!(parse_xcrs(&d, XCRS).xcrs, x.xcrs);
}

#[test]
fn xcrs_cut_off_by_the_end() {
    let d = reference_file();
    let x = parse_xcrs(&d[..XCRS + 39], XCRS);
    assert_eq!(x.nr_xcrs, 2);
    assert_eq!(x.xcrs[0].value, 0xe7);
    assert_eq!(x.xcrs[1].value, 0);
    assert_eq!(parse_xcrs(&d[..XCRS + 40], XCRS).xcrs[1].value, 0x99);
    assert_eq!(parse_xcrs(&d[..XCRS + 23], XCRS).nr_xcrs, 0);
    assert_eq!(parse_xcrs(&d, usize::MAX).nr_xcrs, 0);
}

#[test]
fn xsave_cut_off_by_the_end() {
    let d = reference_file();
    let x = parse_xsave(&d[..XSAVE + 11], XSAVE);
    assert_eq!(x.region[1], 0x0102_0001);
    assert_eq!(x.region[2], 0);
    assert_eq!(parse_xsave(&d, d.len()).region, [0u32; 1024]);
    assert_eq!(parse_xsave(&d, usize::MAX).region, [0u32; 1024]);
}

#[test]
fn msr_values_are_judged() {
    assert!(!is_wanted(0xc0000081, 0));
    assert!(is_wanted(0xc0000081, 1));
    assert!(is_wanted(0xc0000082, 0));
    assert!(!is_wanted(0xc0000082, 0xffffffff80000000));
    assert!(is_wanted(0xc0000082, 0xffffffff80000001));
    assert!(!is_wanted(0xc0000083, 5));
    assert!(is_wanted(0xc0000084, 0));
    assert!(is_wanted(0xc0000102, u64::MAX));
    assert!(!is_wanted(0x4b564d00, 0));
    assert!(is_wanted(0x4b564d01, 0xffffffff));
    assert!(!is_wanted(0x4b564d01, 0x100000000));
    assert!(!is_wanted(0xc0000080, 1));
}

#[test]
fn last_msr_record_counts() {
    let mut d: Vec<u8> = vec![0x77; 400];
    put_msr(&mut d, 3, 0xc0000081, 11);
    put_msr(&mut d, 40, 0xc0000084, 22);
    put_msr(&mut d, 80, 0xc0000102, 33);
    put_msr(&mut d, 121, 0xc0000081, 44);
    put_msr(&mut d, 160, 0x4b564d00, 55);
    put_msr(&mut d, 200, 0xc0000082, 5);
    put_msr(&mut d, 240, 0xc0000084, 66);
    put_msr(&mut d, 300, 0xc0000083, 0);
    put32(&mut d, 304, 1);
    let want = vec![
        KvmMsrEntry { index: 0xc0000102, reserved: 0, data: 33 },
        KvmMsrEntry { index: 0xc0000081, reserved: 0, data: 44 },
        KvmMsrEntry { index: 0x4b564d00, reserved: 0, data: 55 },
        KvmMsrEntry { index: 0xc0000084, reserved: 0, data: 66 },
    ];
    assert_eq!(parse_msrs(&d), want);
}

#[test]
fn msr_record_at_the_very_end_is_not_read() {
    let mut d: Vec<u8> = vec![0x77; 32];
    put_msr(&mut d, 16, 0xc0000084, 9);
    assert!(parse_msrs(&d).is_empty());
    d.push(0);
    assert_eq!(parse_msrs(&d).len(), 1);
    assert!(parse_msrs(&[]).is_empty());
}

fn cpuid_file(count: u64, capacity: u64, vendor: &[u8; 4]) -> Vec<u8> {
    let mut d: Vec<u8> = vec![0x33; 16 + 48 * 3 + 8];
    put64(&mut d, 0, count);
    put64(&mut d, 8, capacity);
    put_cpuid(&mut d, 16, 0, 0, vendor);
    put_cpuid(&mut d, 64, 1, 2, b"abcd");
    put_cpuid(&mut d, 112, 7, 1, b"efgh");
    d
}

#[test]
fn cpuid_table_is_read() {
    let e = parse_cpuid(&cpuid_file(3, 4, b"Auth"));
    assert_eq!(e.len(), 3);
    assert_eq!(e[0].function, 0);
    assert_eq!(e[0].flags, 7);
    assert_eq!(e[0].eax, 0x10);
    assert_eq!(e[0].ebx, 0x68747541);
    assert_eq!(e[0].ecx, 0x444d_4163);
    assert_eq!(e[0].edx, 0x6974_6e65);
    assert_eq!(e[0].padding, [0u32; 3]);
    assert_eq!(e[1].function, 1);
    assert_eq!(e[1].index, 2);
    assert_eq!(e[2].function, 7);
    assert_eq!(parse_cpuid(&cpuid_file(2, 256, b"Genu")).len(), 2);
}

#[test]
fn cpuid_table_may_end_with_the_data() {
    let mut d: Vec<u8> = vec![0; 64];
    put64(&mut d, 0, 1);
    put64(&mut d, 8, 1);
    put64(&mut d, 16, 0x28);
    put32(&mut d, 36, 13);
    d[40..44].copy_from_slice(b"Genu");
    put32(&mut d, 44, 1);
    put32(&mut d, 48, 2);
    let want = KvmCpuidEntry2 {
        function: 0,
        index: 0,
        flags: 0,
        eax: 13,
        ebx: 0x756e6547,
        ecx: 1,
        edx: 2,
        padding: [0; 3],
    };
    assert_eq!(parse_cpuid(&d), vec![want]);
    assert!(parse_cpuid(&d[..63]).is_empty());
    let two = cpuid_file(2, 2, b"Auth");
    assert_eq!(parse_cpuid(&two[..112]).len(), 2);
    assert!(parse_cpuid(&two[..111]).is_empty());
}

#[test]
fn prefix_keeps_sections_though_a_table_arises() {
    let d = reference_file();
    let p = parse_vmstate(&d).unwrap();
    let mut e = cpuid_file(3, 3, b"Auth");
    e.extend_from_slice(&d);
    let q = parse_vmstate(&e).unwrap();
    assert_eq!(q.cpuid_entries.len(), 3);
    assert!(p.cpuid_entries.is_empty());
    assert_eq!((q.regs, q.sregs, q.lapic), (p.regs, p.sregs, p.lapic));
    assert_eq!(q.ioapic_redirtbl, p.ioapic_redirtbl);
    assert_eq!((q.xcrs, q.xsave), (p.xcrs, p.xsave));
    assert_eq!(q.msrs, p.msrs);
}

#[test]
fn cpuid_table_must_be_sound() {
    assert!(parse_cpuid(&cpuid_file(3, 3, b"Xyzw")).is_empty());
    assert!(parse_cpuid(&cpuid_file(0, 3, b"Auth")).is_empty());
    assert!(parse_cpuid(&cpuid_file(257, 257, b"Auth")).is_empty());
    assert!(parse_cpuid(&cpuid_file(3, 2, b"Auth")).is_empty());
    assert!(parse_cpuid(&cpuid_file(3, 257, b"Auth")).is_empty());
    assert!(parse_cpuid(&cpuid_file(4, 4, b"Auth")).is_empty());
    let mut broken = cpuid_file(3, 3, b"Auth");
    put64(&mut broken, 64, 0x29);
    assert!(parse_cpuid(&broken).is_empty());
    assert!(parse_cpuid(&cpuid_file(3, 3, b"Auth")[16..]).is_empty());
    assert!(parse_cpuid(&[]).is_empty());
}

#[test]
fn cpuid_search_goes_on_behind_a_broken_table() {
    let mut d = cpuid_file(9, 9, b"Auth");
    d.extend_from_slice(&cpuid_file(3, 3, b"Genu"));
    let e = parse_cpuid(&d);
    assert_eq!(e.len(), 3);
    assert_eq!(e[0].ebx, 0x756e6547);
}

#[test]
fn tables_are_found_in_a_whole_file() {
    let mut d = reference_file();
    let table = cpuid_file(2, 2, b"Genu");
    d[0x100..0x100 + table.len()].copy_from_slice(&table);
    put_msr(&mut d, 0x300, 0xc0000102, 0x1234);
    let p = parse_vmstate(&d).unwrap();
    assert_eq!(p.cpuid_entries.len(), 2);
    assert_eq!(p.msrs, vec![KvmMsrEntry { index: 0xc0000102, reserved: 0, data: 0x1234 }]);
}

#[test]
fn snapshot_carries_the_state() {
    let mut d = reference_file();
    put_msr(&mut d, 0x300, 0xc0000102, 0x1234);
    let p = parse_vmstate(&d).unwrap();
    let s = build_snapshot(&d, 512 << 20).unwrap();
    assert_eq!(s.regs, p.regs);
    assert_eq!(s.sregs, p.sregs);
    assert_eq!(s.msrs, p.msrs);
    assert_eq!(s.lapic, p.lapic);
    assert_eq!(s.ioapic_redirtbl, p.ioapic_redirtbl);
    assert_eq!(s.xcrs, p.xcrs);
    assert_eq!(s.xsave, p.xsave);
    assert_eq!(s.cpuid_entries, p.cpuid_entries);
    assert_eq!(s.mem_size, 512 << 20);
    assert_eq!(build_snapshot(&[0; 100], 1), Err(VmStateError::LayoutNotFound));
}
