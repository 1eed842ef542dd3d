//! End-to-end tests: image construction, validation, and loading through
//! the in-memory host.

use elf_loader::layout::{page_ceil, page_floor, PAGE_SIZE};
use elf_loader::loader::{load_from_buffer, load_from_file, FILE_BUF_SIZE};
use elf_loader::parser::{get_program_headers, validate_elf_header, ElfError};
use elf_loader::sim_host::SimHost;

fn push_u16(v: &mut Vec<u8>, x: u16) {
    v.extend_from_slice(&x.to_le_bytes());
}

fn push_u32(v: &mut Vec<u8>, x: u32) {
    v.extend_from_slice(&x.to_le_bytes());
}

fn push_u64(v: &mut Vec<u8>, x: u64) {
    v.extend_from_slice(&x.to_le_bytes());
}

fn build_ehdr(machine: u16, entry: u64, phoff: u64, phentsize: u16, phnum: u16) -> Vec<u8> {
    let mut v = Vec::new();
    v.extend_from_slice(&[0x7f, b'E', b'L', b'F', 2, 1, 1, 0, 0, 0, 0, 0, 0, 0, 0, 0]);
    push_u16(&mut v, 2); // e_type: executable
    push_u16(&mut v, machine);
    push_u32(&mut v, 1); // e_version
    push_u64(&mut v, entry);
    push_u64(&mut v, phoff);
    push_u64(&mut v, 0); // e_shoff
    push_u32(&mut v, 0); // e_flags
    push_u16(&mut v, 64); // e_ehsize
    push_u16(&mut v, phentsize);
    push_u16(&mut v, phnum);
    push_u16(&mut v, 0); // e_shentsize
    push_u16(&mut v, 0); // e_shnum
    push_u16(&mut v, 0); // e_shstrndx
    assert_eq!(v.len(), 64);
    v
}

fn push_phdr(v: &mut Vec<u8>, p_type: u32, offset: u64, vaddr: u64, filesz: u64, memsz: u64) {
    push_u32(v, p_type);
    push_u32(v, 7); // p_flags: rwx
    push_u64(v, offset);
    push_u64(v, vaddr);
    push_u64(v, 0); // p_paddr
    push_u64(v, filesz);
    push_u64(v, memsz);
    push_u64(v, 0x1000); // p_align
}

/// The minimal single-segment image: entry 0x400000, one LOAD entry with
/// vaddr 0x400000, offset 0x1000, filesz 0x10, memsz 0x20. The segment's
/// file bytes are 0xA0, 0xA1, ... 0xAF.
fn build_minimal_image() -> Vec<u8> {
    let mut v = build_ehdr(62, 0x400000, 64, 56, 1);
    push_phdr(&mut v, 1, 0x1000, 0x400000, 0x10, 0x20);
    while v.len() < 0x1000 {
        v.push(0);
    }
    for i in 0..0x10u8 {
        v.push(0xA0 + i);
    }
    v
}

#[test]
fn validate_empty_buffer_too_small() {
    let r = validate_elf_header(&[]);
    assert_eq!(r.err(), Some(ElfError::FileTooSmall));
}

#[test]
fn validate_short_buffer_too_small() {
    let r = validate_elf_header(&[0x7f, b'E', b'L', b'F', 2, 1, 1]);
    assert_eq!(r.err(), Some(ElfError::FileTooSmall));
}

#[test]
fn validate_sixty_three_bytes_too_small() {
    let v = vec![0u8; 63];
    assert_eq!(validate_elf_header(&v).err(), Some(ElfError::FileTooSmall));
}

#[test]
fn validate_bad_magic() {
    let mut v = build_minimal_image();
    v[0] = 0x7e;
    assert_eq!(validate_elf_header(&v).err(), Some(ElfError::InvalidMagic));
    let mut w = build_minimal_image();
    w[3] = b'G';
    assert_eq!(validate_elf_header(&w).err(), Some(ElfError::InvalidMagic));
}

#[test]
fn validate_unsupported_machine() {
    let v = build_ehdr(40, 0x400000, 64, 56, 0);
    assert_eq!(
        validate_elf_header(&v).err(),
        Some(ElfError::UnsupportedMachine)
    );
}

#[test]
fn validate_ok_decodes_fields() {
    let v = build_minimal_image();
    let h = validate_elf_header(&v).unwrap();
    assert_eq!(&h.e_ident[0..4], &[0x7f, b'E', b'L', b'F']);
    assert_eq!(h.e_type, 2);
    assert_eq!(h.e_machine, 62);
    assert_eq!(h.e_version, 1);
    assert_eq!(h.e_entry, 0x400000);
    assert_eq!(h.e_phoff, 64);
    assert_eq!(h.e_ehsize, 64);
    assert_eq!(h.e_phentsize, 56);
    assert_eq!(h.e_phnum, 1);
}

#[test]
fn validate_is_repeatable() {
    let v = build_minimal_image();
    let h1 = validate_elf_header(&v).unwrap();
    let h2 = validate_elf_header(&v).unwrap();
    assert_eq!(h1.e_ident, h2.e_ident);
    assert_eq!(h1.e_type, h2.e_type);
    assert_eq!(h1.e_machine, h2.e_machine);
    assert_eq!(h1.e_version, h2.e_version);
    assert_eq!(h1.e_entry, h2.e_entry);
    assert_eq!(h1.e_phoff, h2.e_phoff);
    assert_eq!(h1.e_shoff, h2.e_shoff);
    assert_eq!(h1.e_flags, h2.e_flags);
    assert_eq!(h1.e_ehsize, h2.e_ehsize);
    assert_eq!(h1.e_phentsize, h2.e_phentsize);
    assert_eq!(h1.e_phnum, h2.e_phnum);
    assert_eq!(h1.e_shentsize, h2.e_shentsize);
    assert_eq!(h1.e_shnum, h2.e_shnum);
    assert_eq!(h1.e_shstrndx, h2.e_shstrndx);
    let bad = build_ehdr(40, 0, 64, 56, 0);
    assert_eq!(validate_elf_header(&bad).err(), validate_elf_header(&bad).err());
}

#[test]
fn program_headers_decoded() {
    let v = build_minimal_image();
    let h = validate_elf_header(&v).unwrap();
    let phs = get_program_headers(&v, &h);
    assert_eq!(phs.len(), 1);
    assert_eq!(phs[0].p_type, 1);
    assert_eq!(phs[0].p_flags, 7);
    assert_eq!(phs[0].p_offset, 0x1000);
    assert_eq!(phs[0].p_vaddr, 0x400000);
    assert_eq!(phs[0].p_filesz, 0x10);
    assert_eq!(phs[0].p_memsz, 0x20);
    assert_eq!(phs[0].p_align, 0x1000);
}

#[test]
fn program_headers_truncated_table_stops_early() {
    // The header announces two entries but the buffer ends after the first.
    let mut v = build_ehdr(62, 0x400000, 64, 56, 2);
    push_phdr(&mut v, 1, 0, 0x400000, 0, 0x10);
    let h = validate_elf_header(&v).unwrap();
    let phs = get_program_headers(&v, &h);
    assert_eq!(phs.len(), 1);
}

#[test]
fn program_headers_table_out_of_range_is_empty() {
    let v = build_ehdr(62, 0x400000, 0x10000, 56, 3);
    let h = validate_elf_header(&v).unwrap();
    let phs = get_program_headers(&v, &h);
    assert_eq!(phs.len(), 0);
}

#[test]
fn program_headers_follow_entry_stride() {
    // A nonstandard entry size changes where each entry is read from.
    let mut v = build_ehdr(62, 0x400000, 64, 60, 2);
    push_phdr(&mut v, 1, 0x1000, 0x400000, 0x10, 0x20);
    v.extend_from_slice(&[0, 0, 0, 0]); // 4 bytes of padding between entries
    push_phdr(&mut v, 1, 0x2000, 0x500000, 0x30, 0x40);
    let h = validate_elf_header(&v).unwrap();
    let phs = get_program_headers(&v, &h);
    assert_eq!(phs.len(), 2);
    assert_eq!(phs[0].p_offset, 0x1000);
    assert_eq!(phs[1].p_offset, 0x2000);
    assert_eq!(phs[1].p_vaddr, 0x500000);
}

#[test]
fn program_headers_zero_stride_repeats_entry() {
    let mut v = build_ehdr(62, 0x400000, 64, 0, 2);
    push_phdr(&mut v, 1, 0x1000, 0x400000, 0x10, 0x20);
    let h = validate_elf_header(&v).unwrap();
    let phs = get_program_headers(&v, &h);
    assert_eq!(phs.len(), 2);
    assert_eq!(phs[0].p_vaddr, phs[1].p_vaddr);
    assert_eq!(phs[0].p_offset, phs[1].p_offset);
}

#[test]
fn page_alignment_values() {
    assert_eq!(page_floor(0x400123), 0x400000);
    assert_eq!(page_floor(0x400000), 0x400000);
    assert_eq!(page_floor(0xFFF), 0);
    assert_eq!(page_ceil(0x400001), 0x401000);
    assert_eq!(page_ceil(0x400000), 0x400000);
    assert_eq!(page_ceil(0), 0);
    assert_eq!(page_ceil(1), PAGE_SIZE);
    // The computed start is page-aligned and the end is the smallest
    // page-aligned address at or above the argument.
    let vals = [0u64, 1, 0xFFF, 0x1000, 0x1001, 0x400020, 0x7FFF_FFFF];
    for &x in vals.iter() {
        let f = page_floor(x);
        let c = page_ceil(x);
        assert_eq!(f % PAGE_SIZE, 0);
        assert_eq!(c % PAGE_SIZE, 0);
        assert!(f <= x && x < f + PAGE_SIZE);
        assert!(x <= c && c < x + PAGE_SIZE);
    }
}

#[test]
fn load_minimal_image() {
    let v = build_minimal_image();
    let mut host = SimHost::new(0x400000, 0x1000);
    let r = load_from_buffer(&mut host, &v);
    assert_eq!(r, Ok(0x400000));
    // The file bytes landed at the segment's virtual address.
    for i in 0..0x10u64 {
        assert_eq!(host.read_byte(0x400000 + i), 0xA0 + i as u8);
    }
    // The BSS tail is zero.
    for i in 0x10..0x20u64 {
        assert_eq!(host.read_byte(0x400000 + i), 0);
    }
    assert!(host.check_reserved(0x400000));
    assert!(host.check_reserved(0x400FFF));
}

#[test]
fn load_zero_fills_over_stale_data() {
    // First fill the whole data range with nonzero bytes, then load a
    // segment whose memory size exceeds its file size: the tail must have
    // been zeroed by the load, not merely left as fresh page contents.
    let mut big = build_ehdr(62, 0x400000, 64, 56, 1);
    push_phdr(&mut big, 1, 0x1000, 0x400000, 0x20, 0x20);
    while big.len() < 0x1000 {
        big.push(0);
    }
    for _ in 0..0x20 {
        big.push(0xFF);
    }
    let mut host = SimHost::new(0x400000, 0x1000);
    assert_eq!(load_from_buffer(&mut host, &big), Ok(0x400000));
    assert_eq!(host.read_byte(0x400018), 0xFF);

    let v = build_minimal_image();
    assert_eq!(load_from_buffer(&mut host, &v), Ok(0x400000));
    for i in 0x10..0x20u64 {
        assert_eq!(host.read_byte(0x400000 + i), 0);
    }
}

#[test]
fn load_rejects_unsupported_machine_without_reserving() {
    let mut v = build_minimal_image();
    v[18] = 40; // e_machine low byte
    let mut host = SimHost::new(0x400000, 0x1000);
    let r = load_from_buffer(&mut host, &v);
    assert_eq!(r, Err(ElfError::UnsupportedMachine));
    assert!(!host.check_reserved(0x400000));
}

#[test]
fn load_rejects_kernel_overlap_before_allocating() {
    let mut v = build_ehdr(62, 0x200000, 64, 56, 1);
    push_phdr(&mut v, 1, 0x1000, 0x200000, 0x10, 0x20);
    while v.len() < 0x1010 {
        v.push(0);
    }
    let mut host = SimHost::new(0x200000, 0x2000);
    let r = load_from_buffer(&mut host, &v);
    assert_eq!(r, Err(ElfError::KernelMemoryOverlap));
    assert!(!host.check_reserved(0x200000));
    assert_eq!(host.read_byte(0x200000), 0);
}

#[test]
fn load_rejects_window_edges_and_accepts_neighbours() {
    // 0x100000 and 0x3FFFFF overlap the kernel window; 0x400000 does not.
    for &(vaddr, overlaps) in
        [(0x100000u64, true), (0x3FFFFFu64, true), (0x400000u64, false), (0xFFFFFu64, false)]
            .iter()
    {
        let mut v = build_ehdr(62, vaddr, 64, 56, 1);
        push_phdr(&mut v, 1, 0x1000, vaddr, 0x10, 0x20);
        while v.len() < 0x1010 {
            v.push(0xCC);
        }
        let mut host = SimHost::new(0xF0000, 0x320000);
        let r = load_from_buffer(&mut host, &v);
        if overlaps {
            assert_eq!(r, Err(ElfError::KernelMemoryOverlap));
        } else {
            assert_eq!(r, Ok(vaddr));
        }
    }
}

#[test]
fn load_rejects_file_size_beyond_memory_size() {
    let mut v = build_ehdr(62, 0x400000, 64, 56, 1);
    push_phdr(&mut v, 1, 0x1000, 0x400000, 0x20, 0x10);
    while v.len() < 0x1020 {
        v.push(0);
    }
    let mut host = SimHost::new(0x400000, 0x1000);
    assert_eq!(
        load_from_buffer(&mut host, &v),
        Err(ElfError::InvalidProgramHeader)
    );
    assert!(!host.check_reserved(0x400000));
}

#[test]
fn load_rejects_segment_data_past_end_of_image() {
    // offset + filesz runs past the image length.
    let mut v = build_ehdr(62, 0x400000, 64, 56, 1);
    push_phdr(&mut v, 1, 0x1000, 0x400000, 0x10, 0x20);
    while v.len() < 0x1008 {
        v.push(0);
    }
    let mut host = SimHost::new(0x400000, 0x1000);
    assert_eq!(
        load_from_buffer(&mut host, &v),
        Err(ElfError::InvalidProgramHeader)
    );
    assert!(!host.check_reserved(0x400000));
}

#[test]
fn load_reports_allocation_failure() {
    // The segment lies outside the host's reservable window.
    let mut v = build_ehdr(62, 0x500000, 64, 56, 1);
    push_phdr(&mut v, 1, 0x1000, 0x500000, 0x10, 0x20);
    while v.len() < 0x1010 {
        v.push(0);
    }
    let mut host = SimHost::new(0x400000, 0x1000);
    assert_eq!(
        load_from_buffer(&mut host, &v),
        Err(ElfError::MemoryAllocationFailed)
    );
}

#[test]
fn load_skips_non_loadable_entries() {
    let mut v = build_ehdr(62, 0x400000, 64, 56, 1);
    push_phdr(&mut v, 4, 0x1000, 0x400000, 0x10, 0x20); // PT_NOTE
    while v.len() < 0x1010 {
        v.push(0);
    }
    let mut host = SimHost::new(0x400000, 0x1000);
    assert_eq!(load_from_buffer(&mut host, &v), Ok(0x400000));
    assert!(!host.check_reserved(0x400000));
}

#[test]
fn load_with_truncated_table_loads_remaining_entries() {
    // Two entries announced; the second is cut off by the end of the image,
    // so only the first is loaded and the load still succeeds.
    let mut v = build_ehdr(62, 0x400000, 64, 56, 2);
    push_phdr(&mut v, 1, 0x0, 0x400000, 0x10, 0x10);
    // Only half of the second entry fits before the image ends.
    for _ in 0..28 {
        v.push(0);
    }
    let mut host = SimHost::new(0x400000, 0x1000);
    assert_eq!(load_from_buffer(&mut host, &v), Ok(0x400000));
    assert!(host.check_reserved(0x400000));
    assert_eq!(host.read_byte(0x400000), 0x7f);
    assert_eq!(host.read_byte(0x400001), b'E');
}

#[test]
fn load_applies_segments_in_table_order() {
    // Two loadable entries whose data ranges overlap: the later one wins.
    let mut v = build_ehdr(62, 0x400000, 64, 56, 2);
    push_phdr(&mut v, 1, 0x1000, 0x400000, 0x10, 0x10);
    push_phdr(&mut v, 1, 0x1010, 0x400008, 0x10, 0x10);
    while v.len() < 0x1000 {
        v.push(0);
    }
    for _ in 0..0x10 {
        v.push(0x11);
    }
    for _ in 0..0x10 {
        v.push(0x22);
    }
    let mut host = SimHost::new(0x400000, 0x1000);
    assert_eq!(load_from_buffer(&mut host, &v), Ok(0x400000));
    assert_eq!(host.read_byte(0x400007), 0x11);
    assert_eq!(host.read_byte(0x400008), 0x22);
    assert_eq!(host.read_byte(0x400017), 0x22);
}

#[test]
fn load_with_no_entries_succeeds_trivially() {
    let v = build_ehdr(62, 0x400000, 64, 56, 0);
    let mut host = SimHost::new(0x400000, 0x1000);
    assert_eq!(load_from_buffer(&mut host, &v), Ok(0x400000));
    assert!(!host.check_reserved(0x400000));
}

#[test]
fn load_with_fully_truncated_table_succeeds_trivially() {
    // The table lies beyond the end of the image: zero segments, valid load.
    let v = build_ehdr(62, 0x400000, 0x10000, 56, 3);
    let mut host = SimHost::new(0x400000, 0x1000);
    assert_eq!(load_from_buffer(&mut host, &v), Ok(0x400000));
    assert!(!host.check_reserved(0x400000));
}

#[test]
fn load_from_file_reads_and_loads() {
    let v = build_minimal_image();
    let mut host = SimHost::new(0x400000, 0x1000);
    host.set_file(b"app.elf".to_vec(), v);
    let r = load_from_file(&mut host, b"app.elf");
    assert_eq!(r, Ok(0x400000));
    assert_eq!(host.read_byte(0x400000), 0xA0);
    assert_eq!(host.read_byte(0x40001F), 0);
}

#[test]
fn load_from_file_missing_file_fails() {
    let mut host = SimHost::new(0x400000, 0x1000);
    host.set_file(b"app.elf".to_vec(), build_minimal_image());
    let r = load_from_file(&mut host, b"other.elf");
    assert_eq!(r, Err(ElfError::FileReadFailed));
    assert!(!host.check_reserved(0x400000));
}

#[test]
fn load_from_file_empty_file_fails() {
    let mut host = SimHost::new(0x400000, 0x1000);
    host.set_file(b"app.elf".to_vec(), Vec::new());
    assert_eq!(
        load_from_file(&mut host, b"app.elf"),
        Err(ElfError::FileReadFailed)
    );
}

#[test]
fn load_from_file_oversized_file_fails() {
    let mut host = SimHost::new(0x400000, 0x1000);
    let data = vec![0u8; FILE_BUF_SIZE as usize + 1];
    host.set_file(b"app.elf".to_vec(), data);
    assert_eq!(
        load_from_file(&mut host, b"app.elf"),
        Err(ElfError::FileReadFailed)
    );
}

#[test]
fn load_from_file_propagates_validation_errors() {
    let mut bad = build_minimal_image();
    bad[1] = b'X';
    let mut host = SimHost::new(0x400000, 0x1000);
    host.set_file(b"app.elf".to_vec(), bad);
    assert_eq!(
        load_from_file(&mut host, b"app.elf"),
        Err(ElfError::InvalidMagic)
    );
}
