//! ELF64 parsing: header validation and program-header decoding.
//!
//! All decoding is explicit, bounds-checked little-endian deserialization
//! into owned value types; nothing reinterprets raw memory.

use vstd::prelude::*;

verus! {

broadcast use vstd::slice::axiom_spec_len;

/// Number of identification bytes at the start of an ELF file.
pub const EI_NIDENT: usize = 16;

/// Size in bytes of an ELF64 file header on disk.
pub const EHDR_SIZE: usize = 64;

/// Size in bytes of one ELF64 program-header table entry on disk.
pub const PHDR_SIZE: usize = 56;

/// Program-header type tag of a loadable segment.
pub const PT_LOAD: u32 = 1;

/// Machine-type code of the single supported architecture (x86-64).
pub const EM_X86_64: u16 = 62;

/// Errors reported by the parser and the loader.
#[derive(Debug, Clone, Copy, PartialEq, Eq, Structural)]
pub enum ElfError {
    /// The buffer is shorter than the fixed ELF64 header.
    FileTooSmall,
    /// The first four identification bytes are not the ELF signature.
    InvalidMagic,
    /// The machine-type field is not the supported architecture code.
    UnsupportedMachine,
    /// A loadable program-header entry violates its own invariants.
    InvalidProgramHeader,
    /// A segment's start address lies inside the reserved kernel window.
    KernelMemoryOverlap,
    /// The host allocator could not satisfy a reservation request.
    MemoryAllocationFailed,
    /// The named file could not be read.
    FileReadFailed,
}

/// An owned, already-validated copy of the fixed ELF64 file header.
#[derive(Debug, Clone, Copy)]
pub struct Elf64Ehdr {
    /// Identification bytes, starting with the four signature bytes.
    pub e_ident: [u8; 16],
    /// Object file type.
    pub e_type: u16,
    /// Machine-type code.
    pub e_machine: u16,
    /// ELF version.
    pub e_version: u32,
    /// Entry-point virtual address.
    pub e_entry: u64,
    /// File offset of the program-header table.
    pub e_phoff: u64,
    /// File offset of the section-header table.
    pub e_shoff: u64,
    /// Processor-specific flags.
    pub e_flags: u32,
    /// Size of this header.
    pub e_ehsize: u16,
    /// Size of one program-header table entry.
    pub e_phentsize: u16,
    /// Number of program-header table entries.
    pub e_phnum: u16,
    /// Size of one section-header table entry.
    pub e_shentsize: u16,
    /// Number of section-header table entries.
    pub e_shnum: u16,
    /// Section-name string table index.
    pub e_shstrndx: u16,
}

/// An owned copy of one ELF64 program-header table entry.
#[derive(Debug, Clone, Copy)]
pub struct Elf64Phdr {
    /// Segment type.
    pub p_type: u32,
    /// Segment flags.
    pub p_flags: u32,
    /// Offset of the segment's data in the file.
    pub p_offset: u64,
    /// Virtual address where the segment starts in memory.
    pub p_vaddr: u64,
    /// Physical address (unused here).
    pub p_paddr: u64,
    /// Number of bytes of segment data present in the file.
    pub p_filesz: u64,
    /// Number of bytes the segment occupies in memory.
    pub p_memsz: u64,
    /// Requested alignment.
    pub p_align: u64,
}

/// The little-endian u16 stored at offset `i` of `s`.
pub open spec fn u16_at(s: Seq<u8>, i: int) -> u16 {
    vstd::bytes::spec_u16_from_le_bytes(s.subrange(i, i + 2))
}

/// The little-endian u32 stored at offset `i` of `s`.
pub open spec fn u32_at(s: Seq<u8>, i: int) -> u32 {
    vstd::bytes::spec_u32_from_le_bytes(s.subrange(i, i + 4))
}

/// The little-endian u64 stored at offset `i` of `s`.
pub open spec fn u64_at(s: Seq<u8>, i: int) -> u64 {
    vstd::bytes::spec_u64_from_le_bytes(s.subrange(i, i + 8))
}

/// True when `s` starts with the four ELF signature bytes 0x7F 'E' 'L' 'F'.
pub open spec fn has_elf_magic(s: Seq<u8>) -> bool {
    &&& s.len() >= 4
    &&& s[0] == 0x7fu8
    &&& s[1] == 0x45u8
    &&& s[2] == 0x4cu8
    &&& s[3] == 0x46u8
}

/// The machine-type field of the header stored at the start of `s`.
pub open spec fn machine_of(s: Seq<u8>) -> u16 {
    u16_at(s, 18)
}

/// True when `s` holds a header that `validate_elf_header` accepts.
pub open spec fn header_ok(s: Seq<u8>) -> bool {
    &&& s.len() >= EHDR_SIZE
    &&& has_elf_magic(s)
    &&& machine_of(s) == EM_X86_64
}

/// True when `h` is exactly the header decoded from the start of `s`.
pub open spec fn ehdr_matches(h: Elf64Ehdr, s: Seq<u8>) -> bool {
    &&& h.e_ident@ == s.subrange(0, 16)
    &&& h.e_type == u16_at(s, 16)
    &&& h.e_machine == u16_at(s, 18)
    &&& h.e_version == u32_at(s, 20)
    &&& h.e_entry == u64_at(s, 24)
    &&& h.e_phoff == u64_at(s, 32)
    &&& h.e_shoff == u64_at(s, 40)
    &&& h.e_flags == u32_at(s, 48)
    &&& h.e_ehsize == u16_at(s, 52)
    &&& h.e_phentsize == u16_at(s, 54)
    &&& h.e_phnum == u16_at(s, 56)
    &&& h.e_shentsize == u16_at(s, 58)
    &&& h.e_shnum == u16_at(s, 60)
    &&& h.e_shstrndx == u16_at(s, 62)
}

/// Reads the little-endian u16 at offset `off` of `buf`.
fn read_u16(buf: &[u8], off: usize) -> (r: u16)
    requires
        off + 2 <= buf.len(),
    ensures
        r == u16_at(buf@, off as int),
{
    vstd::bytes::u16_from_le_bytes(&buf[off..off + 2])
}

/// Reads the little-endian u32 at offset `off` of `buf`.
fn read_u32(buf: &[u8], off: usize) -> (r: u32)
    requires
        off + 4 <= buf.len(),
    ensures
        r == u32_at(buf@, off as int),
{
    vstd::bytes::u32_from_le_bytes(&buf[off..off + 4])
}

/// Reads the little-endian u64 at offset `off` of `buf`.
fn read_u64(buf: &[u8], off: usize) -> (r: u64)
    requires
        off + 8 <= buf.len(),
    ensures
        r == u64_at(buf@, off as int),
{
    vstd::bytes::u64_from_le_bytes(&buf[off..off + 8])
}

/// Validates the fixed ELF64 header at the start of `buf` and returns an
/// owned copy of it.
///
/// The buffer must be at least as long as the header, start with the ELF
/// signature, and name the supported machine type; each failure is reported
/// as its own error, checked in that order.
pub fn validate_elf_header(buf: &[u8]) -> (r: Result<Elf64Ehdr, ElfError>)
    ensures
        r == Err::<Elf64Ehdr, ElfError>(ElfError::FileTooSmall) <==> buf@.len() < EHDR_SIZE,
        buf@.len() >= EHDR_SIZE ==> (r == Err::<Elf64Ehdr, ElfError>(ElfError::InvalidMagic)
            <==> !has_elf_magic(buf@)),
        buf@.len() >= EHDR_SIZE && has_elf_magic(buf@) ==> (r
            == Err::<Elf64Ehdr, ElfError>(ElfError::UnsupportedMachine) <==> machine_of(buf@)
            != EM_X86_64),
        r is Ok <==> header_ok(buf@),
        r matches Ok(h) ==> ehdr_matches(h, buf@),
{
    if buf.len() < EHDR_SIZE {
        return Err(ElfError::FileTooSmall);
    }
    if !(buf[0] == 0x7fu8 && buf[1] == 0x45u8 && buf[2] == 0x4cu8 && buf[3] == 0x46u8) {
        return Err(ElfError::InvalidMagic);
    }
    let e_machine = read_u16(buf, 18);
    if e_machine != EM_X86_64 {
        return Err(ElfError::UnsupportedMachine);
    }
    let e_ident: [u8; 16] = [
        buf[0],
        buf[1],
        buf[2],
        buf[3],
        buf[4],
        buf[5],
        buf[6],
        buf[7],
        buf[8],
        buf[9],
        buf[10],
        buf[11],
        buf[12],
        buf[13],
        buf[14],
        buf[15],
    ];
    let h = Elf64Ehdr {
        e_ident,
        e_type: read_u16(buf, 16),
        e_machine,
        e_version: read_u32(buf, 20),
        e_entry: read_u64(buf, 24),
        e_phoff: read_u64(buf, 32),
        e_shoff: read_u64(buf, 40),
        e_flags: read_u32(buf, 48),
        e_ehsize: read_u16(buf, 52),
        e_phentsize: read_u16(buf, 54),
        e_phnum: read_u16(buf, 56),
        e_shentsize: read_u16(buf, 58),
        e_shnum: read_u16(buf, 60),
        e_shstrndx: read_u16(buf, 62),
    };
    proof {
        assert(h.e_ident@ =~= buf@.subrange(0, 16));
    }
    Ok(h)
}

/// Validation is repeatable: its result is a function of the buffer alone,
/// so two headers decoded from the same buffer are identical.
pub proof fn lemma_validate_deterministic(h1: Elf64Ehdr, h2: Elf64Ehdr, s: Seq<u8>)
    requires
        ehdr_matches(h1, s),
        ehdr_matches(h2, s),
    ensures
        h1 == h2,
{
    broadcast use vstd::array::group_array_axioms;

    assert(h1.e_ident@ =~= h2.e_ident@);
    assert(h1.e_ident == h2.e_ident);
}

/// File offset of program-header entry `i` in a table at offset `phoff`
/// whose entries are `phentsize` bytes apart.
pub open spec fn phdr_off(phoff: int, phentsize: int, i: int) -> int {
    phoff + i * phentsize
}

/// True when entry `i`'s byte range lies inside a buffer of length `len`.
pub open spec fn phdr_in_bounds(len: int, phoff: int, phentsize: int, i: int) -> bool {
    phdr_off(phoff, phentsize, i) + PHDR_SIZE <= len
}

/// The program-header entry decoded at offset `off` of `s`.
pub open spec fn phdr_at(s: Seq<u8>, off: int) -> Elf64Phdr {
    Elf64Phdr {
        p_type: u32_at(s, off),
        p_flags: u32_at(s, off + 4),
        p_offset: u64_at(s, off + 8),
        p_vaddr: u64_at(s, off + 16),
        p_paddr: u64_at(s, off + 24),
        p_filesz: u64_at(s, off + 32),
        p_memsz: u64_at(s, off + 40),
        p_align: u64_at(s, off + 48),
    }
}

/// Index of the first entry at or after `i` whose byte range runs past a
/// buffer of length `len`, or `phnum` when every remaining entry fits.
pub open spec fn phdr_table_end(len: int, phoff: int, phentsize: int, phnum: int, i: int) -> int
    decreases phnum - i,
    when 0 <= i <= phnum
{
    if i >= phnum || !phdr_in_bounds(len, phoff, phentsize, i) {
        i
    } else {
        phdr_table_end(len, phoff, phentsize, phnum, i + 1)
    }
}

/// The program-header entries decoded from `s` for a table of `phnum`
/// entries at offset `phoff`, `phentsize` bytes apart: the table stops
/// early at the first entry whose byte range would run past the end of `s`.
pub open spec fn table_of(s: Seq<u8>, phoff: int, phentsize: int, phnum: int) -> Seq<Elf64Phdr> {
    Seq::new(
        phdr_table_end(s.len() as int, phoff, phentsize, phnum, 0) as nat,
        |i: int| phdr_at(s, phdr_off(phoff, phentsize, i)),
    )
}

/// The program-header entries decoded from `s` per header `h`.
pub open spec fn spec_program_headers(s: Seq<u8>, h: Elf64Ehdr) -> Seq<Elf64Phdr> {
    table_of(s, h.e_phoff as int, h.e_phentsize as int, h.e_phnum as int)
}

/// The program-header entries `s` describes through its own header fields.
pub open spec fn spec_image_table(s: Seq<u8>) -> Seq<Elf64Phdr> {
    table_of(s, u64_at(s, 32) as int, u16_at(s, 54) as int, u16_at(s, 56) as int)
}

/// A cut `k` with everything before it in bounds and `k` itself out of
/// bounds (or equal to `phnum`) is the table end.
proof fn lemma_phdr_table_end_from(len: int, phoff: int, phentsize: int, phnum: int, i: int, k: int)
    requires
        0 <= i <= k <= phnum,
        forall|j: int| i <= j < k ==> phdr_in_bounds(len, phoff, phentsize, j),
        k < phnum ==> !phdr_in_bounds(len, phoff, phentsize, k),
    ensures
        phdr_table_end(len, phoff, phentsize, phnum, i) == k,
    decreases k - i,
{
    if i < k {
        assert(phdr_in_bounds(len, phoff, phentsize, i));
        lemma_phdr_table_end_from(len, phoff, phentsize, phnum, i + 1, k);
    }
}

/// Decodes one program-header entry at byte offset `off` of `buf`.
fn read_phdr(buf: &[u8], off: usize) -> (p: Elf64Phdr)
    requires
        off + PHDR_SIZE <= buf.len(),
    ensures
        p == phdr_at(buf@, off as int),
{
    Elf64Phdr {
        p_type: read_u32(buf, off),
        p_flags: read_u32(buf, off + 4),
        p_offset: read_u64(buf, off + 8),
        p_vaddr: read_u64(buf, off + 16),
        p_paddr: read_u64(buf, off + 24),
        p_filesz: read_u64(buf, off + 32),
        p_memsz: read_u64(buf, off + 40),
        p_align: read_u64(buf, off + 48),
    }
}

/// Decodes the program-header table of `buf` described by `ehdr`.
///
/// Produces one entry per table slot, in table order, stopping early
/// (without an error) at the first entry whose byte range would run past
/// the end of the buffer: a truncated table yields a shorter result, never
/// a fault.
pub fn get_program_headers(buf: &[u8], ehdr: &Elf64Ehdr) -> (r: Vec<Elf64Phdr>)
    ensures
        r@ == spec_program_headers(buf@, *ehdr),
{
    let mut out: Vec<Elf64Phdr> = Vec::new();
    let len64: u64 = buf.len() as u64;
    let mut i: u16 = 0;
    while i < ehdr.e_phnum
        invariant_except_break
            0 <= i <= ehdr.e_phnum,
            len64 == buf@.len(),
            buf@.len() <= usize::MAX,
            out@.len() == i as int,
            forall|j: int|
                0 <= j < i as int ==> phdr_in_bounds(
                    buf@.len() as int,
                    ehdr.e_phoff as int,
                    ehdr.e_phentsize as int,
                    j,
                ),
            forall|j: int|
                0 <= j < i as int ==> out@[j] == phdr_at(
                    buf@,
                    phdr_off(ehdr.e_phoff as int, ehdr.e_phentsize as int, j),
                ),
        ensures
            0 <= out@.len() <= ehdr.e_phnum,
            forall|j: int|
                0 <= j < out@.len() ==> phdr_in_bounds(
                    buf@.len() as int,
                    ehdr.e_phoff as int,
                    ehdr.e_phentsize as int,
                    j,
                ),
            forall|j: int|
                0 <= j < out@.len() ==> out@[j] == phdr_at(
                    buf@,
                    phdr_off(ehdr.e_phoff as int, ehdr.e_phentsize as int, j),
                ),
            out@.len() < ehdr.e_phnum ==> !phdr_in_bounds(
                buf@.len() as int,
                ehdr.e_phoff as int,
                ehdr.e_phentsize as int,
                out@.len() as int,
            ),
        decreases ehdr.e_phnum - i,
    {
        if len64 < PHDR_SIZE as u64 {
            break ;
        }
        let max_off: u64 = len64 - PHDR_SIZE as u64;
        proof {
            vstd::arithmetic::mul::lemma_mul_upper_bound(
                i as int,
                0xffff,
                ehdr.e_phentsize as int,
                0xffff,
            );
        }
        let step: u64 = (i as u64) * (ehdr.e_phentsize as u64);
        if ehdr.e_phoff > max_off || step > max_off - ehdr.e_phoff {
            break ;
        }
        let off: u64 = ehdr.e_phoff + step;
        let p = read_phdr(buf, off as usize);
        out.push(p);
        i = i + 1;
    }
    proof {
        lemma_phdr_table_end_from(
            buf@.len() as int,
            ehdr.e_phoff as int,
            ehdr.e_phentsize as int,
            ehdr.e_phnum as int,
            0,
            out@.len() as int,
        );
        assert(out@ =~= spec_program_headers(buf@, *ehdr));
    }
    out
}

} // verus!
