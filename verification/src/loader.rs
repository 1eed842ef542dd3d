//! The loader: walks the loadable program-header entries of a validated
//! image in table order and, for each, guards the kernel window, checks the
//! segment invariants, reserves the page-aligned region, copies the file
//! data, and zero-fills the BSS tail.

use vstd::prelude::*;

use crate::host::Host;
use crate::layout::{
    lemma_page_ceil_props, lemma_page_floor_props, page_ceil, page_floor, spec_page_ceil,
    spec_page_floor, MAX_SEGMENT_END, PAGE_SIZE,
};
use crate::parser::{self, Elf64Ehdr, Elf64Phdr, ElfError, EHDR_SIZE, PT_LOAD};

verus! {

/// Start of the kernel's reserved virtual-address window.
pub const KERNEL_MEM_START: u64 = 0x100000;

/// End (exclusive) of the kernel's reserved virtual-address window.
pub const KERNEL_MEM_END: u64 = 0x400000;

/// Capacity in bytes of the scratch buffer for a file-backed load (1 MiB).
pub const FILE_BUF_SIZE: u64 = 1024 * 1024;

/// Page protection: present.
pub const PAGE_PRESENT: u64 = 1 << 0;

/// Page protection: writable.
pub const PAGE_WRITABLE: u64 = 1 << 1;

/// Page protection: user-accessible.
pub const PAGE_USER: u64 = 1 << 2;

/// True when `p` marks a loadable segment.
pub open spec fn is_loadable(p: Elf64Phdr) -> bool {
    p.p_type == PT_LOAD
}

/// True when a segment starting at `vaddr` would overlap the kernel window.
pub open spec fn in_kernel_window(vaddr: u64) -> bool {
    KERNEL_MEM_START <= vaddr < KERNEL_MEM_END
}

/// True when a loadable entry satisfies the segment invariants against an
/// image of length `len`: its data lies inside the image, its memory size
/// covers its file size, and it ends low enough that its page range exists.
pub open spec fn segment_fits(len: int, p: Elf64Phdr) -> bool {
    &&& p.p_filesz <= p.p_memsz
    &&& p.p_offset + p.p_filesz <= len
    &&& p.p_vaddr + p.p_memsz <= MAX_SEGMENT_END
}

/// The error entry `p` is rejected with before any host call, if any:
/// the kernel-window guard runs first, then the segment invariants.
/// Non-loadable entries are skipped and never fault.
pub open spec fn segment_fault(len: int, p: Elf64Phdr) -> Option<ElfError> {
    if !is_loadable(p) {
        None
    } else if in_kernel_window(p.p_vaddr) {
        Some(ElfError::KernelMemoryOverlap)
    } else if !segment_fits(len, p) {
        Some(ElfError::InvalidProgramHeader)
    } else {
        None
    }
}

/// First address of the page range segment `p` reserves.
pub open spec fn seg_page_start(p: Elf64Phdr) -> int {
    spec_page_floor(p.p_vaddr as int)
}

/// End (exclusive) of the page range segment `p` reserves.
pub open spec fn seg_page_end(p: Elf64Phdr) -> int {
    spec_page_ceil(p.p_vaddr + p.p_memsz)
}

/// The byte segment `p` leaves at address `a` of its own data range
/// `[p_vaddr, p_vaddr + p_memsz)`: file data up to `p_filesz`, zero beyond.
pub open spec fn seg_byte(image: Seq<u8>, p: Elf64Phdr, a: int) -> u8 {
    if a < p.p_vaddr + p.p_filesz {
        image[p.p_offset + (a - p.p_vaddr)]
    } else {
        0
    }
}

/// Whether address `a` is reserved once the first `n` entries of `phs`
/// have been processed against initial host state `h0`.
pub open spec fn reserved_after<H: Host>(h0: H, phs: Seq<Elf64Phdr>, n: int, a: int) -> bool
    decreases n,
{
    if n <= 0 {
        h0.is_reserved(a)
    } else {
        let p = phs[n - 1];
        reserved_after(h0, phs, n - 1, a) || (is_loadable(p) && seg_page_start(p) <= a
            < seg_page_end(p))
    }
}

/// The byte at address `a` once the first `n` entries of `phs` have been
/// loaded in table order against initial host state `h0`: a later segment's
/// bytes win inside its data range, freshly reserved pages read as zero,
/// and everything else keeps its earlier value.
pub open spec fn mem_after<H: Host>(
    h0: H,
    image: Seq<u8>,
    phs: Seq<Elf64Phdr>,
    n: int,
    a: int,
) -> u8
    decreases n,
{
    if n <= 0 {
        h0.mem_at(a)
    } else {
        let p = phs[n - 1];
        if !is_loadable(p) {
            mem_after(h0, image, phs, n - 1, a)
        } else if p.p_vaddr <= a < p.p_vaddr + p.p_memsz {
            seg_byte(image, p, a)
        } else if seg_page_start(p) <= a < seg_page_end(p) && !reserved_after(h0, phs, n - 1, a) {
            0
        } else {
            mem_after(h0, image, phs, n - 1, a)
        }
    }
}

/// True when no entry of `phs` faults against an image of length `len`.
pub open spec fn no_segment_fault(len: int, phs: Seq<Elf64Phdr>) -> bool {
    forall|i: int| 0 <= i < phs.len() ==> #[trigger] segment_fault(len, phs[i]) is None
}

/// The error of `r`, if any.
pub open spec fn error_of<T>(r: Result<T, ElfError>) -> Option<ElfError> {
    match r {
        Ok(_) => None,
        Err(e) => Some(e),
    }
}

/// How loading the table `phs` of `image` takes the host from `h0` to `h1`.
///
/// On success every entry was processed and memory and reservations are the
/// in-order fold of all of them. On failure there is a loadable entry `i`
/// such that everything before it loaded, entry `i` itself either faulted
/// with the reported error or had its reservation refused by the host, and
/// the host state is exactly the fold of the entries before `i`: nothing of
/// entry `i` or of any later entry was applied.
pub open spec fn load_segments_post<H: Host>(
    h0: H,
    h1: H,
    image: Seq<u8>,
    phs: Seq<Elf64Phdr>,
    err: Option<ElfError>,
) -> bool {
    match err {
        None => {
            &&& no_segment_fault(image.len() as int, phs)
            &&& forall|a: int|
                #[trigger] h1.mem_at(a) == mem_after(h0, image, phs, phs.len() as int, a)
            &&& forall|a: int|
                #[trigger] h1.is_reserved(a) == reserved_after(h0, phs, phs.len() as int, a)
        },
        Some(e) => exists|i: int|
            {
                &&& 0 <= i < phs.len()
                &&& is_loadable(#[trigger] phs[i])
                &&& forall|j: int|
                    0 <= j < i ==> #[trigger] segment_fault(image.len() as int, phs[j]) is None
                &&& (segment_fault(image.len() as int, phs[i]) == Some(e) || (e
                    == ElfError::MemoryAllocationFailed && segment_fault(
                    image.len() as int,
                    phs[i],
                ) is None))
                &&& forall|a: int| #[trigger] h1.mem_at(a) == mem_after(h0, image, phs, i, a)
                &&& forall|a: int|
                    #[trigger] h1.is_reserved(a) == reserved_after(h0, phs, i, a)
            },
    }
}

/// Loads every loadable program-header entry of `image` in table order.
///
/// Each loadable entry is guarded against the kernel window, checked
/// against the segment invariants, given a page-aligned reservation,
/// copied, and zero-filled past its file data; the first failure aborts
/// the whole load with nothing of the failing or later entries applied.
pub fn load_segments<H: Host>(host: &mut H, image: &[u8], ehdr: &Elf64Ehdr) -> (r: Result<
    (),
    ElfError,
>)
    requires
        old(host).inv(),
    ensures
        final(host).inv(),
        final(host).files() == old(host).files(),
        load_segments_post(
            *old(host),
            *final(host),
            image@,
            parser::spec_program_headers(image@, *ehdr),
            error_of(r),
        ),
{
    let phs = parser::get_program_headers(image, ehdr);
    let ghost table = phs@;
    proof {
        assert(image@.len() == image.len());
    }
    let mut k: usize = 0;
    while k < phs.len()
        invariant
            host.inv(),
            host.files() == old(host).files(),
            0 <= k <= phs@.len(),
            phs@ == table,
            table == parser::spec_program_headers(image@, *ehdr),
            image@.len() <= usize::MAX,
            forall|j: int|
                0 <= j < k as int ==> #[trigger] segment_fault(image@.len() as int, table[j])
                    is None,
            forall|a: int|
                #[trigger] host.mem_at(a) == mem_after(*old(host), image@, table, k as int, a),
            forall|a: int|
                #[trigger] host.is_reserved(a) == reserved_after(*old(host), table, k as int, a),
        decreases phs@.len() - k,
    {
        let p = phs[k];
        let ghost kk = k as int;
        if p.p_type == PT_LOAD {
            if p.p_vaddr >= KERNEL_MEM_START && p.p_vaddr < KERNEL_MEM_END {
                proof {
                    assert(segment_fault(image@.len() as int, table[kk]) == Some(
                        ElfError::KernelMemoryOverlap,
                    ));
                }
                return Err(ElfError::KernelMemoryOverlap);
            }
            let len64: u64 = image.len() as u64;
            let fits: bool = p.p_filesz <= p.p_memsz && p.p_offset <= len64 && p.p_filesz <= len64
                - p.p_offset && p.p_vaddr <= MAX_SEGMENT_END && p.p_memsz <= MAX_SEGMENT_END
                - p.p_vaddr;
            if !fits {
                proof {
                    assert(!segment_fits(image@.len() as int, table[kk]));
                    assert(segment_fault(image@.len() as int, table[kk]) == Some(
                        ElfError::InvalidProgramHeader,
                    ));
                }
                return Err(ElfError::InvalidProgramHeader);
            }
            let ghost h_prev = *host;
            let start_page = page_floor(p.p_vaddr);
            let end_addr = p.p_vaddr + p.p_memsz;
            let end_page = page_ceil(end_addr);
            proof {
                lemma_page_floor_props(p.p_vaddr as int);
                lemma_page_ceil_props(end_addr as int);
                vstd::arithmetic::div_mod::lemma_sub_mod_noop(
                    end_page as int,
                    start_page as int,
                    PAGE_SIZE as int,
                );
                vstd::arithmetic::div_mod::lemma_small_mod(0, PAGE_SIZE as nat);
            }
            let alloc_size = end_page - start_page;
            let flags = PAGE_PRESENT | PAGE_WRITABLE | PAGE_USER;
            if !host.reserve_region(start_page, alloc_size, flags) {
                return Err(ElfError::MemoryAllocationFailed);
            }
            let ghost h_res = *host;
            host.write_bytes(p.p_vaddr, image, p.p_offset as usize, p.p_filesz as usize);
            if p.p_memsz > p.p_filesz {
                host.zero_bytes(p.p_vaddr + p.p_filesz, p.p_memsz - p.p_filesz);
            }
            proof {
                assert forall|a: int|
                    #[trigger] host.mem_at(a) == mem_after(
                        *old(host),
                        image@,
                        table,
                        kk + 1,
                        a,
                    ) by {
                    assert(seg_page_start(table[kk]) == start_page as int);
                    assert(seg_page_end(table[kk]) == end_page as int);
                    if p.p_vaddr <= a < p.p_vaddr + p.p_filesz {
                        assert(host.mem_at(a) == image@[p.p_offset + (a - p.p_vaddr)]);
                    } else if p.p_vaddr + p.p_filesz <= a < p.p_vaddr + p.p_memsz {
                        assert(host.mem_at(a) == 0);
                    } else if start_page <= a < end_page && !h_prev.is_reserved(a) {
                        assert(h_res.mem_at(a) == 0);
                        assert(host.mem_at(a) == 0);
                    } else {
                        assert(h_res.mem_at(a) == h_prev.mem_at(a));
                        assert(host.mem_at(a) == h_prev.mem_at(a));
                    }
                }
                assert forall|a: int|
                    #[trigger] host.is_reserved(a) == reserved_after(
                        *old(host),
                        table,
                        kk + 1,
                        a,
                    ) by {
                    assert(seg_page_start(table[kk]) == start_page as int);
                    assert(seg_page_end(table[kk]) == end_page as int);
                    assert(host.is_reserved(a) == h_res.is_reserved(a));
                }
            }
        } else {
            proof {
                assert forall|a: int|
                    #[trigger] host.mem_at(a) == mem_after(
                        *old(host),
                        image@,
                        table,
                        kk + 1,
                        a,
                    ) by {
                    assert(mem_after(*old(host), image@, table, kk + 1, a) == mem_after(
                        *old(host),
                        image@,
                        table,
                        kk,
                        a,
                    ));
                }
                assert forall|a: int|
                    #[trigger] host.is_reserved(a) == reserved_after(
                        *old(host),
                        table,
                        kk + 1,
                        a,
                    ) by {
                    assert(reserved_after(*old(host), table, kk + 1, a) == reserved_after(
                        *old(host),
                        table,
                        kk,
                        a,
                    ));
                }
            }
        }
        k = k + 1;
    }
    Ok(())
}

/// After loading a table whose only loadable entry is `phs[l]`, every
/// address in that segment's data range holds the segment's bytes: the
/// image's file data below `p_vaddr + p_filesz`, and zero from there up to
/// `p_vaddr + p_memsz` (the BSS tail).
pub proof fn lemma_single_segment_memory<H: Host>(
    h0: H,
    image: Seq<u8>,
    phs: Seq<Elf64Phdr>,
    l: int,
    n: int,
    a: int,
)
    requires
        0 <= l < n <= phs.len(),
        is_loadable(phs[l]),
        forall|j: int| 0 <= j < phs.len() && j != l ==> !is_loadable(#[trigger] phs[j]),
        phs[l].p_vaddr <= a < phs[l].p_vaddr + phs[l].p_memsz,
    ensures
        a < phs[l].p_vaddr + phs[l].p_filesz ==> mem_after(h0, image, phs, n, a) == image[phs[l].p_offset
            + (a - phs[l].p_vaddr)],
        a >= phs[l].p_vaddr + phs[l].p_filesz ==> mem_after(h0, image, phs, n, a) == 0,
    decreases n,
{
    if n - 1 != l {
        lemma_single_segment_memory(h0, image, phs, l, n - 1, a);
    }
}

/// If none of the first `n` entries is loadable, processing them leaves
/// memory and reservations untouched. Together with the failure case of
/// `load_segments_post`, this says that when the first loadable entry of a
/// table is rejected — for overlapping the kernel window, say — the host is
/// exactly as it was: no region was reserved and no byte was copied.
pub proof fn lemma_no_loadable_prefix_unchanged<H: Host>(
    h0: H,
    image: Seq<u8>,
    phs: Seq<Elf64Phdr>,
    n: int,
    a: int,
)
    requires
        0 <= n <= phs.len(),
        forall|j: int| 0 <= j < n ==> !is_loadable(#[trigger] phs[j]),
    ensures
        mem_after(h0, image, phs, n, a) == h0.mem_at(a),
        reserved_after(h0, phs, n, a) == h0.is_reserved(a),
    decreases n,
{
    if n > 0 {
        lemma_no_loadable_prefix_unchanged(h0, image, phs, n - 1, a);
    }
}

/// The error `validate_elf_header` rejects `s` with, assuming it rejects it.
pub open spec fn spec_validate_error(s: Seq<u8>) -> ElfError {
    if s.len() < EHDR_SIZE {
        ElfError::FileTooSmall
    } else if !parser::has_elf_magic(s) {
        ElfError::InvalidMagic
    } else {
        ElfError::UnsupportedMachine
    }
}

/// How loading the whole image `image` takes the host from `h0` to `h1`.
///
/// An image whose header does not validate is rejected with the
/// corresponding error and the host is untouched. Otherwise the segments of
/// the table the image itself describes are loaded in order, and on success
/// the result is the header's entry-point address.
pub open spec fn load_post<H: Host>(h0: H, h1: H, image: Seq<u8>, r: Result<u64, ElfError>) -> bool {
    if parser::header_ok(image) {
        &&& (r matches Ok(entry) ==> entry == parser::u64_at(image, 24))
        &&& load_segments_post(h0, h1, image, parser::spec_image_table(image), error_of(r))
    } else {
        &&& r == Err::<u64, ElfError>(spec_validate_error(image))
        &&& forall|a: int| #[trigger] h1.mem_at(a) == h0.mem_at(a)
        &&& forall|a: int| #[trigger] h1.is_reserved(a) == h0.is_reserved(a)
    }
}

/// The single-segment load property at the public interface: after a
/// successful load of an image whose table has exactly one loadable entry,
/// the bytes `[p_vaddr, p_vaddr + p_filesz)` of the target address space
/// equal the image bytes at `[p_offset, p_offset + p_filesz)`, and the
/// bytes `[p_vaddr + p_filesz, p_vaddr + p_memsz)` — the BSS tail — are
/// zero.
pub proof fn lemma_single_segment_load_post<H: Host>(
    h0: H,
    h1: H,
    image: Seq<u8>,
    entry: u64,
    l: int,
    a: int,
)
    requires
        load_post(h0, h1, image, Ok(entry)),
        0 <= l < parser::spec_image_table(image).len(),
        is_loadable(parser::spec_image_table(image)[l]),
        forall|j: int|
            0 <= j < parser::spec_image_table(image).len() && j != l ==> !is_loadable(
                #[trigger] parser::spec_image_table(image)[j],
            ),
        parser::spec_image_table(image)[l].p_vaddr <= a < parser::spec_image_table(image)[l].p_vaddr
            + parser::spec_image_table(image)[l].p_memsz,
    ensures
        ({
            let p = parser::spec_image_table(image)[l];
            &&& a < p.p_vaddr + p.p_filesz ==> h1.mem_at(a) == image[p.p_offset + (a
                - p.p_vaddr)]
            &&& a >= p.p_vaddr + p.p_filesz ==> h1.mem_at(a) == 0
        }),
{
    let table = parser::spec_image_table(image);
    lemma_single_segment_memory(h0, image, table, l, table.len() as int, a);
}

/// Validates the already-resident image `image` and loads its segments;
/// returns the program's entry-point address. The caller owns the buffer
/// before and after the call: the loader only reads it.
pub fn load_from_buffer<H: Host>(host: &mut H, image: &[u8]) -> (r: Result<u64, ElfError>)
    requires
        old(host).inv(),
    ensures
        final(host).inv(),
        final(host).files() == old(host).files(),
        load_post(*old(host), *final(host), image@, r),
{
    let ehdr = match parser::validate_elf_header(image) {
        Ok(h) => h,
        Err(e) => {
            return Err(e);
        },
    };
    proof {
        assert(parser::spec_program_headers(image@, ehdr) == parser::spec_image_table(image@));
    }
    match load_segments(host, image, &ehdr) {
        Ok(()) => Ok(ehdr.e_entry),
        Err(e) => Err(e),
    }
}

/// Reads the named file through the host into a scratch buffer of at most
/// `FILE_BUF_SIZE` bytes, then validates and loads it as `load_from_buffer`
/// does. The scratch buffer is owned by this call alone and is released on
/// every path, success or failure.
pub fn load_from_file<H: Host>(host: &mut H, filename: &[u8]) -> (r: Result<u64, ElfError>)
    requires
        old(host).inv(),
    ensures
        final(host).inv(),
        final(host).files() == old(host).files(),
        ({
            let fs = old(host).files();
            if fs.contains_key(filename@) && 0 < fs[filename@].len() <= FILE_BUF_SIZE {
                load_post(*old(host), *final(host), fs[filename@], r)
            } else {
                &&& r == Err::<u64, ElfError>(ElfError::FileReadFailed)
                &&& forall|a: int| #[trigger] final(host).mem_at(a) == old(host).mem_at(a)
                &&& forall|a: int|
                    #[trigger] final(host).is_reserved(a) == old(host).is_reserved(a)
            }
        }),
{
    let buf = match host.read_file(filename, FILE_BUF_SIZE) {
        Some(v) => v,
        None => {
            return Err(ElfError::FileReadFailed);
        },
    };
    load_from_buffer(host, buf.as_slice())
}

} // verus!
