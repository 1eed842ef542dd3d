//! The capability interface through which the loader touches its host.
//!
//! The loader never owns memory or files itself: the host kernel provides a
//! virtual-memory reservation primitive, byte-level access to the reserved
//! memory, and a blocking file read. This trait states the contract the
//! loader relies on. An implementation inside the verifier proves it; a
//! raw kernel binding outside the verifier is trusted by its author to
//! honour it.

use vstd::prelude::*;

verus! {

/// Host capabilities consumed by the loader: a virtual address space that
/// regions can be reserved in and written to, and a named-file read.
///
/// The address space is modelled one byte at a time: `mem_at` gives the
/// byte stored at an address and `is_reserved` says whether the address
/// currently belongs to a reserved region. Reserving hands out zero-filled
/// pages for addresses not already reserved and leaves already-reserved
/// addresses untouched, the way a page-table mapper that skips
/// already-mapped pages behaves. Protection flags are passed through to the
/// host but are not modelled.
pub trait Host: Sized {
    /// Implementation-specific well-formedness; every capability call
    /// preserves it. Implementations supersede the trivial default.
    open spec fn inv(&self) -> bool {
        true
    }

    /// The byte stored at address `a` of the target address space.
    /// Implementations supersede the trivial default.
    open spec fn mem_at(&self, a: int) -> u8 {
        0
    }

    /// True when address `a` lies in a reserved region.
    /// Implementations supersede the trivial default.
    open spec fn is_reserved(&self, a: int) -> bool {
        false
    }

    /// The named files the host can read, each an immutable byte sequence.
    /// Implementations supersede the trivial default.
    open spec fn files(&self) -> Map<Seq<u8>, Seq<u8>> {
        Map::<Seq<u8>, Seq<u8>>::empty()
    }

    /// Reserves the page-aligned region `[start, start + size)` with the
    /// given protection flags. Returns false when the request cannot be
    /// satisfied, in which case nothing changes. On success, addresses not
    /// previously reserved read as zero and previously reserved addresses
    /// keep their contents.
    fn reserve_region(&mut self, start: u64, size: u64, flags: u64) -> (r: bool)
        requires
            old(self).inv(),
            start % crate::layout::PAGE_SIZE == 0,
            size % crate::layout::PAGE_SIZE == 0,
            start + size <= u64::MAX as int + 1,
        ensures
            final(self).inv(),
            final(self).files() == old(self).files(),
            r ==> forall|a: int|
                final(self).is_reserved(a) == (old(self).is_reserved(a) || (start <= a < start
                    + size)),
            r ==> forall|a: int|
                old(self).is_reserved(a) ==> final(self).mem_at(a) == old(self).mem_at(a),
            r ==> forall|a: int|
                start <= a < start + size && !old(self).is_reserved(a) ==> final(self).mem_at(a)
                    == 0,
            r ==> forall|a: int|
                !(start <= a < start + size) && !old(self).is_reserved(a) ==> final(self).mem_at(
                    a,
                ) == old(self).mem_at(a),
            !r ==> forall|a: int| final(self).is_reserved(a) == old(self).is_reserved(a),
            !r ==> forall|a: int| final(self).mem_at(a) == old(self).mem_at(a),
    ;

    /// Copies `src[offset .. offset + count)` to the reserved addresses
    /// `[addr, addr + count)`.
    fn write_bytes(&mut self, addr: u64, src: &[u8], offset: usize, count: usize)
        requires
            old(self).inv(),
            offset + count <= src.len(),
            addr + count <= u64::MAX as int + 1,
            forall|a: int| addr <= a < addr + count ==> old(self).is_reserved(a),
        ensures
            final(self).inv(),
            final(self).files() == old(self).files(),
            forall|a: int| final(self).is_reserved(a) == old(self).is_reserved(a),
            forall|a: int|
                addr <= a < addr + count ==> final(self).mem_at(a) == src@[offset + (a - addr)],
            forall|a: int|
                !(addr <= a < addr + count) ==> final(self).mem_at(a) == old(self).mem_at(a),
    ;

    /// Sets the reserved addresses `[addr, addr + count)` to zero.
    fn zero_bytes(&mut self, addr: u64, count: u64)
        requires
            old(self).inv(),
            addr + count <= u64::MAX as int + 1,
            forall|a: int| addr <= a < addr + count ==> old(self).is_reserved(a),
        ensures
            final(self).inv(),
            final(self).files() == old(self).files(),
            forall|a: int| final(self).is_reserved(a) == old(self).is_reserved(a),
            forall|a: int| addr <= a < addr + count ==> final(self).mem_at(a) == 0,
            forall|a: int|
                !(addr <= a < addr + count) ==> final(self).mem_at(a) == old(self).mem_at(a),
    ;

    /// Reads the named file whole, so long as it is non-empty and no larger
    /// than `max_len` bytes; returns `None` exactly when it is absent,
    /// empty, or too large.
    fn read_file(&self, name: &[u8], max_len: u64) -> (r: Option<Vec<u8>>)
        requires
            self.inv(),
        ensures
            r matches Some(v) ==> self.files().contains_key(name@) && v@ == self.files()[name@]
                && 0 < v@.len() <= max_len,
            r is None ==> !self.files().contains_key(name@) || self.files()[name@].len() == 0
                || self.files()[name@].len() > max_len,
    ;
}

} // verus!
