//! An in-memory host: a bounded window of simulated memory plus one named
//! file, with every capability contract of [`Host`] proved. It stands in
//! for the host kernel wherever the loader runs without one.

use vstd::prelude::*;

use crate::host::Host;

verus! {

/// A host whose address space is the window `[base, base + bytes.len())`.
///
/// Reservation requests succeed exactly when they fall inside the window;
/// anything else is refused, which models an allocator that has run out of
/// memory. At most one named file is available for reading.
pub struct SimHost {
    base: u64,
    bytes: Vec<u8>,
    mapped: Vec<bool>,
    file_name: Vec<u8>,
    file_data: Vec<u8>,
    has_file: bool,
}

/// True exactly when the byte sequences `a` and `b` are equal.
fn bytes_equal(a: &[u8], b: &[u8]) -> (r: bool)
    ensures
        r <==> a@ == b@,
{
    if a.len() != b.len() {
        proof {
            assert(a@.len() != b@.len());
        }
        return false;
    }
    let n = a.len();
    let mut i: usize = 0;
    while i < n
        invariant
            0 <= i <= n,
            n == a@.len(),
            n == b@.len(),
            forall|j: int| 0 <= j < i ==> a@[j] == b@[j],
        decreases n - i,
    {
        if a[i] != b[i] {
            return false;
        }
        i = i + 1;
    }
    proof {
        assert(a@ =~= b@);
    }
    true
}

impl SimHost {
    /// A host with the reservable window `[base, base + size)`, all zero
    /// and unreserved, and no file.
    pub fn new(base: u64, size: usize) -> (h: SimHost)
        requires
            base + size <= u64::MAX as int + 1,
        ensures
            h.inv(),
            h.files() == Map::<Seq<u8>, Seq<u8>>::empty(),
            forall|a: int| !(#[trigger] h.is_reserved(a)),
            forall|a: int| #[trigger] h.mem_at(a) == 0,
    {
        let mut bytes: Vec<u8> = Vec::new();
        let mut mapped: Vec<bool> = Vec::new();
        let mut i: usize = 0;
        while i < size
            invariant
                0 <= i <= size,
                bytes@.len() == i,
                mapped@.len() == i,
                forall|j: int| 0 <= j < i ==> bytes@[j] == 0u8,
                forall|j: int| 0 <= j < i ==> mapped@[j] == false,
            decreases size - i,
        {
            bytes.push(0u8);
            mapped.push(false);
            i = i + 1;
        }
        SimHost { base, bytes, mapped, file_name: Vec::new(), file_data: Vec::new(), has_file: false }
    }

    /// Makes `name` the one file the host can read, with contents `data`.
    pub fn set_file(&mut self, name: Vec<u8>, data: Vec<u8>)
        requires
            old(self).inv(),
        ensures
            final(self).inv(),
            final(self).files() == Map::<Seq<u8>, Seq<u8>>::empty().insert(name@, data@),
            forall|a: int| #[trigger] final(self).mem_at(a) == old(self).mem_at(a),
            forall|a: int| #[trigger] final(self).is_reserved(a) == old(self).is_reserved(a),
    {
        self.file_name = name;
        self.file_data = data;
        self.has_file = true;
    }

    /// The byte stored at `addr`.
    pub fn read_byte(&self, addr: u64) -> (b: u8)
        ensures
            b == self.mem_at(addr as int),
    {
        if addr < self.base {
            return 0;
        }
        let off = addr - self.base;
        if off < self.bytes.len() as u64 {
            self.bytes[off as usize]
        } else {
            0
        }
    }

    /// Whether `addr` lies in a reserved region.
    pub fn check_reserved(&self, addr: u64) -> (r: bool)
        ensures
            r == self.is_reserved(addr as int),
    {
        if addr < self.base {
            return false;
        }
        let off = addr - self.base;
        if off < self.mapped.len() as u64 {
            self.mapped[off as usize]
        } else {
            false
        }
    }
}

impl Host for SimHost {
    closed spec fn inv(&self) -> bool {
        &&& self.bytes@.len() == self.mapped@.len()
        &&& self.base + self.bytes@.len() <= u64::MAX as int + 1
    }

    closed spec fn mem_at(&self, a: int) -> u8 {
        if self.base <= a < self.base + self.bytes@.len() {
            self.bytes@[a - self.base]
        } else {
            0
        }
    }

    closed spec fn is_reserved(&self, a: int) -> bool {
        self.base <= a < self.base + self.mapped@.len() && self.mapped@[a - self.base]
    }

    closed spec fn files(&self) -> Map<Seq<u8>, Seq<u8>> {
        if self.has_file {
            Map::<Seq<u8>, Seq<u8>>::empty().insert(self.file_name@, self.file_data@)
        } else {
            Map::<Seq<u8>, Seq<u8>>::empty()
        }
    }

    fn reserve_region(&mut self, start: u64, size: u64, flags: u64) -> (r: bool) {
        if size == 0 {
            return true;
        }
        if start < self.base {
            return false;
        }
        let off = start - self.base;
        let len64 = self.bytes.len() as u64;
        if off > len64 || size > len64 - off {
            return false;
        }
        let lo = off as usize;
        let hi = (off + size) as usize;
        let mut j = lo;
        while j < hi
            invariant
                lo <= j <= hi <= self.bytes@.len(),
                self.base == old(self).base,
                self.bytes@.len() == old(self).bytes@.len(),
                self.mapped@.len() == old(self).mapped@.len(),
                self.bytes@.len() == self.mapped@.len(),
                self.has_file == old(self).has_file,
                self.file_name@ == old(self).file_name@,
                self.file_data@ == old(self).file_data@,
                forall|t: int|
                    lo <= t < j ==> #[trigger] self.mapped@[t] == true,
                forall|t: int|
                    lo <= t < j && old(self).mapped@[t] ==> #[trigger] self.bytes@[t] == old(
                        self,
                    ).bytes@[t],
                forall|t: int|
                    lo <= t < j && !old(self).mapped@[t] ==> #[trigger] self.bytes@[t] == 0u8,
                forall|t: int|
                    0 <= t < self.mapped@.len() && !(lo <= t < j) ==> #[trigger] self.mapped@[t]
                        == old(self).mapped@[t],
                forall|t: int|
                    0 <= t < self.bytes@.len() && !(lo <= t < j) ==> #[trigger] self.bytes@[t]
                        == old(self).bytes@[t],
            decreases hi - j,
        {
            if !self.mapped[j] {
                self.bytes[j] = 0;
                self.mapped[j] = true;
            }
            j = j + 1;
        }
        proof {
            assert forall|a: int|
                self.is_reserved(a) == (old(self).is_reserved(a) || (start <= a < start
                    + size)) by {
                if self.base <= a < self.base + self.mapped@.len() {
                    assert(self.mapped@[a - self.base] == (old(self).mapped@[a - self.base] || (
                    lo <= a - self.base < hi)));
                }
            }
        }
        true
    }

    fn write_bytes(&mut self, addr: u64, src: &[u8], offset: usize, count: usize) {
        if count == 0 {
            return ;
        }
        let len = self.bytes.len();
        proof {
            assert(old(self).is_reserved(addr as int));
            assert(old(self).is_reserved(addr + count - 1));
            assert(addr - self.base < len);
            assert(addr - self.base + count <= len);
        }
        let lo = (addr - self.base) as usize;
        let mut j: usize = 0;
        while j < count
            invariant
                0 <= j <= count,
                lo + count <= self.bytes@.len(),
                lo + count <= usize::MAX,
                offset + count <= src@.len(),
                offset + count <= usize::MAX,
                self.base == old(self).base,
                self.bytes@.len() == old(self).bytes@.len(),
                self.mapped@ == old(self).mapped@,
                self.bytes@.len() == self.mapped@.len(),
                self.has_file == old(self).has_file,
                self.file_name@ == old(self).file_name@,
                self.file_data@ == old(self).file_data@,
                forall|t: int|
                    lo <= t < lo + j ==> #[trigger] self.bytes@[t] == src@[offset + (t - lo)],
                forall|t: int|
                    0 <= t < self.bytes@.len() && !(lo <= t < lo + j) ==> #[trigger] self.bytes@[t]
                        == old(self).bytes@[t],
            decreases count - j,
        {
            self.bytes[lo + j] = src[offset + j];
            j = j + 1;
        }
    }

    fn zero_bytes(&mut self, addr: u64, count: u64) {
        if count == 0 {
            return ;
        }
        let len = self.bytes.len();
        proof {
            assert(old(self).is_reserved(addr as int));
            assert(old(self).is_reserved(addr + count - 1));
            assert(addr - self.base < len);
            assert(addr - self.base + count <= len);
        }
        let lo = (addr - self.base) as usize;
        let cnt = count as usize;
        let mut j: usize = 0;
        while j < cnt
            invariant
                0 <= j <= cnt,
                lo + cnt <= self.bytes@.len(),
                lo + cnt <= usize::MAX,
                self.base == old(self).base,
                self.bytes@.len() == old(self).bytes@.len(),
                self.mapped@ == old(self).mapped@,
                self.bytes@.len() == self.mapped@.len(),
                self.has_file == old(self).has_file,
                self.file_name@ == old(self).file_name@,
                self.file_data@ == old(self).file_data@,
                forall|t: int| lo <= t < lo + j ==> #[trigger] self.bytes@[t] == 0u8,
                forall|t: int|
                    0 <= t < self.bytes@.len() && !(lo <= t < lo + j) ==> #[trigger] self.bytes@[t]
                        == old(self).bytes@[t],
            decreases cnt - j,
        {
            self.bytes[lo + j] = 0;
            j = j + 1;
        }
    }

    fn read_file(&self, name: &[u8], max_len: u64) -> (r: Option<Vec<u8>>) {
        if !self.has_file {
            return None;
        }
        if !bytes_equal(name, self.file_name.as_slice()) {
            return None;
        }
        let n = self.file_data.len();
        if n == 0 {
            return None;
        }
        if n as u64 > max_len {
            return None;
        }
        let data = self.file_data.clone();
        proof {
            assert(data@ =~= self.file_data@);
        }
        Some(data)
    }
}

} // verus!
