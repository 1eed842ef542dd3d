//! Page-alignment arithmetic for laying out memory regions.

use vstd::prelude::*;

verus! {

/// Size in bytes of one virtual-memory page.
pub const PAGE_SIZE: u64 = 4096;

/// Highest address at which a loadable segment may end. It sits one page
/// below the top of the 64-bit address space, so that the page-aligned end
/// of any segment ending at or below it still fits in a `u64`.
pub const MAX_SEGMENT_END: u64 = 0xFFFF_FFFF_FFFF_F000;

/// Largest multiple of the page size that is at most `a`.
pub open spec fn spec_page_floor(a: int) -> int {
    a - a % (PAGE_SIZE as int)
}

/// Smallest multiple of the page size that is at least `a`.
pub open spec fn spec_page_ceil(a: int) -> int {
    spec_page_floor(a + PAGE_SIZE - 1)
}

/// The page floor is page-aligned, at most `a`, and less than one page
/// below it.
pub proof fn lemma_page_floor_props(a: int)
    requires
        a >= 0,
    ensures
        spec_page_floor(a) % (PAGE_SIZE as int) == 0,
        spec_page_floor(a) <= a < spec_page_floor(a) + PAGE_SIZE,
        spec_page_floor(a) >= 0,
{
    let d = PAGE_SIZE as int;
    vstd::arithmetic::div_mod::lemma_fundamental_div_mod(a, d);
    vstd::arithmetic::div_mod::lemma_mod_division_less_than_divisor(a, d);
    vstd::arithmetic::div_mod::lemma_mod_multiples_basic(a / d, d);
    assert(spec_page_floor(a) == (a / d) * d);
}

/// A positive multiple of the page size is at least one whole page.
proof fn lemma_positive_multiple_at_least_page(x: int)
    requires
        x > 0,
        x % (PAGE_SIZE as int) == 0,
    ensures
        x >= PAGE_SIZE,
{
    let d = PAGE_SIZE as int;
    vstd::arithmetic::div_mod::lemma_fundamental_div_mod(x, d);
    assert(x == (x / d) * d);
    if x / d <= 0 {
        vstd::arithmetic::mul::lemma_mul_inequality(x / d, 0, d);
        assert(x <= 0);
    } else {
        vstd::arithmetic::mul::lemma_mul_inequality(1, x / d, d);
    }
}

/// The page ceiling is page-aligned and is the smallest page-aligned
/// address at or above `a`.
pub proof fn lemma_page_ceil_props(a: int)
    requires
        a >= 0,
    ensures
        spec_page_ceil(a) % (PAGE_SIZE as int) == 0,
        a <= spec_page_ceil(a) < a + PAGE_SIZE,
        forall|b: int| #[trigger] (b % (PAGE_SIZE as int)) == 0 && b >= a ==> b >= spec_page_ceil(a),
{
    let d = PAGE_SIZE as int;
    let c = spec_page_ceil(a);
    lemma_page_floor_props(a + d - 1);
    assert(a <= c) by {
        assert(a + d - 1 < c + d);
    }
    assert forall|b: int| #[trigger] (b % d) == 0 && b >= a implies b >= c by {
        if b < c {
            vstd::arithmetic::div_mod::lemma_sub_mod_noop(c, b, d);
            vstd::arithmetic::div_mod::lemma_small_mod(0, d as nat);
            assert((c - b) % d == 0);
            lemma_positive_multiple_at_least_page(c - b);
            assert(b <= c - d);
            assert(c <= a + d - 1);
            assert(b < a);
        }
    }
}

/// Rounds `addr` down to the start of its page.
pub fn page_floor(addr: u64) -> (r: u64)
    ensures
        r as int == spec_page_floor(addr as int),
        r % PAGE_SIZE == 0,
        r <= addr,
{
    proof {
        lemma_page_floor_props(addr as int);
        vstd::arithmetic::div_mod::lemma_fundamental_div_mod(addr as int, PAGE_SIZE as int);
    }
    addr - addr % PAGE_SIZE
}

/// Rounds `addr` up to the end of its page.
pub fn page_ceil(addr: u64) -> (r: u64)
    requires
        addr <= MAX_SEGMENT_END,
    ensures
        r as int == spec_page_ceil(addr as int),
        r % PAGE_SIZE == 0,
        addr <= r,
{
    proof {
        lemma_page_ceil_props(addr as int);
        lemma_page_floor_props(addr as int + PAGE_SIZE - 1);
        vstd::arithmetic::div_mod::lemma_fundamental_div_mod(
            addr as int + PAGE_SIZE - 1,
            PAGE_SIZE as int,
        );
    }
    let base: u64 = addr + (PAGE_SIZE - 1);
    base - base % PAGE_SIZE
}

} // verus!
