//! Formatting of diagnostic log lines.
//!
//! The loader's host exposes a raw log sink that takes NUL-terminated
//! bytes. These functions build such lines; handing them to the sink is the
//! host binding's business and never affects the loader's control flow.

use vstd::prelude::*;

verus! {

broadcast use vstd::slice::axiom_spec_len;

/// Greatest number of prefix bytes a hex-value line keeps.
pub const HEX_LINE_PREFIX_CAP: usize = 60;

/// Greatest number of prefix bytes a byte-dump line keeps.
pub const DUMP_LINE_PREFIX_CAP: usize = 40;

/// Line position at which a byte-dump line stops adding groups.
pub const DUMP_LINE_POS_CAP: usize = 90;

/// Index of the first prefix byte a log line drops: the first NUL, the cap,
/// or the end of the prefix, whichever comes first.
pub open spec fn log_prefix_end(s: Seq<u8>, cap: int, i: int) -> int
    decreases cap - i,
    when 0 <= i <= cap
{
    if i >= cap || i >= s.len() || s[i] == 0 {
        i
    } else {
        log_prefix_end(s, cap, i + 1)
    }
}

/// The uppercase hexadecimal digit character for `n`, with `n` below 16.
pub open spec fn hex_digit(n: u8) -> u8 {
    if n < 10 {
        (0x30 + n) as u8
    } else {
        (0x37 + n) as u8
    }
}

/// Nibble `i` of `value`, counted from the most significant.
pub open spec fn nibble_of(value: u64, i: int) -> u8 {
    ((value >> ((4 * (15 - i)) as u64)) & 0xf) as u8
}

/// A cut `k` with no NUL before it and either the cap, the end, or a NUL
/// at it is where the kept prefix ends.
proof fn lemma_log_prefix_end_from(s: Seq<u8>, cap: int, i: int, k: int)
    requires
        0 <= i <= k <= cap,
        k <= s.len(),
        forall|j: int| i <= j < k ==> (#[trigger] s[j]) != 0,
        k == cap || k == s.len() || s[k] == 0,
    ensures
        log_prefix_end(s, cap, i) == k,
    decreases k - i,
{
    if i < k {
        assert(s[i] != 0);
        lemma_log_prefix_end_from(s, cap, i + 1, k);
    }
}

/// Copies the kept part of `prefix` (up to a NUL, the end, or `cap` bytes)
/// into `out`.
fn push_prefix(out: &mut Vec<u8>, prefix: &[u8], cap: usize)
    requires
        old(out)@.len() == 0,
    ensures
        final(out)@.len() == log_prefix_end(prefix@, cap as int, 0),
        final(out)@.len() <= cap,
        forall|i: int| 0 <= i < final(out)@.len() ==> final(out)@[i] == prefix@[i],
{
    let mut i: usize = 0;
    while i < cap && i < prefix.len() && prefix[i] != 0
        invariant
            0 <= i <= cap,
            i <= prefix@.len(),
            out@.len() == i,
            forall|j: int| 0 <= j < i ==> (#[trigger] prefix@[j]) != 0,
            forall|j: int| 0 <= j < i ==> out@[j] == prefix@[j],
        decreases cap - i,
    {
        out.push(prefix[i]);
        i = i + 1;
    }
    proof {
        lemma_log_prefix_end_from(prefix@, cap as int, 0, i as int);
    }
}

/// High nibble of `b`.
pub open spec fn hi_nibble(b: u8) -> u8 {
    (b >> 4) & 0xf
}

/// Low nibble of `b`.
pub open spec fn lo_nibble(b: u8) -> u8 {
    b & 0xf
}

/// The hexadecimal digit character for the nibble `n`.
fn hex_digit_char(n: u8) -> (r: u8)
    requires
        n < 16,
    ensures
        r == hex_digit(n),
{
    if n < 10 {
        0x30 + n
    } else {
        0x37 + n
    }
}

/// Builds the log line for a named 64-bit value: the prefix (cut at its
/// first NUL or at 60 bytes), then `0x`, sixteen uppercase hexadecimal
/// digits, a newline, and a terminating NUL.
pub fn format_hex_line(prefix: &[u8], value: u64) -> (r: Vec<u8>)
    ensures
        ({
            let e = log_prefix_end(prefix@, HEX_LINE_PREFIX_CAP as int, 0);
            &&& r@.len() == e + 20
            &&& (forall|i: int| 0 <= i < e ==> r@[i] == prefix@[i])
            &&& r@[e] == 0x30u8
            &&& r@[e + 1] == 0x78u8
            &&& (forall|i: int|
                0 <= i < 16 ==> r@[e + 2 + i] == hex_digit(nibble_of(value, i)))
            &&& r@[e + 18] == 0x0Au8
            &&& r@[e + 19] == 0u8
        }),
{
    let mut out: Vec<u8> = Vec::new();
    push_prefix(&mut out, prefix, HEX_LINE_PREFIX_CAP);
    let ghost e = out@.len() as int;
    out.push(0x30);
    out.push(0x78);
    let mut d: usize = 0;
    while d < 16
        invariant
            0 <= d <= 16,
            out@.len() == e + 2 + d,
            0 <= e <= HEX_LINE_PREFIX_CAP,
            forall|i: int| 0 <= i < e ==> out@[i] == prefix@[i],
            out@[e] == 0x30u8,
            out@[e + 1] == 0x78u8,
            forall|i: int| 0 <= i < d ==> out@[e + 2 + i] == hex_digit(nibble_of(value, i)),
        decreases 16 - d,
    {
        let sh: u64 = (4 * (15 - d)) as u64;
        let nib: u8 = ((value >> sh) & 0xf) as u8;
        proof {
            assert((value >> sh) & 0xf < 16) by (bit_vector);
        }
        let digit: u8 = hex_digit_char(nib);
        out.push(digit);
        d = d + 1;
    }
    out.push(0x0A);
    out.push(0);
    out
}

/// Number of byte groups a dump line with a prefix of length `e` has room
/// for: group `i` takes the three characters at positions `e + 3 i`
/// onward, and groups stop at position 90.
pub open spec fn dump_group_cap(e: int) -> int {
    (92 - e) / 3
}

/// Builds the hex-dump log line for the first `max_len` bytes of `data`:
/// the prefix (cut at its first NUL or at 40 bytes), then for each dumped
/// byte two uppercase hexadecimal digits and a space, then a newline and a
/// terminating NUL. Dumping stops early once the line reaches position 90.
pub fn format_bytes_line(prefix: &[u8], data: &[u8], max_len: usize) -> (r: Vec<u8>)
    ensures
        ({
            let e = log_prefix_end(prefix@, DUMP_LINE_PREFIX_CAP as int, 0);
            let n = if data@.len() <= max_len {
                data@.len() as int
            } else {
                max_len as int
            };
            let m = if n <= dump_group_cap(e) {
                n
            } else {
                dump_group_cap(e)
            };
            &&& r@.len() == e + 3 * m + 2
            &&& (forall|i: int| 0 <= i < e ==> r@[i] == prefix@[i])
            &&& (forall|i: int|
                0 <= i < m ==> {
                    &&& r@[e + 3 * i] == hex_digit(hi_nibble(#[trigger] data@[i]))
                    &&& r@[e + 3 * i + 1] == hex_digit(lo_nibble(data@[i]))
                    &&& r@[e + 3 * i + 2] == 0x20u8
                })
            &&& r@[e + 3 * m] == 0x0Au8
            &&& r@[e + 3 * m + 1] == 0u8
        }),
{
    let mut out: Vec<u8> = Vec::new();
    push_prefix(&mut out, prefix, DUMP_LINE_PREFIX_CAP);
    let ghost e = out@.len() as int;
    let n: usize = if data.len() <= max_len {
        data.len()
    } else {
        max_len
    };
    let mut i: usize = 0;
    while i < n
        invariant_except_break
            0 <= i <= n,
            n <= data@.len(),
            out@.len() == e + 3 * i,
            0 <= e <= DUMP_LINE_PREFIX_CAP,
            i > 0 ==> e + 3 * (i - 1) < DUMP_LINE_POS_CAP,
            forall|t: int| 0 <= t < e ==> out@[t] == prefix@[t],
            forall|t: int|
                0 <= t < i ==> {
                    &&& out@[e + 3 * t] == hex_digit(hi_nibble(#[trigger] data@[t]))
                    &&& out@[e + 3 * t + 1] == hex_digit(lo_nibble(data@[t]))
                    &&& out@[e + 3 * t + 2] == 0x20u8
                },
        ensures
            0 <= i <= n,
            n <= data@.len(),
            out@.len() == e + 3 * i,
            0 <= e <= DUMP_LINE_PREFIX_CAP,
            i > 0 ==> e + 3 * (i - 1) < DUMP_LINE_POS_CAP,
            i == n || e + 3 * i >= DUMP_LINE_POS_CAP,
            forall|t: int| 0 <= t < e ==> out@[t] == prefix@[t],
            forall|t: int|
                0 <= t < i ==> {
                    &&& out@[e + 3 * t] == hex_digit(hi_nibble(#[trigger] data@[t]))
                    &&& out@[e + 3 * t + 1] == hex_digit(lo_nibble(data@[t]))
                    &&& out@[e + 3 * t + 2] == 0x20u8
                },
        decreases n - i,
    {
        if out.len() >= DUMP_LINE_POS_CAP {
            break ;
        }
        let b = data[i];
        proof {
            assert((b >> 4) & 0xf == b >> 4 && b >> 4 < 16 && b & 0xf < 16) by (bit_vector);
        }
        out.push(hex_digit_char(b >> 4));
        out.push(hex_digit_char(b & 0xf));
        out.push(0x20);
        i = i + 1;
    }
    proof {
        let cap = dump_group_cap(e);
        vstd::arithmetic::div_mod::lemma_fundamental_div_mod(92 - e, 3);
        vstd::arithmetic::div_mod::lemma_mod_division_less_than_divisor(92 - e, 3);
        if i as int == n as int {
            if n > 0 {
                assert(3 * (n - 1) <= 89 - e);
                assert(n <= cap);
            }
        } else {
            assert(e + 3 * i >= 90);
            assert(i >= cap);
            assert(e + 3 * (i - 1) < 90);
            assert(i <= cap);
        }
    }
    out.push(0x0A);
    out.push(0);
    out
}

/// True when `msg` is non-empty and NUL-terminated: the shape the host's
/// raw log sink accepts, and what a fixed log message is checked for
/// before being handed to it.
pub fn nul_terminated(msg: &[u8]) -> (r: bool)
    ensures
        r == (msg@.len() > 0 && msg@[msg@.len() - 1] == 0),
{
    msg.len() > 0 && msg[msg.len() - 1] == 0
}

} // verus!
