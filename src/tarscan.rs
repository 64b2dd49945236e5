//! A scan of a tar archive's header blocks, done before tar reads it: the
//! archive must use only plain octal sizes and no sparse or pax headers,
//! which is all that `ArchiveWriter` produces.
use vstd::prelude::*;

verus! {

/// Offset of the size field in a header block.
pub const SIZE_AT: usize = 124;

/// Offset of the type flag in a header block.
pub const TYPE_AT: usize = 156;

pub open spec fn is_octal_digit(c: u8) -> bool {
    48 <= c <= 55
}

/// The size field at `o` holds eleven octal digits and a NUL or space.
pub open spec fn size_field_ok(d: Seq<u8>, o: int) -> bool {
    &&& forall|k: int| 0 <= k < 11 ==> is_octal_digit(#[trigger] d[o + k])
    &&& (d[o + 11] == 0u8 || d[o + 11] == 32u8)
}

/// The value of eleven octal digits at `o`.
pub open spec fn octal_at(d: Seq<u8>, o: int) -> int {
    (d[o] - 48) * 1073741824 + (d[o + 1] - 48) * 134217728 + (d[o + 2] - 48) * 16777216 + (d[o + 3]
        - 48) * 2097152 + (d[o + 4] - 48) * 262144 + (d[o + 5] - 48) * 32768 + (d[o + 6] - 48) * 4096
        + (d[o + 7] - 48) * 512 + (d[o + 8] - 48) * 64 + (d[o + 9] - 48) * 8 + (d[o + 10] - 48)
}

/// `s` rounded up to whole blocks.
pub open spec fn round_up(s: int) -> int {
    if s <= 0 {
        0
    } else {
        let r = (s + 511) - (s + 511) % 512;
        if r < 0 {
            0
        } else {
            r
        }
    }
}

pub open spec fn block_zero(d: Seq<u8>, pos: int) -> bool {
    forall|k: int| 0 <= k < 512 ==> #[trigger] d[pos + k] == 0u8
}

/// A header that is sparse (`S`), pax (`x`, `g`), or whose size is not plain octal.
pub open spec fn header_refused(d: Seq<u8>, pos: int) -> bool {
    ||| d[pos + 156] == 83u8
    ||| d[pos + 156] == 120u8
    ||| d[pos + 156] == 103u8
    ||| !size_field_ok(d, pos + 124)
}

/// Every header that tar visits from `pos` on is acceptable. tar stops at a
/// zero block or where fewer than a block's bytes are left, and otherwise
/// moves past the header and its data rounded up to whole blocks.
pub open spec fn headers_plain_from(d: Seq<u8>, pos: int) -> bool
    decreases d.len() - pos,
{
    if pos < 0 || pos + 512 > d.len() {
        true
    } else if block_zero(d, pos) {
        true
    } else if header_refused(d, pos) {
        false
    } else {
        let next = pos + 512 + round_up(octal_at(d, pos + 124));
        if next + 512 > d.len() {
            true
        } else {
            headers_plain_from(d, next)
        }
    }
}

pub open spec fn headers_plain(d: Seq<u8>) -> bool {
    headers_plain_from(d, 0)
}

fn is_zero_block(d: &[u8], pos: usize) -> (r: bool)
    requires
        pos + 512 <= d@.len(),
        d@.len() <= usize::MAX,
    ensures
        r == block_zero(d@, pos as int),
{
    let mut k: usize = 0;
    while k < 512
        invariant
            pos + 512 <= d@.len(),
            d@.len() <= usize::MAX,
            k <= 512,
            forall|j: int| 0 <= j < k ==> #[trigger] d@[pos + j] == 0u8,
        decreases 512 - k,
    {
        if d[pos + k] != 0 {
            assert(d@[pos + k as int] != 0u8);
            return false;
        }
        k += 1;
    }
    true
}

fn is_size_field_ok(d: &[u8], o: usize) -> (r: bool)
    requires
        o + 12 <= d@.len(),
        d@.len() <= usize::MAX,
    ensures
        r == size_field_ok(d@, o as int),
{
    let mut k: usize = 0;
    while k < 11
        invariant
            o + 12 <= d@.len(),
            d@.len() <= usize::MAX,
            k <= 11,
            forall|j: int| 0 <= j < k ==> is_octal_digit(#[trigger] d@[o + j]),
        decreases 11 - k,
    {
        if d[o + k] < 48 || d[o + k] > 55 {
            assert(!is_octal_digit(d@[o + k as int]));
            return false;
        }
        k += 1;
    }
    d[o + 11] == 0 || d[o + 11] == 32
}

fn octal_value(d: &[u8], o: usize) -> (r: u128)
    requires
        o + 12 <= d@.len(),
        size_field_ok(d@, o as int),
    ensures
        r == octal_at(d@, o as int),
        r <= 8589934591,
{
    assert(is_octal_digit(d@[o + 0]) && is_octal_digit(d@[o + 1]) && is_octal_digit(d@[o + 2])
        && is_octal_digit(d@[o + 3]) && is_octal_digit(d@[o + 4]) && is_octal_digit(d@[o + 5])
        && is_octal_digit(d@[o + 6]) && is_octal_digit(d@[o + 7]) && is_octal_digit(d@[o + 8])
        && is_octal_digit(d@[o + 9]) && is_octal_digit(d@[o + 10]));
    (d[o] - 48) as u128 * 1073741824 + (d[o + 1] - 48) as u128 * 134217728 + (d[o + 2] - 48) as u128
        * 16777216 + (d[o + 3] - 48) as u128 * 2097152 + (d[o + 4] - 48) as u128 * 262144 + (d[o + 5]
        - 48) as u128 * 32768 + (d[o + 6] - 48) as u128 * 4096 + (d[o + 7] - 48) as u128 * 512 + (d[o
        + 8] - 48) as u128 * 64 + (d[o + 9] - 48) as u128 * 8 + (d[o + 10] - 48) as u128
}

/// Decides `headers_plain`.
pub fn tar_headers_plain(d: &[u8]) -> (r: bool)
    ensures
        r == headers_plain(d@),
{
    let len = d.len();
    let n = len as u128;
    let mut pos: u128 = 0;
    while pos + 512 <= n
        invariant
            n == d@.len(),
            n <= usize::MAX,
            pos <= n + 0x4_0000_0000,
            headers_plain(d@) == headers_plain_from(d@, pos as int),
        decreases n + 0x4_0000_0000 - pos,
    {
        let p = pos as usize;
        if is_zero_block(d, p) {
            return true;
        }
        if d[p + TYPE_AT] == 83 || d[p + TYPE_AT] == 120 || d[p + TYPE_AT] == 103 {
            return false;
        }
        if !is_size_field_ok(d, p + SIZE_AT) {
            return false;
        }
        let s = octal_value(d, p + SIZE_AT);
        let rounded = if s == 0 {
            0
        } else {
            (s + 511) - (s + 511) % 512
        };
        assert((s + 511) - (s + 511) % 512 >= 0) by (nonlinear_arith)
            requires
                s >= 0,
        ;
        assert(rounded == round_up(octal_at(d@, pos + 124)));
        assert(rounded <= s + 511);
        pos = pos + 512 + rounded;
    }
    true
}

} // verus!
