//! Relative paths inside a patch container, held as bytes.
use vstd::prelude::*;

verus! {

pub const SLASH: u8 = 47;

pub const DOT: u8 = 46;

/// Length of the name suffix that marks a binary diff, `.bspatch`.
pub const DIFF_SUFFIX_LEN: usize = 8;

/// The suffix `.bspatch`.
pub open spec fn diff_suffix() -> Seq<u8> {
    seq![46u8, 98u8, 115u8, 112u8, 97u8, 116u8, 99u8, 104u8]
}

pub open spec fn segment_start(p: Seq<u8>, i: int) -> bool {
    i == 0 || p[i - 1] == SLASH
}

pub open spec fn segment_end(p: Seq<u8>, i: int) -> bool {
    i == p.len() || p[i] == SLASH
}

/// A normalised relative path: one or more non-empty segments joined by single
/// slashes, none of them `.` or `..`, and no NUL byte. Such a path neither is
/// absolute nor climbs out of the directory it is joined to.
pub open spec fn valid_path(p: Seq<u8>) -> bool {
    &&& p.len() > 0
    &&& forall|i: int| 0 <= i < p.len() ==> #[trigger] p[i] != 0u8
    &&& forall|i: int| 0 <= i <= p.len() && #[trigger] segment_start(p, i) ==> !segment_end(p, i)
    &&& forall|i: int|
        0 <= i < p.len() && #[trigger] segment_start(p, i) && p[i] == DOT ==> !segment_end(p, i + 1)
    &&& forall|i: int|
        0 <= i < p.len() - 1 && #[trigger] segment_start(p, i) && p[i] == DOT && p[i + 1] == DOT
            ==> !segment_end(p, i + 2)
}

pub open spec fn has_diff_suffix(p: Seq<u8>) -> bool {
    p.len() >= 8 && p.subrange(p.len() - 8, p.len() as int) == diff_suffix()
}

/// The file an entry stored under `p` rebuilds: `p` without `.bspatch` for a
/// diff, `p` itself for a snapshot.
pub open spec fn target_of(p: Seq<u8>) -> Seq<u8> {
    if has_diff_suffix(p) {
        p.subrange(0, p.len() - 8)
    } else {
        p
    }
}

/// What an entry's stored path must satisfy: it and the file it names are
/// both normalised relative paths.
pub open spec fn entry_path_ok(p: Seq<u8>) -> bool {
    valid_path(p) && valid_path(target_of(p))
}

/// Decides `valid_path`.
pub fn is_valid_path(p: &[u8]) -> (r: bool)
    ensures
        r == valid_path(p@),
{
    let n = p.len();
    if n == 0 {
        return false;
    }
    if p[n - 1] == SLASH {
        assert(segment_start(p@, n as int) && segment_end(p@, n as int));
        return false;
    }
    let mut i: usize = 0;
    while i < n
        invariant
            n == p@.len(),
            0 <= i <= n,
            n > 0,
            p@[n - 1] != SLASH,
            forall|j: int| 0 <= j < i ==> #[trigger] p@[j] != 0u8,
            forall|j: int| 0 <= j < i && #[trigger] segment_start(p@, j) ==> !segment_end(p@, j),
            forall|j: int|
                0 <= j < i && #[trigger] segment_start(p@, j) && p@[j] == DOT ==> !segment_end(
                    p@,
                    j + 1,
                ),
            forall|j: int|
                0 <= j < i && j < n - 1 && #[trigger] segment_start(p@, j) && p@[j] == DOT && p@[j
                    + 1] == DOT ==> !segment_end(p@, j + 2),
        decreases n - i,
    {
        let c = p[i];
        if c == 0 {
            assert(p@[i as int] == 0u8);
            return false;
        }
        let start = i == 0 || p[i - 1] == SLASH;
        assert(start == segment_start(p@, i as int));
        if start {
            if c == SLASH {
                assert(segment_end(p@, i as int));
                return false;
            }
            if c == DOT {
                if i + 1 == n || p[i + 1] == SLASH {
                    assert(segment_end(p@, i + 1));
                    return false;
                }
                if p[i + 1] == DOT && (i + 2 == n || p[i + 2] == SLASH) {
                    assert(segment_end(p@, i + 2));
                    return false;
                }
            }
        }
        i += 1;
    }
    assert(segment_start(p@, n as int) ==> !segment_end(p@, n as int));
    true
}

/// Decides `has_diff_suffix`.
pub fn ends_with_diff_suffix(p: &[u8]) -> (r: bool)
    ensures
        r == has_diff_suffix(p@),
{
    let n = p.len();
    if n < DIFF_SUFFIX_LEN {
        return false;
    }
    let s = p.len() - DIFF_SUFFIX_LEN;
    let r = p[s] == 46 && p[s + 1] == 98 && p[s + 2] == 115 && p[s + 3] == 112 && p[s + 4] == 97
        && p[s + 5] == 116 && p[s + 6] == 99 && p[s + 7] == 104;
    if r {
        assert(p@.subrange(s as int, n as int) =~= diff_suffix());
    } else {
        assert(p@.subrange(s as int, n as int) != diff_suffix()) by {
            if p@.subrange(s as int, n as int) == diff_suffix() {
                assert(p@.subrange(s as int, n as int)[0] == diff_suffix()[0]);
                assert(p@.subrange(s as int, n as int)[1] == diff_suffix()[1]);
                assert(p@.subrange(s as int, n as int)[2] == diff_suffix()[2]);
                assert(p@.subrange(s as int, n as int)[3] == diff_suffix()[3]);
                assert(p@.subrange(s as int, n as int)[4] == diff_suffix()[4]);
                assert(p@.subrange(s as int, n as int)[5] == diff_suffix()[5]);
                assert(p@.subrange(s as int, n as int)[6] == diff_suffix()[6]);
                assert(p@.subrange(s as int, n as int)[7] == diff_suffix()[7]);
            }
        }
    }
    r
}

/// Copies the first `len` bytes of `p`.
pub fn prefix(p: &[u8], len: usize) -> (r: Vec<u8>)
    requires
        len <= p@.len(),
    ensures
        r@ == p@.subrange(0, len as int),
{
    let mut r: Vec<u8> = Vec::new();
    let mut i: usize = 0;
    while i < len
        invariant
            i <= len,
            len <= p@.len(),
            r@ == p@.subrange(0, i as int),
        decreases len - i,
    {
        r.push(p[i]);
        i += 1;
        assert(r@ =~= p@.subrange(0, i as int));
    }
    r
}

/// The stored path of the file a target path names: `target` followed by `.bspatch`.
pub fn with_diff_suffix(target: &[u8]) -> (r: Vec<u8>)
    ensures
        r@ == target@ + diff_suffix(),
{
    let mut r = prefix(target, target.len());
    assert(r@ =~= target@);
    r.push(46);
    r.push(98);
    r.push(115);
    r.push(112);
    r.push(97);
    r.push(116);
    r.push(99);
    r.push(104);
    assert(r@ =~= target@ + diff_suffix());
    r
}

/// The file that an entry stored under `p` rebuilds.
pub fn target_path(p: &[u8]) -> (r: Vec<u8>)
    ensures
        r@ == target_of(p@),
{
    if ends_with_diff_suffix(p) {
        prefix(p, p.len() - DIFF_SUFFIX_LEN)
    } else {
        let r = prefix(p, p.len());
        assert(r@ =~= p@);
        r
    }
}

/// Decides `entry_path_ok`.
pub fn is_entry_path_ok(p: &[u8]) -> (r: bool)
    ensures
        r == entry_path_ok(p@),
{
    if !is_valid_path(p) {
        return false;
    }
    let t = target_path(p);
    is_valid_path(t.as_slice())
}

/// Appending `.bspatch` to a path gives a path whose target is that path,
/// and which an entry may have exactly when the path is valid.
pub proof fn lemma_diff_path(t: Seq<u8>)
    ensures
        has_diff_suffix(t + diff_suffix()),
        target_of(t + diff_suffix()) == t,
        entry_path_ok(t + diff_suffix()) == valid_path(t),
{
    let s = diff_suffix();
    let p = t + s;
    assert(p.subrange(p.len() - 8, p.len() as int) =~= s);
    assert(p.subrange(0, p.len() - 8) =~= t);
    if valid_path(t) {
        let n = t.len() as int;
        assert(!segment_start(t, n)) by {
            assert(segment_end(t, n));
        }
        assert forall|i: int| 0 <= i < p.len() implies #[trigger] p[i] != 0u8 by {
            if i >= n {
                assert(p[i] == s[i - n]);
            } else {
                assert(p[i] == t[i]);
            }
        }
        assert forall|i: int| 0 <= i <= p.len() && #[trigger] segment_start(p, i) implies !segment_end(p, i) by {
            if i > n {
                assert(p[i - 1] == s[i - 1 - n]);
            } else if i == n {
                assert(p[i - 1] == t[i - 1]);
                assert(p[i] == s[0]);
            } else {
                assert(segment_start(t, i));
                assert(p[i] == t[i]);
                if i > 0 {
                    assert(p[i - 1] == t[i - 1]);
                }
            }
        }
        assert forall|i: int|
            0 <= i < p.len() && #[trigger] segment_start(p, i) && p[i] == DOT implies !segment_end(p, i + 1) by {
            if i > n {
                assert(p[i - 1] == s[i - 1 - n]);
            } else if i == n {
                assert(p[i - 1] == t[i - 1]);
                assert(p[i + 1] == s[1]);
            } else {
                assert(p[i] == t[i]);
                if i > 0 {
                    assert(p[i - 1] == t[i - 1]);
                }
                assert(segment_start(t, i));
                if i + 1 < n {
                    assert(p[i + 1] == t[i + 1]);
                } else {
                    assert(segment_end(t, i + 1));
                }
            }
        }
        assert forall|i: int|
            0 <= i < p.len() - 1 && #[trigger] segment_start(p, i) && p[i] == DOT && p[i + 1] == DOT
                implies !segment_end(p, i + 2) by {
            if i > n {
                assert(p[i - 1] == s[i - 1 - n]);
            } else if i == n {
                assert(p[i - 1] == t[i - 1]);
                assert(p[i + 1] == s[1]);
            } else {
                assert(p[i] == t[i]);
                if i > 0 {
                    assert(p[i - 1] == t[i - 1]);
                }
                assert(segment_start(t, i));
                if i + 1 < n {
                    assert(p[i + 1] == t[i + 1]);
                    if i + 2 < n {
                        assert(p[i + 2] == t[i + 2]);
                    } else {
                        assert(segment_end(t, i + 2));
                    }
                } else {
                    assert(p[i + 1] == s[0]);
                    assert(segment_end(t, i + 1));
                }
            }
        }
    }
}

/// A path that is absolute or has a `..` segment: joined to a root, it
/// could name a file outside that root.
pub open spec fn escapes(p: Seq<u8>) -> bool {
    ||| (p.len() > 0 && p[0] == SLASH)
    ||| exists|i: int|
        0 <= i < p.len() - 1 && #[trigger] segment_start(p, i) && p[i] == DOT && p[i + 1] == DOT
            && segment_end(p, i + 2)
}

/// Decides `escapes`.
pub fn is_escaping(p: &[u8]) -> (r: bool)
    ensures
        r == escapes(p@),
{
    let n = p.len();
    if n > 0 && p[0] == SLASH {
        return true;
    }
    let mut i: usize = 0;
    while n > 0 && i < n - 1
        invariant
            n == p@.len(),
            i <= n,
            !(n > 0 && p@[0] == SLASH),
            forall|j: int|
                0 <= j < i && j < n - 1 && #[trigger] segment_start(p@, j) ==> !(p@[j] == DOT && p@[j
                    + 1] == DOT && segment_end(p@, j + 2)),
        decreases n - i,
    {
        let start = i == 0 || p[i - 1] == SLASH;
        assert(start == segment_start(p@, i as int));
        if start && p[i] == DOT && p[i + 1] == DOT && (i + 2 == n || p[i + 2] == SLASH) {
            assert(segment_end(p@, i + 2));
            return true;
        }
        i += 1;
    }
    false
}

/// A normalised relative path never escapes.
pub proof fn lemma_valid_not_escaping(p: Seq<u8>)
    requires
        valid_path(p),
    ensures
        !escapes(p),
{
    assert(segment_start(p, 0) ==> !segment_end(p, 0));
}

pub open spec fn is_cont(c: u8) -> bool {
    0x80 <= c <= 0xBF
}

/// The bytes from `i` on are well-formed UTF-8: each character is one byte
/// below 0x80, or a lead byte followed by continuation bytes, with no
/// overlong form, no surrogate and nothing above U+10FFFF.
pub open spec fn utf8_from(b: Seq<u8>, i: int) -> bool
    decreases b.len() - i,
{
    if i < 0 || i >= b.len() {
        true
    } else if b[i] < 0x80 {
        utf8_from(b, i + 1)
    } else if 0xC2 <= b[i] <= 0xDF {
        i + 1 < b.len() && is_cont(b[i + 1]) && utf8_from(b, i + 2)
    } else if 0xE0 <= b[i] <= 0xEF {
        &&& i + 2 < b.len()
        &&& if b[i] == 0xE0 {
            0xA0 <= b[i + 1] <= 0xBF
        } else if b[i] == 0xED {
            0x80 <= b[i + 1] <= 0x9F
        } else {
            is_cont(b[i + 1])
        }
        &&& is_cont(b[i + 2])
        &&& utf8_from(b, i + 3)
    } else if 0xF0 <= b[i] <= 0xF4 {
        &&& i + 3 < b.len()
        &&& if b[i] == 0xF0 {
            0x90 <= b[i + 1] <= 0xBF
        } else if b[i] == 0xF4 {
            0x80 <= b[i + 1] <= 0x8F
        } else {
            is_cont(b[i + 1])
        }
        &&& is_cont(b[i + 2])
        &&& is_cont(b[i + 3])
        &&& utf8_from(b, i + 4)
    } else {
        false
    }
}

pub open spec fn utf8_ok(b: Seq<u8>) -> bool {
    utf8_from(b, 0)
}

fn in_range(c: u8, lo: u8, hi: u8) -> (r: bool)
    ensures
        r == (lo <= c <= hi),
{
    lo <= c && c <= hi
}

/// Decides `utf8_ok`.
pub fn is_utf8(b: &[u8]) -> (r: bool)
    ensures
        r == utf8_ok(b@),
{
    let n = b.len();
    let mut i: usize = 0;
    while i < n
        invariant
            n == b@.len(),
            i <= n,
            utf8_ok(b@) == utf8_from(b@, i as int),
        decreases n - i,
    {
        let c = b[i];
        if c < 0x80 {
            i += 1;
        } else if in_range(c, 0xC2, 0xDF) {
            if !(n - i > 1 && in_range(b[i + 1], 0x80, 0xBF)) {
                return false;
            }
            i += 2;
        } else if in_range(c, 0xE0, 0xEF) {
            if !(n - i > 2) {
                return false;
            }
            let second = if c == 0xE0 {
                in_range(b[i + 1], 0xA0, 0xBF)
            } else if c == 0xED {
                in_range(b[i + 1], 0x80, 0x9F)
            } else {
                in_range(b[i + 1], 0x80, 0xBF)
            };
            if !(second && in_range(b[i + 2], 0x80, 0xBF)) {
                return false;
            }
            i += 3;
        } else if in_range(c, 0xF0, 0xF4) {
            if !(n - i > 3) {
                return false;
            }
            let second = if c == 0xF0 {
                in_range(b[i + 1], 0x90, 0xBF)
            } else if c == 0xF4 {
                in_range(b[i + 1], 0x80, 0x8F)
            } else {
                in_range(b[i + 1], 0x80, 0xBF)
            };
            if !(second && in_range(b[i + 2], 0x80, 0xBF) && in_range(b[i + 3], 0x80, 0xBF)) {
                return false;
            }
            i += 4;
        } else {
            return false;
        }
    }
    true
}

} // verus!
