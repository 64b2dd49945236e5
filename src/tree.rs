//! Pairing the files of two directory trees by relative path.
use vstd::prelude::*;

verus! {

/// Whether two byte strings are equal.
pub fn bytes_equal(a: &[u8], b: &[u8]) -> (r: bool)
    ensures
        r == (a@ == b@),
{
    if a.len() != b.len() {
        return false;
    }
    let mut i: usize = 0;
    while i < a.len()
        invariant
            a@.len() == b@.len(),
            i <= a@.len(),
            forall|k: int| 0 <= k < i ==> a@[k] == b@[k],
        decreases a@.len() - i,
    {
        if a[i] != b[i] {
            return false;
        }
        i += 1;
    }
    assert(a@ =~= b@);
    true
}

pub open spec fn paths_view(s: Seq<Vec<u8>>) -> Seq<Seq<u8>> {
    s.map_values(|p: Vec<u8>| p@)
}

/// `pairs` lists, in the order of `after`, each file of `after` that `before`
/// also holds, with the index of its first occurrence in `before`.
pub open spec fn pairs_by_path(before: Seq<Seq<u8>>, after: Seq<Seq<u8>>, pairs: Seq<(usize, usize)>) -> bool {
    &&& forall|k: int|
        0 <= k < pairs.len() ==> {
            let (i, j) = #[trigger] pairs[k];
            &&& i < before.len()
            &&& j < after.len()
            &&& before[i as int] == after[j as int]
            &&& forall|m: int| 0 <= m < i ==> before[m] != after[j as int]
        }
    &&& forall|k: int, l: int| 0 <= k < l < pairs.len() ==> (#[trigger] pairs[k]).1 < (#[trigger] pairs[l]).1
    &&& forall|j: int|
        0 <= j < after.len() && (exists|i: int| 0 <= i < before.len() && before[i] == #[trigger] after[j])
            ==> exists|k: int| 0 <= k < pairs.len() && (#[trigger] pairs[k]).1 == j
}

/// Pairs the files of two trees by relative path: for each file of `after`,
/// in order, the index of the same path in `before`, if it is there.
pub fn pair_by_path(before: &Vec<Vec<u8>>, after: &Vec<Vec<u8>>) -> (r: Vec<(usize, usize)>)
    ensures
        pairs_by_path(paths_view(before@), paths_view(after@), r@),
{
    let ghost b = paths_view(before@);
    let ghost a = paths_view(after@);
    let mut r: Vec<(usize, usize)> = Vec::new();
    let mut j: usize = 0;
    while j < after.len()
        invariant
            j <= after@.len(),
            b == paths_view(before@),
            a == paths_view(after@),
            forall|k: int|
                0 <= k < r@.len() ==> {
                    let (i, jj) = #[trigger] r@[k];
                    &&& i < b.len()
                    &&& jj < j
                    &&& b[i as int] == a[jj as int]
                    &&& forall|m: int| 0 <= m < i ==> b[m] != a[jj as int]
                },
            forall|k: int, l: int| 0 <= k < l < r@.len() ==> (#[trigger] r@[k]).1 < (#[trigger] r@[l]).1,
            forall|jj: int|
                0 <= jj < j && (exists|i: int| 0 <= i < b.len() && b[i] == #[trigger] a[jj])
                    ==> exists|k: int| 0 <= k < r@.len() && (#[trigger] r@[k]).1 == jj,
        decreases after@.len() - j,
    {
        let mut i: usize = 0;
        let mut found = false;
        while i < before.len() && !found
            invariant
                i <= before@.len(),
                j < after@.len(),
                b == paths_view(before@),
                a == paths_view(after@),
                forall|m: int| 0 <= m < i ==> b[m] != a[j as int],
                found ==> i < before@.len() && b[i as int] == a[j as int],
            decreases before@.len() - i, if found { 0int } else { 1int },
        {
            assert(b[i as int] == before@[i as int]@);
            assert(a[j as int] == after@[j as int]@);
            if bytes_equal(before[i].as_slice(), after[j].as_slice()) {
                found = true;
            } else {
                i += 1;
            }
        }
        let ghost prev = r@;
        if found {
            r.push((i, j));
            assert(r@[r@.len() - 1] == (i, j));
            assert forall|k: int| 0 <= k < prev.len() implies r@[k] == prev[k] by {}
        } else {
            assert(i == before@.len());
        }
        assert forall|jj: int|
            0 <= jj < j + 1 && (exists|m: int| 0 <= m < b.len() && b[m] == #[trigger] a[jj])
                implies exists|k: int| 0 <= k < r@.len() && (#[trigger] r@[k]).1 == jj by {
            if jj < j {
                let k = choose|k: int| 0 <= k < prev.len() && (#[trigger] prev[k]).1 == jj;
                assert(r@[k] == prev[k]);
            } else {
                assert(found);
                assert(r@[r@.len() - 1].1 == jj);
            }
        }
        j += 1;
    }
    r
}

/// Whether two of the byte strings are equal.
pub fn has_duplicate(s: &Vec<Vec<u8>>) -> (r: bool)
    ensures
        r == exists|i: int, j: int| 0 <= i < j < s@.len() && #[trigger] s@[i]@ == #[trigger] s@[j]@,
{
    let mut j: usize = 0;
    while j < s.len()
        invariant
            j <= s@.len(),
            forall|a: int, b: int| 0 <= a < b < j ==> #[trigger] s@[a]@ != #[trigger] s@[b]@,
        decreases s@.len() - j,
    {
        let mut i: usize = 0;
        while i < j
            invariant
                i <= j,
                j < s@.len(),
                forall|a: int, b: int| 0 <= a < b < j ==> #[trigger] s@[a]@ != #[trigger] s@[b]@,
                forall|a: int| 0 <= a < i ==> #[trigger] s@[a]@ != s@[j as int]@,
            decreases j - i,
        {
            if bytes_equal(s[i].as_slice(), s[j].as_slice()) {
                return true;
            }
            i += 1;
        }
        j += 1;
    }
    false
}

/// Byte-wise lexicographic order, a proper prefix coming first.
pub open spec fn bytes_lt(a: Seq<u8>, b: Seq<u8>) -> bool
    decreases a.len(),
{
    if a.len() == 0 {
        b.len() > 0
    } else if b.len() == 0 {
        false
    } else if a[0] != b[0] {
        a[0] < b[0]
    } else {
        bytes_lt(a.drop_first(), b.drop_first())
    }
}

/// Decides `bytes_lt`.
pub fn bytes_less(a: &[u8], b: &[u8]) -> (r: bool)
    ensures
        r == bytes_lt(a@, b@),
{
    let mut i: usize = 0;
    assert(a@.subrange(0, a@.len() as int) =~= a@);
    assert(b@.subrange(0, b@.len() as int) =~= b@);
    while i < a.len() && i < b.len() && a[i] == b[i]
        invariant
            i <= a@.len(),
            i <= b@.len(),
            bytes_lt(a@, b@) == bytes_lt(a@.subrange(i as int, a@.len() as int), b@.subrange(
                i as int,
                b@.len() as int,
            )),
        decreases a@.len() - i,
    {
        let ghost sa = a@.subrange(i as int, a@.len() as int);
        let ghost sb = b@.subrange(i as int, b@.len() as int);
        assert(sa.drop_first() =~= a@.subrange(i + 1, a@.len() as int));
        assert(sb.drop_first() =~= b@.subrange(i + 1, b@.len() as int));
        i += 1;
    }
    let ghost sa = a@.subrange(i as int, a@.len() as int);
    let ghost sb = b@.subrange(i as int, b@.len() as int);
    if i == a.len() {
        i < b.len()
    } else if i == b.len() {
        false
    } else {
        assert(sa[0] == a@[i as int] && sb[0] == b@[i as int]);
        a[i] < b[i]
    }
}

/// Each path comes strictly before the next.
pub open spec fn strictly_sorted(s: Seq<Seq<u8>>) -> bool {
    forall|k: int| 0 <= k < s.len() - 1 ==> bytes_lt(#[trigger] s[k], s[k + 1])
}

/// Decides whether a list of paths is in strictly increasing order, the
/// order in which a tree's files are paired and stored.
pub fn is_strictly_sorted(v: &Vec<Vec<u8>>) -> (r: bool)
    ensures
        r == strictly_sorted(paths_view(v@)),
{
    let ghost s = paths_view(v@);
    let mut k: usize = 0;
    while v.len() > 0 && k < v.len() - 1
        invariant
            s == paths_view(v@),
            k <= v@.len(),
            forall|m: int| 0 <= m < k && m < s.len() - 1 ==> bytes_lt(#[trigger] s[m], s[m + 1]),
        decreases v@.len() - k,
    {
        assert(s[k as int] == v@[k as int]@ && s[k + 1] == v@[k + 1]@);
        if !bytes_less(v[k].as_slice(), v[k + 1].as_slice()) {
            return false;
        }
        k += 1;
    }
    true
}

} // verus!
