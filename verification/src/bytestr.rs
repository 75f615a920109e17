//! Byte-string search primitives shared by the parsers and validators.
use vstd::prelude::*;

verus! {

/// The needle `n` occurs in `h` starting at index `i`.
pub open spec fn match_at(h: Seq<u8>, n: Seq<u8>, i: int) -> bool {
    0 <= i && i + n.len() <= h.len() && h.subrange(i, i + n.len() as int) == n
}

/// The needle occurs somewhere in the haystack.
pub open spec fn contains_seq(h: Seq<u8>, n: Seq<u8>) -> bool {
    exists|i: int| match_at(h, n, i)
}

/// `h` begins with the prefix `p`.
pub open spec fn starts_with(h: Seq<u8>, p: Seq<u8>) -> bool {
    p.len() <= h.len() && h.subrange(0, p.len() as int) == p
}

/// Index of the first occurrence of `n` in `h`, if any.
pub open spec fn find_sub(h: Seq<u8>, n: Seq<u8>) -> Option<int>
    decreases h.len(),
{
    if n.len() > h.len() {
        None
    } else if h.subrange(0, n.len() as int) == n {
        Some(0)
    } else if h.len() == 0 {
        None
    } else {
        match find_sub(h.drop_first(), n) {
            Some(i) => Some(i + 1),
            None => None,
        }
    }
}

/// Index of the first occurrence of the byte `b` in `s`, if any.
pub open spec fn find_byte(s: Seq<u8>, b: u8) -> Option<int>
    decreases s.len(),
{
    if s.len() == 0 {
        None
    } else if s[0] == b {
        Some(0)
    } else {
        match find_byte(s.drop_first(), b) {
            Some(i) => Some(i + 1),
            None => None,
        }
    }
}

/// `find_sub` names exactly the first match: a hit is a match with none
/// before it, and a miss means no index matches at all.
pub proof fn lemma_find_sub(h: Seq<u8>, n: Seq<u8>)
    ensures
        match find_sub(h, n) {
            Some(i) => match_at(h, n, i) && (forall|j: int| 0 <= j < i ==> !match_at(h, n, j)),
            None => forall|j: int| !match_at(h, n, j),
        },
    decreases h.len(),
{
    if n.len() > h.len() {
        assert forall|j: int| !match_at(h, n, j) by {
            if 0 <= j && j + n.len() <= h.len() {
                assert(false);
            }
        }
    } else if h.subrange(0, n.len() as int) == n {
        assert(match_at(h, n, 0));
    } else {
        assert(h.len() >= 1) by {
            if h.len() == 0 {
                assert(h.subrange(0, 0) =~= n);
            }
        }
        lemma_find_sub(h.drop_first(), n);
        assert(h.drop_first().len() == h.len() - 1);
        assert(!match_at(h, n, 0));
        match find_sub(h.drop_first(), n) {
            Some(i) => {
                assert(match_at(h.drop_first(), n, i));
                assert(i + 1 + n.len() <= h.len());
                assert forall|x: int| 0 <= x < n.len() implies h.subrange(
                    i + 1,
                    i + 1 + n.len() as int,
                )[x] == n[x] by {
                    assert(h.drop_first().subrange(i, i + n.len() as int)[x] == n[x]);
                    assert(h.drop_first()[i + x] == h[i + 1 + x]);
                }
                assert(h.subrange(i + 1, i + 1 + n.len() as int) =~= n);
                assert(match_at(h, n, i + 1));
                assert forall|j: int| 0 <= j < i + 1 implies !match_at(h, n, j) by {
                    if j >= 1 && match_at(h, n, j) {
                        assert forall|x: int| 0 <= x < n.len() implies h.drop_first().subrange(
                            j - 1,
                            j - 1 + n.len() as int,
                        )[x] == n[x] by {
                            assert(h.subrange(j, j + n.len() as int)[x] == n[x]);
                            assert(h.drop_first()[j - 1 + x] == h[j + x]);
                        }
                        assert(h.drop_first().subrange(j - 1, j - 1 + n.len() as int) =~= n);
                        assert(match_at(h.drop_first(), n, j - 1));
                    }
                }
            },
            None => {
                assert forall|j: int| !match_at(h, n, j) by {
                    if j >= 1 && match_at(h, n, j) {
                        assert forall|x: int| 0 <= x < n.len() implies h.drop_first().subrange(
                            j - 1,
                            j - 1 + n.len() as int,
                        )[x] == n[x] by {
                            assert(h.subrange(j, j + n.len() as int)[x] == n[x]);
                            assert(h.drop_first()[j - 1 + x] == h[j + x]);
                        }
                        assert(h.drop_first().subrange(j - 1, j - 1 + n.len() as int) =~= n);
                        assert(match_at(h.drop_first(), n, j - 1));
                    }
                }
            },
        }
    }
}

/// `find_byte` names exactly the first occurrence of the byte.
pub proof fn lemma_find_byte(s: Seq<u8>, b: u8)
    ensures
        match find_byte(s, b) {
            Some(i) => 0 <= i < s.len() && s[i] == b && (forall|j: int|
                0 <= j < i ==> s[j] != b),
            None => forall|j: int| 0 <= j < s.len() ==> s[j] != b,
        },
    decreases s.len(),
{
    if s.len() == 0 {
    } else if s[0] == b {
    } else {
        lemma_find_byte(s.drop_first(), b);
        assert(forall|j: int| 1 <= j < s.len() ==> s[j] == s.drop_first()[j - 1]);
    }
}

/// Whether two byte slices hold the same bytes.
pub fn bytes_eq(a: &[u8], b: &[u8]) -> (r: bool)
    ensures
        r == (a@ == b@),
{
    if a.len() != b.len() {
        proof {
            assert(a@ != b@);
        }
        return false;
    }
    let mut i: usize = 0;
    while i < a.len()
        invariant
            0 <= i <= a.len(),
            a@.len() == b@.len(),
            forall|j: int| 0 <= j < i ==> a@[j] == b@[j],
        decreases a.len() - i,
    {
        if a[i] != b[i] {
            proof {
                assert(a@ != b@);
            }
            return false;
        }
        i += 1;
    }
    proof {
        assert(a@ =~= b@);
    }
    true
}

/// Whether the needle occurs in `h` starting exactly at `i`.
fn matches_at_index(h: &[u8], n: &[u8], i: usize) -> (r: bool)
    requires
        i + n@.len() <= h@.len(),
    ensures
        r == match_at(h@, n@, i as int),
{
    let hlen: usize = h.len();
    let mut k: usize = 0;
    while k < n.len()
        invariant
            0 <= k <= n@.len(),
            i + n@.len() <= h@.len(),
            hlen == h@.len(),
            forall|l: int| 0 <= l < k ==> h@[i + l] == n@[l],
        decreases n@.len() - k,
    {
        if h[i + k] != n[k] {
            proof {
                assert(h@.subrange(i as int, i + n@.len() as int)[k as int] == h@[i + k]);
            }
            return false;
        }
        k += 1;
    }
    proof {
        assert(h@.subrange(i as int, i + n@.len() as int) =~= n@);
    }
    true
}

/// Index of the first occurrence of `n` in `h`, if any.
pub fn find_subslice(h: &[u8], n: &[u8]) -> (r: Option<usize>)
    ensures
        r matches Some(i) ==> Some(i as int) == find_sub(h@, n@),
        r is None ==> find_sub(h@, n@) is None,
{
    proof {
        lemma_find_sub(h@, n@);
    }
    if n.len() > h.len() {
        return None;
    }
    if n.len() == 0 {
        proof {
            assert(h@.subrange(0, 0) =~= n@);
        }
        return Some(0);
    }
    let hlen: usize = h.len();
    let limit = h.len() - n.len();
    let mut i: usize = 0;
    loop
        invariant
            0 <= i <= limit + 1,
            limit == h@.len() - n@.len(),
            1 <= n@.len() <= h@.len(),
            hlen == h@.len(),
            forall|j: int| 0 <= j < i ==> !match_at(h@, n@, j),
        decreases limit + 1 - i,
    {
        if i > limit {
            proof {
                lemma_find_sub(h@, n@);
                assert forall|j: int| !match_at(h@, n@, j) by {
                    if 0 <= j && j + n@.len() <= h@.len() {
                        assert(!match_at(h@, n@, j));
                    }
                }
                match find_sub(h@, n@) {
                    Some(k) => {
                        assert(match_at(h@, n@, k));
                    },
                    None => {},
                }
            }
            return None;
        }
        if matches_at_index(h, n, i) {
            proof {
                lemma_find_sub(h@, n@);
                match find_sub(h@, n@) {
                    Some(k) => {
                        if k < i {
                            assert(match_at(h@, n@, k));
                        }
                        if k > i {
                            assert(!match_at(h@, n@, i as int));
                        }
                    },
                    None => {
                        assert(!match_at(h@, n@, i as int));
                    },
                }
            }
            return Some(i);
        }
        i += 1;
    }
}

/// Whether the needle occurs anywhere in the haystack.
pub fn contains_subslice(h: &[u8], n: &[u8]) -> (r: bool)
    ensures
        r == contains_seq(h@, n@),
{
    proof {
        lemma_find_sub(h@, n@);
    }
    match find_subslice(h, n) {
        Some(i) => {
            proof {
                assert(match_at(h@, n@, i as int));
            }
            true
        },
        None => false,
    }
}

/// Whether `h` begins with the prefix `p`.
pub fn slice_starts_with(h: &[u8], p: &[u8]) -> (r: bool)
    ensures
        r == starts_with(h@, p@),
{
    if p.len() > h.len() {
        return false;
    }
    matches_at_index(h, p, 0)
}

/// Index of the first occurrence of `b` within the window `[from, to)`,
/// reported both as an index into `h` and, through `find_byte`, as an
/// index into the window itself.
pub fn find_byte_in(h: &[u8], b: u8, from: usize, to: usize) -> (r: Option<usize>)
    requires
        from <= to <= h@.len(),
    ensures
        ({
            let seg = h@.subrange(from as int, to as int);
            match r {
                Some(i) => from <= i < to && Some(i - from) == find_byte(seg, b),
                None => find_byte(seg, b) is None,
            }
        }),
{
    let ghost seg = h@.subrange(from as int, to as int);
    let mut i: usize = from;
    while i < to
        invariant
            from <= i <= to <= h@.len(),
            seg == h@.subrange(from as int, to as int),
            forall|j: int| from <= j < i ==> h@[j] != b,
        decreases to - i,
    {
        if h[i] == b {
            proof {
                lemma_find_byte(seg, b);
                assert(seg[i - from] == h@[i as int]);
                assert(forall|k: int| 0 <= k < i - from ==> seg[k] == h@[from + k]);
                match find_byte(seg, b) {
                    Some(fz) => {
                        if fz < i - from {
                            assert(h@[from + fz] != b);
                        }
                    },
                    None => {
                        assert(seg[i - from] == b);
                    },
                }
            }
            return Some(i);
        }
        i += 1;
    }
    proof {
        lemma_find_byte(seg, b);
        match find_byte(seg, b) {
            Some(fz) => {
                assert(seg[fz] == h@[from + fz]);
            },
            None => {},
        }
    }
    None
}

} // verus!
