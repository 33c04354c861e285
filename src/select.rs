use vstd::prelude::*;

verus! {

/// `needle` occurs in `hay` starting at position `i`.
pub open spec fn occurs_at(hay: Seq<u8>, needle: Seq<u8>, i: int) -> bool {
    0 <= i && i + needle.len() <= hay.len() && hay.subrange(i, i + needle.len()) == needle
}

/// Whether `needle` occurs anywhere in `hay`; a file stem that holds the
/// marker of this tool's outputs is skipped when picking the next picture.
pub fn contains_bytes(hay: &[u8], needle: &[u8]) -> (r: bool)
    ensures
        r <==> exists|i: int| #[trigger] occurs_at(hay@, needle@, i),
{
    let n = hay.len();
    let m = needle.len();
    if m > n {
        return false;
    }
    let mut i: usize = 0;
    while i <= n - m
        invariant
            n == hay@.len(),
            m == needle@.len(),
            m <= n,
            i <= n - m + 1,
            forall|j: int| 0 <= j < i ==> !#[trigger] occurs_at(hay@, needle@, j),
        decreases n - m + 1 - i,
    {
        let mut k: usize = 0;
        let mut same = true;
        while k < m && same
            invariant
                n == hay@.len(),
                m == needle@.len(),
                i + m <= n,
                k <= m,
                same ==> forall|kk: int| 0 <= kk < k ==> hay@[i + kk] == needle@[kk],
                !same ==> exists|kk: int| 0 <= kk < m && hay@[i + kk] != needle@[kk],
            decreases m - k + if same { 1int } else { 0int },
        {
            if hay[i + k] != needle[k] {
                same = false;
            } else {
                k += 1;
            }
        }
        if same {
            assert(hay@.subrange(i as int, i + m) =~= needle@);
            assert(occurs_at(hay@, needle@, i as int));
            return true;
        }
        proof {
            let kk = choose|kk: int| 0 <= kk < m && hay@[i + kk] != needle@[kk];
            if occurs_at(hay@, needle@, i as int) {
                assert(hay@.subrange(i as int, i + m)[kk] == hay@[i + kk]);
            }
        }
        i += 1;
    }
    false
}

/// Position of the largest key, the last one where several are largest;
/// `None` when there are no keys. Picks the newest of a list of files by
/// their creation times.
pub fn latest_index(keys: &Vec<u128>) -> (r: Option<usize>)
    ensures
        r is None <==> keys@.len() == 0,
        r matches Some(i) ==> {
            &&& i < keys@.len()
            &&& forall|j: int| 0 <= j < keys@.len() ==> #[trigger] keys@[j] <= keys@[i as int]
            &&& forall|j: int| i < j < keys@.len() ==> #[trigger] keys@[j] < keys@[i as int]
        },
{
    let n = keys.len();
    if n == 0 {
        return None;
    }
    let mut best: usize = 0;
    let mut i: usize = 1;
    while i < n
        invariant
            n == keys@.len(),
            best < i <= n,
            forall|j: int| 0 <= j < i ==> #[trigger] keys@[j] <= keys@[best as int],
            forall|j: int| best < j < i ==> #[trigger] keys@[j] < keys@[best as int],
        decreases n - i,
    {
        if keys[i] >= keys[best] {
            best = i;
        }
        i += 1;
    }
    Some(best)
}

} // verus!
