//! Small vector helpers shared by the record conversions.
use vstd::prelude::*;

verus! {

/// A copy of a vector of plain values.
pub fn copy_vec<T: Copy>(v: &Vec<T>) -> (r: Vec<T>)
    ensures
        r@ == v@,
{
    let mut r: Vec<T> = Vec::new();
    let n = v.len();
    let mut i: usize = 0;
    while i < n
        invariant
            i <= n,
            n == v@.len(),
            r@ =~= v@.subrange(0, i as int),
        decreases n - i,
    {
        r.push(v[i]);
        i += 1;
    }
    proof {
        assert(v@.subrange(0, n as int) =~= v@);
    }
    r
}

/// The numeric code of a flag in the dat files.
pub open spec fn bool_code(b: bool) -> u32 {
    if b {
        1
    } else {
        0
    }
}

/// The numeric code of a flag in the dat files: 1 for set, 0 for clear.
pub fn to_u32_bool(b: bool) -> (r: u32)
    ensures
        r == bool_code(b),
{
    if b {
        1
    } else {
        0
    }
}

/// The elements of `v` in reverse order.
pub fn reversed<T>(v: Vec<T>) -> (r: Vec<T>)
    ensures
        r@ == v@.reverse(),
{
    let n = v.len();
    let ghost orig = v@;
    let mut src = v;
    let mut r: Vec<T> = Vec::new();
    while src.len() > 0
        invariant
            src@.len() + r@.len() == n,
            orig.len() == n,
            src@ == orig.subrange(0, src@.len() as int),
            r@ =~= orig.subrange(src@.len() as int, n as int).reverse(),
        decreases src@.len(),
    {
        let ghost before = src@;
        let x = src.pop().unwrap();
        proof {
            assert(src@ =~= orig.subrange(0, src@.len() as int));
        }
        r.push(x);
    }
    r
}

/// Whether `ks` lists the ids of `dom` in strictly ascending order.
pub open spec fn lists_ascending(ks: Seq<u32>, dom: Set<u32>) -> bool {
    &&& ks.to_set() == dom
    &&& forall|i: int, j: int| 0 <= i < j < ks.len() ==> ks[i] < ks[j]
}

/// The ids of `dom` in ascending order.
pub open spec fn ascending_order(dom: Set<u32>) -> Seq<u32> {
    choose|ks: Seq<u32>| lists_ascending(ks, dom)
}

proof fn lemma_ascending_prefix(a: Seq<u32>, b: Seq<u32>, dom: Set<u32>, i: int)
    requires
        lists_ascending(a, dom),
        lists_ascending(b, dom),
        0 <= i < a.len(),
        i < b.len(),
    ensures
        forall|j: int| 0 <= j <= i ==> a[j] == b[j],
    decreases i,
{
    if i > 0 {
        lemma_ascending_prefix(a, b, dom, i - 1);
    }
    assert(a.to_set().contains(a[i]));
    assert(b.contains(a[i]));
    let jb = choose|jb: int| 0 <= jb < b.len() && b[jb] == a[i];
    assert(b.to_set().contains(b[i]));
    assert(a.contains(b[i]));
    let ja = choose|ja: int| 0 <= ja < a.len() && a[ja] == b[i];
    if jb < i {
        assert(a[jb] == b[jb]);
        assert(a[jb] < a[i]);
    }
    if ja < i {
        assert(a[ja] == b[ja]);
        assert(b[ja] < b[i]);
    }
    if jb > i && ja > i {
        assert(b[i] < b[jb]);
        assert(a[i] < a[ja]);
    }
}

/// Two ascending lists of the same ids are the same list.
pub proof fn lemma_lists_ascending_unique(a: Seq<u32>, b: Seq<u32>, dom: Set<u32>)
    requires
        lists_ascending(a, dom),
        lists_ascending(b, dom),
    ensures
        a == b,
{
    if a.len() > 0 && b.len() > 0 {
        let m = if a.len() < b.len() { a.len() - 1 } else { b.len() - 1 };
        lemma_ascending_prefix(a, b, dom, m as int);
    }
    if a.len() > b.len() {
        let x = a[b.len() as int];
        assert(a.to_set().contains(x));
        assert(b.contains(x));
        let j = choose|j: int| 0 <= j < b.len() && b[j] == x;
        if b.len() > 0 {
            lemma_ascending_prefix(a, b, dom, b.len() - 1);
        }
        assert(a[j] == b[j]);
        assert(a[j] < a[b.len() as int]);
    }
    if b.len() > a.len() {
        let x = b[a.len() as int];
        assert(b.to_set().contains(x));
        assert(a.contains(x));
        let j = choose|j: int| 0 <= j < a.len() && a[j] == x;
        if a.len() > 0 {
            lemma_ascending_prefix(a, b, dom, a.len() - 1);
        }
        assert(a[j] == b[j]);
        assert(b[j] < b[a.len() as int]);
    }
    assert(a =~= b);
}

/// The ids of `keys`, which hold no id twice, in ascending order.
pub fn ascending_ids(keys: &Vec<u32>) -> (r: Vec<u32>)
    requires
        keys@.no_duplicates(),
    ensures
        lists_ascending(r@, keys@.to_set()),
        r@ == ascending_order(keys@.to_set()),
{
    let mut r: Vec<u32> = Vec::new();
    let mut i: usize = 0;
    while i < keys.len()
        invariant
            i <= keys@.len(),
            keys@.no_duplicates(),
            forall|a: int, b: int| 0 <= a < b < r@.len() ==> r@[a] < r@[b],
            forall|y: u32| r@.contains(y) <==> keys@.take(i as int).contains(y),
        decreases keys@.len() - i,
    {
        let x = keys[i];
        let mut pos: usize = 0;
        while pos < r.len() && r[pos] < x
            invariant
                pos <= r@.len(),
                forall|k: int| 0 <= k < pos ==> r@[k] < x,
            decreases r@.len() - pos,
        {
            pos += 1;
        }
        let ghost before = r@;
        proof {
            assert(!keys@.take(i as int).contains(x)) by {
                if keys@.take(i as int).contains(x) {
                    let k = choose|k: int| 0 <= k < i && keys@.take(i as int)[k] == x;
                    assert(keys@[k] == keys@[i as int]);
                }
            }
            assert(!before.contains(x));
            if pos < before.len() {
                assert(before[pos as int] != x);
                assert(before[pos as int] > x);
            }
        }
        r.insert(pos, x);
        proof {
            assert(r@ == before.insert(pos as int, x));
            assert forall|a: int, b: int| 0 <= a < b < r@.len() implies r@[a] < r@[b] by {
                if a < pos && b < pos {
                    assert(r@[a] == before[a] && r@[b] == before[b]);
                } else if a < pos && b == pos {
                    assert(r@[a] == before[a]);
                } else if a < pos {
                    assert(r@[a] == before[a] && r@[b] == before[b - 1]);
                } else if a == pos {
                    assert(r@[b] == before[b - 1]);
                    assert(before[pos as int] > x);
                    if b - 1 > pos {
                        assert(before[pos as int] < before[b - 1]);
                    }
                } else {
                    assert(r@[a] == before[a - 1] && r@[b] == before[b - 1]);
                }
            }
            assert(keys@.take(i + 1) =~= keys@.take(i as int).push(x));
            assert forall|y: u32| r@.contains(y) <==> keys@.take(i + 1).contains(y) by {
                if r@.contains(y) {
                    let k = choose|k: int| 0 <= k < r@.len() && r@[k] == y;
                    if k < pos {
                        assert(before[k] == y);
                        assert(before.contains(y));
                        assert(keys@.take(i as int).contains(y));
                        let w = choose|w: int| 0 <= w < i && keys@.take(i as int)[w] == y;
                        assert(keys@.take(i + 1)[w] == y);
                    } else if k == pos {
                        assert(keys@.take(i + 1)[i as int] == y);
                    } else {
                        assert(before[k - 1] == y);
                        assert(before.contains(y));
                        let w = choose|w: int| 0 <= w < i && keys@.take(i as int)[w] == y;
                        assert(keys@.take(i + 1)[w] == y);
                    }
                }
                if keys@.take(i + 1).contains(y) {
                    let t = keys@.take(i + 1);
                    let w = choose|w: int| 0 <= w < t.len() && t[w] == y;
                    if w < i {
                        assert(keys@.take(i as int)[w] == y);
                        assert(before.contains(y));
                        let k = choose|k: int| 0 <= k < before.len() && before[k] == y;
                        if k < pos {
                            assert(r@[k] == y);
                        } else {
                            assert(r@[k + 1] == y);
                        }
                    } else {
                        assert(r@[pos as int] == y);
                    }
                }
            }
        }
        i += 1;
    }
    proof {
        assert(keys@.take(keys@.len() as int) =~= keys@);
        assert(r@.to_set() =~= keys@.to_set());
        assert(lists_ascending(r@, keys@.to_set()));
        lemma_lists_ascending_unique(r@, ascending_order(keys@.to_set()), keys@.to_set());
    }
    r
}

} // verus!
