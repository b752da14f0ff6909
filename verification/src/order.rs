//! The order in which listings are sorted: sequences of offsets and names
//! compared element by element, a shorter sequence before a longer one that
//! it begins.
use vstd::prelude::*;

verus! {

/// `a` comes before `b`, comparing offsets one by one.
pub open spec fn offsets_less(a: Seq<usize>, b: Seq<usize>) -> bool
    decreases a.len(),
{
    if a.len() == 0 {
        b.len() > 0
    } else if b.len() == 0 {
        false
    } else if a[0] != b[0] {
        a[0] < b[0]
    } else {
        offsets_less(a.drop_first(), b.drop_first())
    }
}

/// `a` comes before `b`, comparing characters by their code points, as
/// strings are ordered.
pub open spec fn text_less(a: Seq<char>, b: Seq<char>) -> bool
    decreases a.len(),
{
    if a.len() == 0 {
        b.len() > 0
    } else if b.len() == 0 {
        false
    } else if a[0] != b[0] {
        (a[0] as int) < (b[0] as int)
    } else {
        text_less(a.drop_first(), b.drop_first())
    }
}

/// What a listing is sorted by: a sequence of offsets, then an offset,
/// then a name.
#[derive(Debug, PartialEq, Eq)]
pub struct SortKey {
    pub offsets: Vec<usize>,
    pub offset: usize,
    pub name: String,
}

/// A sort key as plain values.
pub open spec fn key_view(k: SortKey) -> (Seq<usize>, usize, Seq<char>) {
    (k.offsets@, k.offset, k.name@)
}

/// `a` comes before `b`: by the offsets, then the offset, then the name.
pub open spec fn key_less(a: (Seq<usize>, usize, Seq<char>), b: (Seq<usize>, usize, Seq<char>)) -> bool {
    if a.0 != b.0 {
        offsets_less(a.0, b.0)
    } else if a.1 != b.1 {
        a.1 < b.1
    } else {
        text_less(a.2, b.2)
    }
}

proof fn lemma_offsets_order(a: Seq<usize>, b: Seq<usize>, c: Seq<usize>)
    ensures
        !offsets_less(a, a),
        a != b ==> (offsets_less(a, b) || offsets_less(b, a)),
        offsets_less(a, b) ==> !offsets_less(b, a),
        offsets_less(a, b) && offsets_less(b, c) ==> offsets_less(a, c),
    decreases a.len(),
{
    if a.len() > 0 && b.len() > 0 && c.len() > 0 {
        lemma_offsets_order(a.drop_first(), b.drop_first(), c.drop_first());
    } else if a.len() > 0 && b.len() > 0 {
        lemma_offsets_order(a.drop_first(), b.drop_first(), Seq::empty());
    } else if a.len() > 0 {
        lemma_offsets_order(a.drop_first(), Seq::empty(), Seq::empty());
    }
    if a.len() == 0 && b.len() == 0 {
        assert(a =~= b);
    }
    if a != b && a.len() > 0 && b.len() > 0 && a[0] == b[0] {
        assert(a.drop_first() != b.drop_first()) by {
            if a.drop_first() == b.drop_first() {
                assert(a =~= seq![a[0]] + a.drop_first());
                assert(b =~= seq![b[0]] + b.drop_first());
            }
        }
    }
}

proof fn lemma_text_order(a: Seq<char>, b: Seq<char>, c: Seq<char>)
    ensures
        !text_less(a, a),
        a != b ==> (text_less(a, b) || text_less(b, a)),
        text_less(a, b) ==> !text_less(b, a),
        text_less(a, b) && text_less(b, c) ==> text_less(a, c),
    decreases a.len(),
{
    if a.len() > 0 && b.len() > 0 && c.len() > 0 {
        lemma_text_order(a.drop_first(), b.drop_first(), c.drop_first());
    } else if a.len() > 0 && b.len() > 0 {
        lemma_text_order(a.drop_first(), b.drop_first(), Seq::empty());
    } else if a.len() > 0 {
        lemma_text_order(a.drop_first(), Seq::empty(), Seq::empty());
    }
    if a.len() == 0 && b.len() == 0 {
        assert(a =~= b);
    }
    if a != b && a.len() > 0 && b.len() > 0 && a[0] == b[0] {
        assert(a.drop_first() != b.drop_first()) by {
            if a.drop_first() == b.drop_first() {
                assert(a =~= seq![a[0]] + a.drop_first());
                assert(b =~= seq![b[0]] + b.drop_first());
            }
        }
    }
}

/// The order of sort keys is a strict total order.
pub proof fn lemma_key_order(
    a: (Seq<usize>, usize, Seq<char>),
    b: (Seq<usize>, usize, Seq<char>),
    c: (Seq<usize>, usize, Seq<char>),
)
    ensures
        !key_less(a, a),
        a != b ==> (key_less(a, b) || key_less(b, a)),
        key_less(a, b) ==> !key_less(b, a),
        key_less(a, b) && key_less(b, c) ==> key_less(a, c),
{
    lemma_offsets_order(a.0, b.0, c.0);
    lemma_offsets_order(a.0, c.0, b.0);
    lemma_offsets_order(b.0, a.0, c.0);
    lemma_text_order(a.2, b.2, c.2);
    lemma_text_order(a.2, c.2, b.2);
    lemma_text_order(b.2, a.2, c.2);
}

/// Whether `a` comes before `b`, comparing offsets one by one.
pub fn offsets_before(a: &Vec<usize>, b: &Vec<usize>) -> (r: bool)
    ensures
        r == offsets_less(a@, b@),
{
    let mut i: usize = 0;
    assert(a@.skip(0) =~= a@ && b@.skip(0) =~= b@);
    while i < a.len() && i < b.len() && a[i] == b[i]
        invariant
            i <= a.len(),
            i <= b.len(),
            offsets_less(a@, b@) == offsets_less(a@.skip(i as int), b@.skip(i as int)),
        decreases a.len() - i,
    {
        proof {
            assert(a@.skip(i as int).drop_first() =~= a@.skip(i + 1));
            assert(b@.skip(i as int).drop_first() =~= b@.skip(i + 1));
        }
        i += 1;
    }
    if i == a.len() {
        i < b.len()
    } else if i == b.len() {
        false
    } else {
        a[i] < b[i]
    }
}

/// Whether `a` and `b` hold the same offsets.
pub fn offsets_equal(a: &Vec<usize>, b: &Vec<usize>) -> (r: bool)
    ensures
        r == (a@ == b@),
{
    if a.len() != b.len() {
        return false;
    }
    let mut i: usize = 0;
    while i < a.len()
        invariant
            a.len() == b.len(),
            i <= a.len(),
            forall|j: int| 0 <= j < i ==> a@[j] == b@[j],
        decreases a.len() - i,
    {
        if a[i] != b[i] {
            return false;
        }
        i += 1;
    }
    assert(a@ =~= b@);
    true
}

/// Whether `a` comes before `b`, comparing characters by their code points.
pub fn text_before(a: &str, b: &str) -> (r: bool)
    ensures
        r == text_less(a@, b@),
{
    let x = crate::text::chars_of(a);
    let y = crate::text::chars_of(b);
    let mut i: usize = 0;
    assert(x@.skip(0) =~= x@ && y@.skip(0) =~= y@);
    while i < x.len() && i < y.len() && x[i] == y[i]
        invariant
            x@ == a@,
            y@ == b@,
            i <= x.len(),
            i <= y.len(),
            text_less(a@, b@) == text_less(x@.skip(i as int), y@.skip(i as int)),
        decreases x.len() - i,
    {
        proof {
            assert(x@.skip(i as int).drop_first() =~= x@.skip(i + 1));
            assert(y@.skip(i as int).drop_first() =~= y@.skip(i + 1));
        }
        i += 1;
    }
    if i == x.len() {
        i < y.len()
    } else if i == y.len() {
        false
    } else {
        x[i] < y[i]
    }
}

/// Whether key `a` comes before key `b`.
pub fn key_before(a: &SortKey, b: &SortKey) -> (r: bool)
    ensures
        r == key_less(key_view(*a), key_view(*b)),
{
    if !offsets_equal(&a.offsets, &b.offsets) {
        offsets_before(&a.offsets, &b.offsets)
    } else if a.offset != b.offset {
        a.offset < b.offset
    } else {
        text_before(a.name.as_str(), b.name.as_str())
    }
}

/// Whether keys `a` and `b` are equal.
pub fn key_equal(a: &SortKey, b: &SortKey) -> (r: bool)
    ensures
        r == (key_view(*a) == key_view(*b)),
{
    offsets_equal(&a.offsets, &b.offsets) && a.offset == b.offset && crate::text::str_equal(
        a.name.as_str(),
        b.name.as_str(),
    )
}

/// A sort key as plain values: offsets, an offset and a name.
pub type KeyView = (Seq<usize>, usize, Seq<char>);

/// The views of `keys`.
pub open spec fn key_views(keys: Seq<SortKey>) -> Seq<KeyView> {
    keys.map_values(|k: SortKey| key_view(k))
}

/// Position `p` of `keys` comes before position `q`: by its key, and
/// between equal keys by position.
pub open spec fn position_less(keys: Seq<KeyView>, p: int, q: int) -> bool {
    key_less(keys[p], keys[q]) || (keys[p] == keys[q] && p < q)
}

/// `order` holds each position of `keys` once, sorted by key and, between
/// equal keys, by position: the order a stable sort by key leaves.
pub open spec fn is_sorted_order(keys: Seq<KeyView>, order: Seq<usize>) -> bool {
    &&& keys.len() <= usize::MAX
    &&& order.len() == keys.len()
    &&& forall|p: usize| #[trigger] order.contains(p) <==> p < keys.len()
    &&& forall|i: int, j: int|
        0 <= i < j < order.len() ==> position_less(keys, #[trigger] order[i] as int, #[trigger] order[j] as int)
}

/// `r` is `items` in the order that `keys`, the key of each item, sort
/// them into, equal keys keeping their order.
pub open spec fn stably_sorted<T>(items: Seq<T>, keys: Seq<KeyView>, r: Seq<T>) -> bool {
    exists|order: Seq<usize>|
        #[trigger] is_sorted_order(keys, order) && r.len() == items.len() && forall|i: int|
            0 <= i < r.len() ==> #[trigger] r[i] == items[order[i] as int]
}

proof fn lemma_position_order(keys: Seq<KeyView>, p: int, q: int, s: int)
    ensures
        !position_less(keys, p, p),
        p != q ==> (position_less(keys, p, q) || position_less(keys, q, p)),
        position_less(keys, p, q) ==> !position_less(keys, q, p),
        position_less(keys, p, q) && position_less(keys, q, s) ==> position_less(keys, p, s),
{
    lemma_key_order(keys[p], keys[q], keys[s]);
    lemma_key_order(keys[p], keys[p], keys[q]);
    lemma_key_order(keys[q], keys[p], keys[s]);
}

/// The positions of `keys` in sorted order: by key, and between equal keys
/// in the order they come, as a stable sort leaves them.
pub fn sorted_positions(keys: &Vec<SortKey>) -> (r: Vec<usize>)
    ensures
        is_sorted_order(key_views(keys@), r@),
{
    let ghost kv = key_views(keys@);
    let mut r: Vec<usize> = Vec::new();
    let mut i: usize = 0;
    while i < keys.len()
        invariant
            i <= keys.len(),
            r@.len() == i,
            forall|p: usize| #[trigger] r@.contains(p) <==> p < i,
            kv == key_views(keys@),
            forall|a: int, b: int|
                0 <= a < b < r@.len() ==> position_less(kv, #[trigger] r@[a] as int, #[trigger] r@[b] as int),
        decreases keys.len() - i,
    {
        let mut j: usize = 0;
        assert forall|k: int| 0 <= k < r@.len() implies #[trigger] r@[k] < i by {
            assert(r@.contains(r@[k]));
        }
        while j < r.len() && (key_before(&keys[r[j]], &keys[i]) || key_equal(&keys[r[j]], &keys[i]))
            invariant
                i < keys.len(),
                j <= r@.len(),
                r@.len() == i,
                forall|p: usize| #[trigger] r@.contains(p) <==> p < i,
                forall|k: int| 0 <= k < r@.len() ==> #[trigger] r@[k] < i,
                kv == key_views(keys@),
                forall|k: int| 0 <= k < j ==> position_less(kv, #[trigger] r@[k] as int, i as int),
            decreases r@.len() - j,
        {
            proof {
                assert(r@.contains(r@[j as int]));
            }
            j += 1;
        }
        proof {
            if j < r@.len() {
                assert(r@.contains(r@[j as int]));
                lemma_position_order(kv, r@[j as int] as int, i as int, i as int);
                assert(position_less(kv, i as int, r@[j as int] as int));
                assert forall|k: int| j <= k < r@.len() implies position_less(
                    kv,
                    i as int,
                    #[trigger] r@[k] as int,
                ) by {
                    if k > j {
                        lemma_position_order(kv, i as int, r@[j as int] as int, r@[k] as int);
                    }
                }
            }
        }
        let ghost before = r@;
        r.insert(j, i);
        proof {
            assert(r@ =~= before.insert(j as int, i));
            assert forall|p: usize| #[trigger] r@.contains(p) <==> p < i + 1 by {
                if p < i + 1 {
                    if p == i {
                        assert(r@[j as int] == i);
                    } else {
                        assert(before.contains(p));
                        let k = choose|k: int| 0 <= k < before.len() && before[k] == p;
                        if k < j {
                            assert(r@[k] == p);
                        } else {
                            assert(r@[k + 1] == p);
                        }
                    }
                }
                if r@.contains(p) {
                    let k = choose|k: int| 0 <= k < r@.len() && r@[k] == p;
                    if k < j {
                        assert(before[k] == p);
                        assert(before.contains(p));
                    } else if k > j {
                        assert(before[k - 1] == p);
                        assert(before.contains(p));
                    }
                }
            }
            assert forall|a: int, b: int|
                0 <= a < b < r@.len() implies position_less(
                kv,
                #[trigger] r@[a] as int,
                #[trigger] r@[b] as int,
            ) by {
                if b < j {
                    assert(r@[a] == before[a] && r@[b] == before[b]);
                } else if b == j {
                    assert(r@[a] == before[a]);
                } else if a == j {
                    assert(r@[b] == before[b - 1]);
                } else if a < j {
                    assert(r@[a] == before[a] && r@[b] == before[b - 1]);
                    assert(before.contains(before[b - 1]));
                    lemma_position_order(kv, before[a] as int, i as int, before[b - 1] as int);
                } else {
                    assert(r@[a] == before[a - 1] && r@[b] == before[b - 1]);
                }
            }
        }
        i += 1;
    }
    r
}

proof fn lemma_sorted_order_step(keys: Seq<KeyView>, o1: Seq<usize>, o2: Seq<usize>, k: int)
    requires
        is_sorted_order(keys, o1),
        is_sorted_order(keys, o2),
        0 <= k < o1.len(),
        forall|j: int| 0 <= j < k ==> o1[j] == o2[j],
    ensures
        o1[k] == o2[k],
{
    let x = o1[k];
    let y = o2[k];
    assert(o1.contains(x));
    assert(o2.contains(x));
    assert(o2.contains(y));
    assert(o1.contains(y));
    let m = choose|m: int| 0 <= m < o2.len() && o2[m] == x;
    let n = choose|n: int| 0 <= n < o1.len() && o1[n] == y;
    lemma_position_order(keys, x as int, y as int, x as int);
    lemma_position_order(keys, x as int, x as int, x as int);
    lemma_position_order(keys, y as int, y as int, y as int);
    if m != k {
        if m < k {
            assert(o1[m] == x);
            assert(position_less(keys, o1[m] as int, o1[k] as int));
            assert(false);
        } else if n < k {
            assert(o2[n] == y);
            assert(position_less(keys, o2[n] as int, o2[k] as int));
            assert(false);
        } else if n == k {
            assert(y == x);
            assert(position_less(keys, o2[k] as int, o2[m] as int));
            assert(false);
        } else {
            assert(position_less(keys, o2[k] as int, o2[m] as int));
            assert(position_less(keys, o1[k] as int, o1[n] as int));
            assert(false);
        }
    }
}

/// The order of positions that sorts keys stably is determined by the keys:
/// two such orders are the same.
pub proof fn lemma_sorted_order_unique(keys: Seq<KeyView>, o1: Seq<usize>, o2: Seq<usize>)
    requires
        is_sorted_order(keys, o1),
        is_sorted_order(keys, o2),
    ensures
        o1 == o2,
{
    assert forall|k: int| 0 <= k < o1.len() implies o1[k] == o2[k] by {
        lemma_sorted_order_prefix(keys, o1, o2, k);
    }
    assert(o1 =~= o2);
}

proof fn lemma_sorted_order_prefix(keys: Seq<KeyView>, o1: Seq<usize>, o2: Seq<usize>, k: int)
    requires
        is_sorted_order(keys, o1),
        is_sorted_order(keys, o2),
        0 <= k < o1.len(),
    ensures
        forall|j: int| 0 <= j <= k ==> o1[j] == o2[j],
    decreases k,
{
    if k > 0 {
        lemma_sorted_order_prefix(keys, o1, o2, k - 1);
    }
    lemma_sorted_order_step(keys, o1, o2, k);
}

} // verus!
