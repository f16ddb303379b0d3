//! Identifiers compared by their bytes: account and contract addresses, and the
//! 32-byte keys that name validators and contract code.
use vstd::prelude::*;

verus! {

/// A value that is identified by a byte string and that can be compared and
/// copied by it.
pub trait ByteKey: Sized + View<V = Seq<u8>> {
    /// Whether the two values name the same thing.
    fn same_as(&self, other: &Self) -> (r: bool)
        ensures
            r == (self@ == other@),
    ;

    /// A second value that names the same thing.
    fn duplicate(&self) -> (r: Self)
        ensures
            r@ == self@,
    ;
}

/// Compares two byte sequences one byte at a time.
fn bytes_equal(a: &[u8], b: &[u8]) -> (r: bool)
    ensures
        r == (a@ == b@),
{
    if a.len() != b.len() {
        return false;
    }
    let mut i: usize = 0;
    while i < a.len()
        invariant
            a@.len() == b@.len(),
            i <= a@.len(),
            forall|j: int| 0 <= j < i ==> a@[j] == b@[j],
        decreases a@.len() - i,
    {
        if a[i] != b[i] {
            return false;
        }
        i = i + 1;
    }
    assert(a@ =~= b@);
    true
}

/// An account or contract address, held as the bytes of its encoded form
/// (for a Stellar address, its strkey).
#[derive(Debug)]
pub struct Address {
    bytes: Vec<u8>,
}

impl View for Address {
    type V = Seq<u8>;

    closed spec fn view(&self) -> Seq<u8> {
        self.bytes@
    }
}

impl Address {
    /// The address whose encoded form is `bytes`.
    pub fn new(bytes: Vec<u8>) -> (a: Address)
        ensures
            a@ == bytes@,
    {
        Address { bytes }
    }

    /// The encoded form of the address.
    pub fn to_bytes(&self) -> (r: Vec<u8>)
        ensures
            r@ == self@,
    {
        let r = self.bytes.clone();
        assert(r@ =~= self.bytes@);
        r
    }
}

impl ByteKey for Address {
    fn same_as(&self, other: &Self) -> (r: bool) {
        bytes_equal(self.bytes.as_slice(), other.bytes.as_slice())
    }

    fn duplicate(&self) -> (r: Self) {
        Address { bytes: self.to_bytes() }
    }
}

impl Clone for Address {
    fn clone(&self) -> (r: Self)
        ensures
            r@ == self@,
    {
        self.duplicate()
    }
}

impl ByteKey for [u8; 32] {
    fn same_as(&self, other: &Self) -> (r: bool) {
        bytes_equal(self.as_slice(), other.as_slice())
    }

    fn duplicate(&self) -> (r: Self) {
        *self
    }
}

/// Whether `x` occurs among the first `n` items of `items`.
pub fn occurs_before<K: ByteKey>(items: &Vec<K>, n: usize, x: &K) -> (r: bool)
    requires
        n <= items@.len(),
    ensures
        r == views(items@).take(n as int).contains(x@),
{
    let ghost p = views(items@).take(n as int);
    let mut i: usize = 0;
    while i < n
        invariant
            n <= items@.len(),
            i <= n,
            p == views(items@).take(n as int),
            forall|j: int| 0 <= j < i ==> (#[trigger] items@[j])@ != x@,
        decreases n - i,
    {
        if items[i].same_as(x) {
            assert(p[i as int] == x@);
            return true;
        }
        i = i + 1;
    }
    assert(!p.contains(x@)) by {
        if p.contains(x@) {
            let j = choose|j: int| 0 <= j < p.len() && p[j] == x@;
            assert(items@[j]@ == p[j]);
        }
    }
    false
}

/// Whether `x` occurs in `items`.
pub fn contains_key<K: ByteKey>(items: &Vec<K>, x: &K) -> (r: bool)
    ensures
        r == views(items@).contains(x@),
{
    assert(views(items@).take(items@.len() as int) =~= views(items@));
    occurs_before(items, items.len(), x)
}

/// The views of a sequence of keys.
pub open spec fn views<K: View<V = Seq<u8>>>(s: Seq<K>) -> Seq<Seq<u8>> {
    s.map_values(|k: K| k@)
}

/// The items of `s` in the order of their first occurrence, each once.
pub open spec fn dedup<T>(s: Seq<T>) -> Seq<T>
    decreases s.len(),
{
    if s.len() == 0 {
        Seq::empty()
    } else {
        let rest = dedup(s.drop_last());
        if s.drop_last().contains(s.last()) {
            rest
        } else {
            rest.push(s.last())
        }
    }
}

/// `dedup` keeps exactly the items of its argument, and repeats none.
pub proof fn lemma_dedup<T>(s: Seq<T>)
    ensures
        forall|x: T| #[trigger] dedup(s).contains(x) <==> s.contains(x),
        dedup(s).no_duplicates(),
        dedup(s).len() <= s.len(),
    decreases s.len(),
{
    if s.len() > 0 {
        let p = s.drop_last();
        lemma_dedup(p);
        assert forall|x: T| #[trigger] dedup(s).contains(x) <==> s.contains(x) by {
            if s.contains(x) {
                let k = choose|k: int| 0 <= k < s.len() && s[k] == x;
                if k < s.len() - 1 {
                    assert(p[k] == x);
                    assert(p.contains(x));
                }
            }
            if p.contains(x) {
                let k = choose|k: int| 0 <= k < p.len() && p[k] == x;
                assert(s[k] == x);
            }
            if !p.contains(s.last()) {
                let d = dedup(p);
                if d.push(s.last()).contains(x) {
                    let k = choose|k: int| 0 <= k < d.len() + 1 && d.push(s.last())[k] == x;
                    if k < d.len() {
                        assert(d[k] == x);
                    }
                }
                if d.contains(x) {
                    let k = choose|k: int| 0 <= k < d.len() && d[k] == x;
                    assert(d.push(s.last())[k] == x);
                }
                assert(d.push(s.last())[d.len() as int] == s.last());
            }
        }
        if !p.contains(s.last()) {
            let d = dedup(p);
            assert forall|i: int, j: int|
                0 <= i < d.push(s.last()).len() && 0 <= j < d.push(s.last()).len() && i != j
                implies d.push(s.last())[i] != d.push(s.last())[j] by {
                if i == d.len() as int {
                    assert(d.contains(d[j]));
                } else if j == d.len() as int {
                    assert(d.contains(d[i]));
                }
            }
        }
    }
}

/// The keys of `items`, each once, in the order of their first occurrence.
pub fn dedup_keys<K: ByteKey>(items: &Vec<K>) -> (r: Vec<K>)
    ensures
        views(r@) == dedup(views(items@)),
{
    let mut r: Vec<K> = Vec::new();
    let mut i: usize = 0;
    while i < items.len()
        invariant
            i <= items@.len(),
            views(r@) == dedup(views(items@).take(i as int)),
        decreases items@.len() - i,
    {
        let ghost s = views(items@).take(i as int);
        let ghost s1 = views(items@).take(i + 1);
        assert(s1.drop_last() =~= s);
        assert(s1.last() == items@[i as int]@);
        let seen = occurs_before(items, i, &items[i]);
        if !seen {
            let ghost before = r@;
            let k = items[i].duplicate();
            r.push(k);
            assert(views(r@) =~= views(before).push(items@[i as int]@));
        }
        i = i + 1;
    }
    assert(views(items@).take(items@.len() as int) =~= views(items@));
    r
}

/// Whether `a` comes before `b` in byte order: at the first byte where they
/// differ, `a`'s is smaller.
pub open spec fn bytes_before(a: Seq<u8>, b: Seq<u8>) -> bool {
    exists|k: int|
        0 <= k < a.len() && k < b.len() && #[trigger] a[k] < #[trigger] b[k] && forall|j: int|
            0 <= j < k ==> a[j] == b[j]
}

/// Every item of `s` comes before every later one: `s` is in ascending byte
/// order, without repeats.
pub open spec fn strictly_ascending(s: Seq<Seq<u8>>) -> bool {
    forall|i: int, j: int| 0 <= i < j < s.len() ==> bytes_before(#[trigger] s[i], #[trigger] s[j])
}

/// Byte order is transitive.
proof fn lemma_before_transitive(a: Seq<u8>, b: Seq<u8>, c: Seq<u8>)
    requires
        bytes_before(a, b),
        bytes_before(b, c),
    ensures
        bytes_before(a, c),
{
    let k1 = choose|k: int|
        0 <= k < a.len() && k < b.len() && #[trigger] a[k] < #[trigger] b[k] && forall|j: int|
            0 <= j < k ==> a[j] == b[j];
    let k2 = choose|k: int|
        0 <= k < b.len() && k < c.len() && #[trigger] b[k] < #[trigger] c[k] && forall|j: int|
            0 <= j < k ==> b[j] == c[j];
    let k = if k1 < k2 { k1 } else { k2 };
    assert(a[k] < c[k]);
}

/// Byte order is asymmetric, and nothing comes before itself.
proof fn lemma_before_asymmetric(a: Seq<u8>, b: Seq<u8>)
    requires
        bytes_before(a, b),
    ensures
        !bytes_before(b, a),
        a != b,
{
    let k1 = choose|k: int|
        0 <= k < a.len() && k < b.len() && #[trigger] a[k] < #[trigger] b[k] && forall|j: int|
            0 <= j < k ==> a[j] == b[j];
    if bytes_before(b, a) {
        let k2 = choose|k: int|
            0 <= k < b.len() && k < a.len() && #[trigger] b[k] < #[trigger] a[k] && forall|j: int|
                0 <= j < k ==> b[j] == a[j];
        if k1 < k2 {
            assert(b[k1] == a[k1]);
        } else if k2 < k1 {
            assert(a[k2] == b[k2]);
        }
    }
}

/// Of two different byte strings of the same length, one comes first.
proof fn lemma_before_total(a: Seq<u8>, b: Seq<u8>, i: int)
    requires
        a.len() == b.len(),
        a != b,
        0 <= i <= a.len(),
        forall|j: int| 0 <= j < i ==> a[j] == b[j],
    ensures
        bytes_before(a, b) || bytes_before(b, a),
    decreases a.len() - i,
{
    if i == a.len() {
        assert(a =~= b);
    } else if a[i] != b[i] {
        if a[i] < b[i] {
            assert(a[i] < b[i] && forall|j: int| 0 <= j < i ==> a[j] == b[j]);
        } else {
            assert(b[i] < a[i] && forall|j: int| 0 <= j < i ==> b[j] == a[j]);
        }
    } else {
        lemma_before_total(a, b, i + 1);
    }
}

/// Whether key `a` comes before key `b` in byte order.
pub fn key_before(a: &[u8; 32], b: &[u8; 32]) -> (r: bool)
    ensures
        r == bytes_before(a@, b@),
{
    let mut i: usize = 0;
    while i < 32
        invariant
            i <= 32,
            a@.len() == 32,
            b@.len() == 32,
            forall|j: int| 0 <= j < i ==> a@[j] == b@[j],
        decreases 32 - i,
    {
        if a[i] != b[i] {
            let r = a[i] < b[i];
            assert(a@[i as int] == a[i as int] && b@[i as int] == b[i as int]);
            if !r {
                assert(!bytes_before(a@, b@)) by {
                    if bytes_before(a@, b@) {
                        let k = choose|k: int|
                            0 <= k < a@.len() && k < b@.len() && #[trigger] a@[k] < #[trigger] b@[k]
                                && forall|j: int| 0 <= j < k ==> a@[j] == b@[j];
                        assert(k != i);
                    }
                }
            }
            return r;
        }
        i = i + 1;
    }
    assert(!bytes_before(a@, b@)) by {
        if bytes_before(a@, b@) {
            let k = choose|k: int|
                0 <= k < a@.len() && k < b@.len() && #[trigger] a@[k] < #[trigger] b@[k] && forall|
                    j: int,
                | 0 <= j < k ==> a@[j] == b@[j];
        }
    }
    false
}

/// The keys of `items` in ascending byte order, each once.
pub fn ascending_keys(items: &Vec<[u8; 32]>) -> (r: Vec<[u8; 32]>)
    ensures
        strictly_ascending(views(r@)),
        forall|x: Seq<u8>| #[trigger] views(r@).contains(x) <==> views(items@).contains(x),
{
    let mut r: Vec<[u8; 32]> = Vec::new();
    let mut n: usize = 0;
    while n < items.len()
        invariant
            n <= items@.len(),
            strictly_ascending(views(r@)),
            forall|x: Seq<u8>| #[trigger]
                views(r@).contains(x) <==> views(items@).take(n as int).contains(x),
            forall|i: int| 0 <= i < r@.len() ==> (#[trigger] r@[i])@.len() == 32,
        decreases items@.len() - n,
    {
        let x = items[n];
        let ghost old_r = views(r@);
        let ghost p = views(items@).take(n as int);
        let ghost p1 = views(items@).take(n + 1);
        assert(p1 =~= p.push(x@));
        // the first place whose key does not come before x
        let mut i: usize = 0;
        while i < r.len() && key_before(&r[i], &x)
            invariant
                i <= r@.len(),
                forall|j: int| 0 <= j < i ==> bytes_before((#[trigger] r@[j])@, x@),
            decreases r@.len() - i,
        {
            i = i + 1;
        }
        let present = i < r.len() && r[i].same_as(&x);
        if !present {
            proof {
                if i < r@.len() {
                    lemma_before_total(r@[i as int]@, x@, 0);
                }
            }
            r.insert(i, x);
            assert forall|a: int, b: int| 0 <= a < b < views(r@).len() implies bytes_before(
                #[trigger] views(r@)[a],
                #[trigger] views(r@)[b],
            ) by {
                let va = views(r@)[a];
                let vb = views(r@)[b];
                if a < i && b < i {
                    assert(va == old_r[a] && vb == old_r[b]);
                } else if a < i && b == i {
                    assert(va == old_r[a]);
                } else if a < i && b > i {
                    assert(va == old_r[a] && vb == old_r[b - 1]);
                    if b - 1 > i {
                        assert(bytes_before(old_r[i as int], old_r[b - 1]));
                        lemma_before_transitive(x@, old_r[i as int], old_r[b - 1]);
                    }
                    lemma_before_transitive(va, x@, vb);
                } else if a == i {
                    assert(vb == old_r[b - 1]);
                    if b - 1 > i {
                        assert(bytes_before(old_r[i as int], old_r[b - 1]));
                        lemma_before_transitive(x@, old_r[i as int], old_r[b - 1]);
                    }
                } else {
                    assert(va == old_r[a - 1] && vb == old_r[b - 1]);
                }
            }
            assert forall|y: Seq<u8>| #[trigger] views(r@).contains(y) <==> (old_r.contains(y) || y == x@) by {
                if views(r@).contains(y) {
                    let k = choose|k: int| 0 <= k < views(r@).len() && views(r@)[k] == y;
                    if k < i {
                        assert(old_r[k] == y);
                    } else if k > i {
                        assert(old_r[k - 1] == y);
                    }
                }
                if old_r.contains(y) {
                    let k = choose|k: int| 0 <= k < old_r.len() && old_r[k] == y;
                    if k < i {
                        assert(views(r@)[k] == y);
                    } else {
                        assert(views(r@)[k + 1] == y);
                    }
                }
                if y == x@ {
                    assert(views(r@)[i as int] == y);
                }
            }
        } else {
            assert(old_r.contains(x@)) by {
                assert(old_r[i as int] == x@);
            }
        }
        assert forall|y: Seq<u8>| #[trigger] p1.contains(y) <==> (p.contains(y) || y == x@) by {
            if p1.contains(y) {
                let k = choose|k: int| 0 <= k < p1.len() && p1[k] == y;
                if k < p.len() {
                    assert(p[k] == y);
                }
            }
            if p.contains(y) {
                let k = choose|k: int| 0 <= k < p.len() && p[k] == y;
                assert(p1[k] == y);
            }
            if y == x@ {
                assert(p1[n as int] == y);
            }
        }
        n = n + 1;
    }
    assert(views(items@).take(items@.len() as int) =~= views(items@));
    r
}

/// Byte order compares byte strings at their first difference: of two
/// strings of the same length that agree up to index `k`, the one with the
/// smaller byte at `k` comes first, and the other does not.
pub proof fn law_byte_order(a: Seq<u8>, b: Seq<u8>, k: int)
    requires
        a.len() == b.len(),
        0 <= k < a.len(),
        forall|j: int| 0 <= j < k ==> a[j] == b[j],
        a[k] < b[k],
    ensures
        bytes_before(a, b),
        !bytes_before(b, a),
{
    assert(a[k] < b[k]);
    lemma_before_asymmetric(a, b);
}

} // verus!
