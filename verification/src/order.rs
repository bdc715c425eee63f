//! The order of strings, and stable sorting by a key.

use vstd::prelude::*;

verus! {

/// Lexicographic order of byte strings: `a` comes strictly before `b`.
pub open spec fn bytes_before(a: Seq<u8>, b: Seq<u8>) -> bool
    decreases a.len(),
{
    if b.len() == 0 {
        false
    } else if a.len() == 0 {
        true
    } else if a[0] != b[0] {
        a[0] < b[0]
    } else {
        bytes_before(a.drop_first(), b.drop_first())
    }
}

/// The order of strings: that of their UTF-8 bytes.
pub open spec fn before(a: Seq<char>, b: Seq<char>) -> bool {
    bytes_before(vstd::utf8::encode_utf8(a), vstd::utf8::encode_utf8(b))
}

/// Nothing comes before itself, and no two byte strings come before each
/// other.
proof fn lemma_bytes_asymmetric(a: Seq<u8>, b: Seq<u8>)
    ensures
        !(bytes_before(a, b) && bytes_before(b, a)),
    decreases a.len(),
{
    if a.len() > 0 && b.len() > 0 {
        lemma_bytes_asymmetric(a.drop_first(), b.drop_first());
    }
}

proof fn lemma_bytes_transitive(a: Seq<u8>, b: Seq<u8>, c: Seq<u8>)
    requires
        bytes_before(a, b),
        bytes_before(b, c),
    ensures
        bytes_before(a, c),
    decreases a.len(),
{
    if a.len() > 0 && a[0] == b[0] && b[0] == c[0] {
        lemma_bytes_transitive(a.drop_first(), b.drop_first(), c.drop_first());
    }
}

proof fn lemma_bytes_total(a: Seq<u8>, b: Seq<u8>)
    ensures
        bytes_before(a, b) || bytes_before(b, a) || a == b,
    decreases a.len(),
{
    if a.len() > 0 && b.len() > 0 && a[0] == b[0] {
        lemma_bytes_total(a.drop_first(), b.drop_first());
        if a.drop_first() == b.drop_first() {
            assert(a =~= seq![a[0]] + a.drop_first());
            assert(b =~= seq![b[0]] + b.drop_first());
        }
    } else if a.len() == 0 && b.len() == 0 {
        assert(a =~= b);
    }
}

/// The order of strings is asymmetric.
pub proof fn lemma_before_asymmetric(a: Seq<char>, b: Seq<char>)
    ensures
        !(before(a, b) && before(b, a)),
{
    lemma_bytes_asymmetric(vstd::utf8::encode_utf8(a), vstd::utf8::encode_utf8(b));
}

/// The order of strings is transitive.
pub proof fn lemma_before_transitive(a: Seq<char>, b: Seq<char>, c: Seq<char>)
    requires
        before(a, b),
        before(b, c),
    ensures
        before(a, c),
{
    lemma_bytes_transitive(
        vstd::utf8::encode_utf8(a),
        vstd::utf8::encode_utf8(b),
        vstd::utf8::encode_utf8(c),
    );
}

/// Of two different strings, one comes before the other.
pub proof fn lemma_before_total(a: Seq<char>, b: Seq<char>)
    ensures
        before(a, b) || before(b, a) || a == b,
{
    lemma_bytes_total(vstd::utf8::encode_utf8(a), vstd::utf8::encode_utf8(b));
    if vstd::utf8::encode_utf8(a) == vstd::utf8::encode_utf8(b) {
        crate::text::lemma_encoding_injective(a, b);
    }
}

/// Whether `a` comes strictly before `b`.
pub fn less(a: &str, b: &str) -> (r: bool)
    ensures
        r == before(a@, b@),
{
    let x = a.as_bytes();
    let y = b.as_bytes();
    let n = x.len();
    let m = y.len();
    let mut i: usize = 0;
    assert(x@.skip(0) =~= x@);
    assert(y@.skip(0) =~= y@);
    while i < n && i < m
        invariant
            i <= n,
            i <= m,
            n == x@.len(),
            m == y@.len(),
            before(a@, b@) == bytes_before(x@.skip(i as int), y@.skip(i as int)),
        decreases n - i,
    {
        if x[i] != y[i] {
            return x[i] < y[i];
        }
        assert(x@.skip(i as int).drop_first() =~= x@.skip(i + 1));
        assert(y@.skip(i as int).drop_first() =~= y@.skip(i + 1));
        i += 1;
    }
    i < m
}

// ---------------------------------------------------------------------------
// Sorting by a key
// ---------------------------------------------------------------------------

/// What the elements of a list are sorted by: the rank, then whether the
/// element comes from the AUR, then the size, then the name.
pub struct Key {
    pub rank: u8,
    pub aur: bool,
    pub size: usize,
    pub name: String,
}

/// The contents of a `Key`.
pub struct KeyView {
    pub rank: int,
    pub aur: bool,
    pub size: int,
    pub name: Seq<char>,
}

impl View for Key {
    type V = KeyView;

    open spec fn view(&self) -> KeyView {
        KeyView {
            rank: self.rank as int,
            aur: self.aur,
            size: self.size as int,
            name: self.name@,
        }
    }
}

impl KeyView {
    /// The key that sorts by name alone.
    pub open spec fn by_name(name: Seq<char>) -> KeyView {
        KeyView { rank: 0, aur: false, size: 0, name }
    }

    /// Whether the key comes strictly before another.
    pub open spec fn less(self, other: KeyView) -> bool {
        if self.rank != other.rank {
            self.rank < other.rank
        } else if self.aur != other.aur {
            !self.aur
        } else if self.size != other.size {
            self.size < other.size
        } else {
            before(self.name, other.name)
        }
    }
}

impl Key {
    /// The key that sorts by name alone.
    pub fn by_name(name: &String) -> (r: Key)
        ensures
            r@ == KeyView::by_name(name@),
    {
        Key { rank: 0, aur: false, size: 0, name: name.clone() }
    }

    /// Whether the key comes strictly before another.
    pub fn less(&self, other: &Key) -> (r: bool)
        ensures
            r == self@.less(other@),
    {
        if self.rank != other.rank {
            self.rank < other.rank
        } else if self.aur != other.aur {
            !self.aur
        } else if self.size != other.size {
            self.size < other.size
        } else {
            less(self.name.as_str(), other.name.as_str())
        }
    }
}

proof fn lemma_key_transitive(a: KeyView, b: KeyView, c: KeyView)
    requires
        a.less(b),
        b.less(c),
    ensures
        a.less(c),
{
    if a.rank == b.rank && b.rank == c.rank && a.aur == b.aur && b.aur == c.aur && a.size == b.size
        && b.size == c.size {
        lemma_before_transitive(a.name, b.name, c.name);
    }
}

proof fn lemma_key_total(a: KeyView, b: KeyView)
    ensures
        a.less(b) || b.less(a) || a == b,
        !(a.less(b) && b.less(a)),
{
    lemma_before_total(a.name, b.name);
    lemma_before_asymmetric(a.name, b.name);
}

/// The keys of a list.
pub open spec fn key_views(keys: Seq<Key>) -> Seq<KeyView> {
    Seq::new(keys.len(), |i: int| keys[i]@)
}

/// Where a new key goes into an order: behind every element, from the end,
/// that it does not come before.
pub open spec fn slot(order: Seq<int>, keys: Seq<KeyView>, key: KeyView) -> int
    decreases order.len(),
{
    if order.len() == 0 || !key.less(keys[order.last()]) {
        order.len() as int
    } else {
        slot(order.drop_last(), keys, key)
    }
}

/// The order of the first `n` keys, each put into its slot in turn.
pub open spec fn order_of_first(keys: Seq<KeyView>, n: nat) -> Seq<int>
    decreases n,
{
    if n == 0 {
        seq![]
    } else {
        let rest = order_of_first(keys, (n - 1) as nat);
        rest.insert(slot(rest, keys, keys[n - 1]), n - 1)
    }
}

/// The places of the keys, in their stable order.
pub open spec fn order_of(keys: Seq<KeyView>) -> Seq<int> {
    order_of_first(keys, keys.len())
}

/// Whether an order names each of the places below `n` once, keys in
/// ascending order and equal keys in the order of their places.
pub open spec fn is_stable_order(order: Seq<int>, keys: Seq<KeyView>, n: nat) -> bool {
    &&& order.len() == n
    &&& forall|i: int| 0 <= i < order.len() ==> 0 <= #[trigger] order[i] < n
    &&& forall|i: int, j: int|
        0 <= i < j < order.len() ==> {
            ||| keys[#[trigger] order[i]].less(keys[#[trigger] order[j]])
            ||| keys[order[i]] == keys[order[j]] && order[i] < order[j]
        }
}

/// What stands before a slot does not come after the key, and what stands
/// from it on comes strictly after it.
proof fn lemma_slot(order: Seq<int>, keys: Seq<KeyView>, n: nat, key: KeyView)
    requires
        is_stable_order(order, keys, n),
    ensures
        0 <= slot(order, keys, key) <= order.len(),
        forall|i: int|
            0 <= i < slot(order, keys, key) ==> !key.less(keys[#[trigger] order[i]]),
        forall|i: int|
            slot(order, keys, key) <= i < order.len() ==> key.less(keys[#[trigger] order[i]]),
{
    lemma_slot_above(order, keys, key);
    let j = slot(order, keys, key);
    assert forall|i: int| 0 <= i < j implies !key.less(keys[#[trigger] order[i]]) by {
        let last = order[j - 1];
        if i < j - 1 && key.less(keys[order[i]]) {
            if keys[order[i]].less(keys[last]) {
                lemma_key_transitive(key, keys[order[i]], keys[last]);
            }
        }
    }
}

proof fn lemma_slot_above(order: Seq<int>, keys: Seq<KeyView>, key: KeyView)
    ensures
        0 <= slot(order, keys, key) <= order.len(),
        slot(order, keys, key) > 0 ==> !key.less(keys[order[slot(order, keys, key) - 1]]),
        forall|i: int|
            slot(order, keys, key) <= i < order.len() ==> key.less(keys[#[trigger] order[i]]),
    decreases order.len(),
{
    if order.len() > 0 && key.less(keys[order.last()]) {
        let rest = order.drop_last();
        lemma_slot_above(rest, keys, key);
        assert forall|i: int| slot(order, keys, key) <= i < order.len() implies key.less(
            keys[#[trigger] order[i]],
        ) by {
            if i < order.len() - 1 {
                assert(rest[i] == order[i]);
            }
        }
    }
}

/// Sorting names every place once, puts the keys in ascending order, and
/// leaves equal keys in the order that they came in.
pub proof fn law_order_is_stable(keys: Seq<KeyView>)
    ensures
        is_stable_order(order_of(keys), keys, keys.len()),
{
    lemma_order_of_first(keys, keys.len());
}

proof fn lemma_order_of_first(keys: Seq<KeyView>, n: nat)
    requires
        n <= keys.len(),
    ensures
        is_stable_order(order_of_first(keys, n), keys, n),
    decreases n,
{
    if n > 0 {
        let m = (n - 1) as nat;
        lemma_order_of_first(keys, m);
        let rest = order_of_first(keys, m);
        let key = keys[n - 1];
        lemma_slot(rest, keys, m, key);
        let at = slot(rest, keys, key);
        let out = rest.insert(at, n - 1);
        assert forall|i: int| 0 <= i < out.len() implies 0 <= #[trigger] out[i] < n by {
            if i < at {
                assert(out[i] == rest[i]);
            } else if i > at {
                assert(out[i] == rest[i - 1]);
            }
        }
        assert forall|i: int, j: int| 0 <= i < j < out.len() implies ({
            ||| keys[#[trigger] out[i]].less(keys[#[trigger] out[j]])
            ||| keys[out[i]] == keys[out[j]] && out[i] < out[j]
        }) by {
            let a = if i < at { i } else { i - 1 };
            let b = if j < at { j } else { j - 1 };
            if i == at {
                assert(out[j] == rest[j - 1]);
            } else if j == at {
                assert(out[i] == rest[i]);
                lemma_key_total(keys[rest[i]], key);
            } else {
                assert(out[i] == rest[a]);
                assert(out[j] == rest[b]);
            }
        }
    }
}

/// There is but one stable order.
pub proof fn law_stable_order_is_unique(a: Seq<int>, b: Seq<int>, keys: Seq<KeyView>, n: nat)
    requires
        is_stable_order(a, keys, n),
        is_stable_order(b, keys, n),
    ensures
        a == b,
{
    lemma_orders_agree(a, b, keys, n, n);
    assert(a =~= b);
}

/// Every place below `n` stands somewhere in a stable order.
pub proof fn lemma_order_is_onto(a: Seq<int>, keys: Seq<KeyView>, n: nat, p: int)
    requires
        is_stable_order(a, keys, n),
        0 <= p < n,
    ensures
        a.contains(p),
{
    assert(a.no_duplicates()) by {
        assert forall|i: int, j: int| 0 <= i < a.len() && 0 <= j < a.len() && i != j implies a[i]
            != a[j] by {
            if i < j {
                lemma_key_total(keys[a[i]], keys[a[j]]);
            } else {
                lemma_key_total(keys[a[j]], keys[a[i]]);
            }
        }
    }
    a.unique_seq_to_set();
    let all = vstd::set_lib::set_int_range(0, n as int);
    vstd::set_lib::lemma_int_range(0, n as int);
    assert(a.to_set().subset_of(all));
    vstd::set_lib::lemma_subset_equality(a.to_set(), all);
    assert(all.contains(p));
}

proof fn lemma_orders_agree(a: Seq<int>, b: Seq<int>, keys: Seq<KeyView>, n: nat, k: nat)
    requires
        is_stable_order(a, keys, n),
        is_stable_order(b, keys, n),
        k <= n,
    ensures
        forall|i: int| 0 <= i < k ==> a[i] == b[i],
    decreases k,
{
    if k > 0 {
        let m = k - 1;
        lemma_orders_agree(a, b, keys, n, m as nat);
        lemma_order_is_onto(a, keys, n, b[m]);
        lemma_order_is_onto(b, keys, n, a[m]);
        let x = choose|x: int| 0 <= x < a.len() && a[x] == b[m];
        let y = choose|y: int| 0 <= y < b.len() && b[y] == a[m];
        if x < m {
            assert(a[x] == b[x]);
            lemma_key_total(keys[b[x]], keys[b[m]]);
        }
        if y < m {
            assert(a[y] == b[y]);
            lemma_key_total(keys[a[y]], keys[a[m]]);
        }
        if x > m && y > m {
            // a[m] < a[x] == b[m] < b[y] == a[m]
            lemma_key_total(keys[a[m]], keys[a[x]]);
            lemma_key_total(keys[b[m]], keys[b[y]]);
        }
    }
}

/// The places of an order, as numbers.
pub open spec fn places(order: Seq<usize>) -> Seq<int> {
    Seq::new(order.len(), |i: int| order[i] as int)
}

/// Sorts the keys and returns their places in order.
pub fn sort(keys: &Vec<Key>) -> (r: Vec<usize>)
    ensures
        places(r@) == order_of(key_views(keys@)),
        is_stable_order(places(r@), key_views(keys@), keys@.len()),
        r@.len() == keys@.len(),
        forall|i: int| 0 <= i < r@.len() ==> (#[trigger] r@[i]) < keys@.len(),
{
    let mut order: Vec<usize> = Vec::new();
    let ghost views = key_views(keys@);
    assert(places(order@) =~= order_of_first(views, 0));
    for i in 0..keys.len()
        invariant
            views == key_views(keys@),
            places(order@) == order_of_first(views, i as nat),
            order@.len() == i,
            forall|k: int| 0 <= k < order@.len() ==> (#[trigger] order@[k]) < i,
    {
        let mut at: usize = order.len();
        let ghost rest = places(order@);
        assert(rest.take(at as int) =~= rest);
        while at > 0 && keys[i].less(&keys[order[at - 1]])
            invariant
                i < keys@.len(),
                views == key_views(keys@),
                rest == places(order@),
                at <= order@.len(),
                order@.len() == i,
                forall|k: int| 0 <= k < order@.len() ==> (#[trigger] order@[k]) < i,
                slot(rest, views, views[i as int]) == slot(
                    rest.take(at as int),
                    views,
                    views[i as int],
                ),
            decreases at,
        {
            assert(rest.take(at as int).drop_last() =~= rest.take(at - 1));
            at -= 1;
        }
        assert(slot(rest, views, views[i as int]) == at);
        let ghost old_order = order@;
        order.insert(at, i);
        assert(places(order@) =~= rest.insert(at as int, i as int));
        assert forall|k: int| 0 <= k < order@.len() implies (#[trigger] order@[k]) < i + 1 by {
            if k < at {
                assert(order@[k] == old_order[k]);
            } else if k > at {
                assert(order@[k] == old_order[k - 1]);
            }
        }
    }
    proof {
        law_order_is_stable(views);
    }
    order
}

} // verus!
