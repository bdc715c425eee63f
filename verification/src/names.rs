//! A set of names, kept in ascending order.

use vstd::prelude::*;

use crate::order;
use crate::text;

verus! {

/// Whether each string of a list comes strictly before the next.
pub open spec fn ascending(s: Seq<Seq<char>>) -> bool {
    forall|i: int, j: int|
        0 <= i < j < s.len() ==> order::before(#[trigger] s[i], #[trigger] s[j])
}

/// The members of a finite set of names, in ascending order.
pub open spec fn in_order(names: Set<Seq<char>>) -> Seq<Seq<char>> {
    choose|s: Seq<Seq<char>>| ascending(s) && #[trigger] s.to_set() == names
}

/// An ascending list has no member twice.
pub proof fn lemma_ascending_unique(s: Seq<Seq<char>>)
    requires
        ascending(s),
    ensures
        s.no_duplicates(),
{
    assert forall|i: int, j: int| 0 <= i < s.len() && 0 <= j < s.len() && i != j implies s[i]
        != s[j] by {
        if i < j {
            order::lemma_before_asymmetric(s[i], s[j]);
        } else {
            order::lemma_before_asymmetric(s[j], s[i]);
        }
    }
}

/// An ascending list is settled by its members.
pub proof fn lemma_ascending_settled(a: Seq<Seq<char>>, b: Seq<Seq<char>>)
    requires
        ascending(a),
        ascending(b),
        a.to_set() == b.to_set(),
    ensures
        a == b,
    decreases a.len(),
{
    lemma_ascending_unique(a);
    lemma_ascending_unique(b);
    a.unique_seq_to_set();
    b.unique_seq_to_set();
    if a.len() == 0 {
        assert(a =~= b);
    } else {
        let x = a.last();
        let y = b.last();
        assert(a.to_set().contains(x));
        assert(b.to_set().contains(y));
        assert(b.contains(x));
        assert(a.contains(y));
        let i = choose|i: int| 0 <= i < b.len() && b[i] == x;
        let j = choose|j: int| 0 <= j < a.len() && a[j] == y;
        if x != y {
            assert(order::before(b[i], b[b.len() - 1]));
            assert(order::before(a[j], a[a.len() - 1]));
            order::lemma_before_asymmetric(x, y);
        }
        let a1 = a.drop_last();
        let b1 = b.drop_last();
        assert(a1.to_set() =~= b1.to_set()) by {
            assert forall|n: Seq<char>| a1.contains(n) == #[trigger] b1.contains(n) by {
                if a1.contains(n) {
                    let k = choose|k: int| 0 <= k < a1.len() && a1[k] == n;
                    assert(a[k] == n && n != x);
                    assert(a.to_set().contains(n));
                    assert(b.contains(n));
                    let l = choose|l: int| 0 <= l < b.len() && b[l] == n;
                    assert(b1[l] == n);
                }
                if b1.contains(n) {
                    let k = choose|k: int| 0 <= k < b1.len() && b1[k] == n;
                    assert(b[k] == n && n != y);
                    assert(b.to_set().contains(n));
                    assert(a.contains(n));
                    let l = choose|l: int| 0 <= l < a.len() && a[l] == n;
                    assert(a1[l] == n);
                }
            }
            assert forall|n: Seq<char>| #[trigger] a1.to_set().contains(n) == b1.to_set().contains(
                n,
            ) by {
                assert(a1.contains(n) == b1.contains(n));
            }
        }
        lemma_ascending_settled(a1, b1);
        assert(a =~= a1.push(x));
        assert(b =~= b1.push(y));
    }
}

/// A list in ascending order is its own members in order.
pub proof fn lemma_in_order(s: Seq<Seq<char>>)
    requires
        ascending(s),
    ensures
        in_order(s.to_set()) == s,
{
    let t = in_order(s.to_set());
    assert(ascending(s) && s.to_set() == s.to_set());
    lemma_ascending_settled(t, s);
}

/// A name that is put at its place in an ascending list.
proof fn lemma_insert(was: Seq<Seq<char>>, at: int, n: Seq<char>)
    requires
        ascending(was),
        0 <= at <= was.len(),
        !was.contains(n),
        forall|i: int| 0 <= i < at ==> order::before(#[trigger] was[i], n),
        forall|i: int| at <= i < was.len() ==> !order::before(#[trigger] was[i], n),
    ensures
        ascending(was.insert(at, n)),
        was.insert(at, n).to_set() == was.to_set().insert(n),
{
    let now = was.insert(at, n);
    assert forall|i: int, j: int| 0 <= i < j < now.len() implies order::before(
        #[trigger] now[i],
        #[trigger] now[j],
    ) by {
        if i == at {
            assert(now[j] == was[j - 1]);
            order::lemma_before_total(n, was[j - 1]);
            if n == was[j - 1] {
                assert(was.contains(n));
            }
        } else if j == at {
            assert(now[i] == was[i]);
        } else {
            let a = if i < at { i } else { i - 1 };
            let b = if j < at { j } else { j - 1 };
            assert(now[i] == was[a]);
            assert(now[j] == was[b]);
        }
    }
    assert forall|x: Seq<char>| #[trigger] now.to_set().contains(x) == was.to_set().insert(
        n,
    ).contains(x) by {
        if now.contains(x) {
            let k = choose|k: int| 0 <= k < now.len() && now[k] == x;
            if k < at {
                assert(was[k] == x);
            } else if k > at {
                assert(was[k - 1] == x);
            }
        }
        if was.contains(x) {
            let k = choose|k: int| 0 <= k < was.len() && was[k] == x;
            if k < at {
                assert(now[k] == x);
            } else {
                assert(now[k + 1] == x);
            }
        }
        if x == n {
            assert(now[at] == x);
        }
    }
    assert(now.to_set() =~= was.to_set().insert(n));
}

/// Every name has a place in an ascending list.
proof fn lemma_place(s: Seq<Seq<char>>, n: Seq<char>) -> (at: int)
    requires
        ascending(s),
    ensures
        0 <= at <= s.len(),
        forall|i: int| 0 <= i < at ==> order::before(#[trigger] s[i], n),
        forall|i: int| at <= i < s.len() ==> !order::before(#[trigger] s[i], n),
    decreases s.len(),
{
    if s.len() == 0 {
        0
    } else {
        let rest = s.drop_last();
        let at = lemma_place(rest, n);
        assert forall|i: int| 0 <= i < at implies order::before(#[trigger] s[i], n) by {
            assert(rest[i] == s[i]);
        }
        assert forall|i: int| at <= i < rest.len() implies !order::before(#[trigger] s[i], n) by {
            assert(rest[i] == s[i]);
        }
        if at == rest.len() && order::before(s.last(), n) {
            at + 1
        } else {
            if at < rest.len() && order::before(s.last(), n) {
                order::lemma_before_transitive(s[at], s.last(), n);
            }
            at
        }
    }
}

/// Every finite set of names can be put in ascending order.
pub proof fn lemma_in_order_of(names: Set<Seq<char>>)
    requires
        names.finite(),
    ensures
        ascending(in_order(names)),
        in_order(names).to_set() == names,
    decreases names.len(),
{
    if names.len() == 0 {
        let none = Seq::<Seq<char>>::empty();
        assert(none.to_set() =~= names);
        lemma_in_order(none);
    } else {
        let n = names.choose();
        let rest = names.remove(n);
        lemma_in_order_of(rest);
        let s = in_order(rest);
        let at = lemma_place(s, n);
        assert(!s.contains(n)) by {
            assert(s.to_set().contains(n) == rest.contains(n));
        }
        lemma_insert(s, at, n);
        assert(rest.insert(n) =~= names);
        lemma_in_order(s.insert(at, n));
    }
}

/// A set of names.
pub struct NameSet {
    names: Vec<String>,
}

impl View for NameSet {
    type V = Set<Seq<char>>;

    closed spec fn view(&self) -> Set<Seq<char>> {
        text::texts(self.names@).to_set()
    }
}

impl NameSet {
    /// The names are kept in ascending order, so that none is kept twice.
    pub closed spec fn wf(&self) -> bool {
        ascending(text::texts(self.names@))
    }

    /// The empty set.
    pub fn new() -> (r: NameSet)
        ensures
            r.wf(),
            r@ == Set::<Seq<char>>::empty(),
    {
        let r = NameSet { names: Vec::new() };
        assert(r@ =~= Set::<Seq<char>>::empty());
        r
    }

    /// The place where a name stands, or where it would be put.
    fn slot(&self, name: &str) -> (r: usize)
        requires
            self.wf(),
        ensures
            r <= self.names@.len(),
            forall|i: int| 0 <= i < r ==> order::before(#[trigger] text::texts(self.names@)[i], name@),
            forall|i: int|
                r <= i < self.names@.len() ==> !order::before(
                    #[trigger] text::texts(self.names@)[i],
                    name@,
                ),
    {
        let ghost all = text::texts(self.names@);
        let mut lo: usize = 0;
        let mut hi: usize = self.names.len();
        while lo < hi
            invariant
                ascending(all),
                all == text::texts(self.names@),
                lo <= hi <= self.names@.len(),
                forall|i: int| 0 <= i < lo ==> order::before(#[trigger] all[i], name@),
                forall|i: int| hi <= i < all.len() ==> !order::before(#[trigger] all[i], name@),
            decreases hi - lo,
        {
            let mid = lo + (hi - lo) / 2;
            if order::less(self.names[mid].as_str(), name) {
                assert forall|i: int| 0 <= i < mid + 1 implies order::before(
                    #[trigger] all[i],
                    name@,
                ) by {
                    if i < mid {
                        order::lemma_before_transitive(all[i], all[mid as int], name@);
                    }
                }
                lo = mid + 1;
            } else {
                assert forall|i: int| mid <= i < all.len() implies !order::before(
                    #[trigger] all[i],
                    name@,
                ) by {
                    if i > mid && order::before(all[i], name@) {
                        order::lemma_before_transitive(all[mid as int], all[i], name@);
                    }
                }
                hi = mid;
            }
        }
        lo
    }

    /// Whether the name at a slot is the one that was looked for.
    fn is_at(&self, at: usize, name: &str) -> (r: bool)
        requires
            self.wf(),
            at <= self.names@.len(),
            forall|i: int| 0 <= i < at ==> order::before(#[trigger] text::texts(self.names@)[i], name@),
            forall|i: int|
                at <= i < self.names@.len() ==> !order::before(
                    #[trigger] text::texts(self.names@)[i],
                    name@,
                ),
        ensures
            r == self@.contains(name@),
            r ==> at < self.names@.len() && text::texts(self.names@)[at as int] == name@,
    {
        let r = at < self.names.len() && text::equal(self.names[at].as_str(), name);
        proof {
            let all = text::texts(self.names@);
            if r {
                assert(all[at as int] == name@);
                assert(all.contains(name@));
            } else if all.contains(name@) {
                let k = choose|k: int| 0 <= k < all.len() && all[k] == name@;
                order::lemma_before_asymmetric(name@, name@);
                assert(k > at);
                assert(order::before(all[at as int], all[k]));
            }
        }
        r
    }

    /// Whether the set holds a name.
    pub fn contains(&self, name: &str) -> (r: bool)
        requires
            self.wf(),
        ensures
            r == self@.contains(name@),
    {
        let at = self.slot(name);
        self.is_at(at, name)
    }

    /// Adds a name.
    pub fn insert(&mut self, name: String)
        requires
            old(self).wf(),
        ensures
            final(self).wf(),
            final(self)@ == old(self)@.insert(name@),
    {
        let at = self.slot(name.as_str());
        let found = self.is_at(at, name.as_str());
        let ghost was = text::texts(self.names@);
        if found {
            assert(self@ =~= self@.insert(name@));
        } else {
            let ghost n = name@;
            self.names.insert(at, name);
            proof {
                let now = text::texts(self.names@);
                assert(now =~= was.insert(at as int, n));
                lemma_insert(was, at as int, n);
            }
        }
    }

    /// Removes a name; tells whether the set held it.
    pub fn remove(&mut self, name: &str) -> (r: bool)
        requires
            old(self).wf(),
        ensures
            final(self).wf(),
            final(self)@ == old(self)@.remove(name@),
            r == old(self)@.contains(name@),
    {
        let at = self.slot(name);
        let found = self.is_at(at, name);
        let ghost was = text::texts(self.names@);
        if found {
            let _ = self.names.remove(at);
            proof {
                let now = text::texts(self.names@);
                assert(now =~= was.remove(at as int));
                lemma_ascending_unique(was);
                assert forall|i: int, j: int| 0 <= i < j < now.len() implies order::before(
                    #[trigger] now[i],
                    #[trigger] now[j],
                ) by {
                    let a = if i < at { i } else { i + 1 };
                    let b = if j < at { j } else { j + 1 };
                    assert(now[i] == was[a]);
                    assert(now[j] == was[b]);
                }
                assert(now.to_set() =~= was.to_set().remove(name@)) by {
                    assert forall|x: Seq<char>| #[trigger] now.to_set().contains(x)
                        == was.to_set().remove(name@).contains(x) by {
                        if now.contains(x) {
                            let k = choose|k: int| 0 <= k < now.len() && now[k] == x;
                            if k < at {
                                assert(was[k] == x);
                            } else {
                                assert(was[k + 1] == x);
                            }
                        }
                        if was.contains(x) && x != name@ {
                            let k = choose|k: int| 0 <= k < was.len() && was[k] == x;
                            if k < at {
                                assert(now[k] == x);
                            } else {
                                assert(now[k - 1] == x);
                            }
                        }
                    }
                }
            }
        } else {
            assert(self@ =~= self@.remove(name@));
        }
        found
    }

    /// How many names the set holds.
    pub fn len(&self) -> (r: usize)
        requires
            self.wf(),
        ensures
            r == self@.len(),
            self@.finite(),
    {
        proof {
            lemma_ascending_unique(text::texts(self.names@));
            text::texts(self.names@).unique_seq_to_set();
        }
        self.names.len()
    }

    /// Whether the set holds no name.
    pub fn is_empty(&self) -> (r: bool)
        requires
            self.wf(),
        ensures
            r == (self@ == Set::<Seq<char>>::empty()),
    {
        let r = self.names.len() == 0;
        proof {
            let all = text::texts(self.names@);
            if r {
                assert(self@ =~= Set::<Seq<char>>::empty());
            } else {
                assert(all.contains(all[0]));
                assert(self@.contains(all[0]));
            }
        }
        r
    }

    /// The names in ascending order.
    pub fn to_vec(&self) -> (r: Vec<String>)
        requires
            self.wf(),
        ensures
            text::texts(r@) == in_order(self@),
            ascending(text::texts(r@)),
            text::texts(r@).to_set() == self@,
    {
        proof {
            lemma_in_order(text::texts(self.names@));
        }
        text::copy_texts(&self.names)
    }

    /// A set with the same names.
    pub fn copy(&self) -> (r: NameSet)
        requires
            self.wf(),
        ensures
            r.wf(),
            r@ == self@,
    {
        NameSet { names: text::copy_texts(&self.names) }
    }
}

} // verus!
