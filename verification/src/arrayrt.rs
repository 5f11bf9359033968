//! The ordered route store: entries kept longest prefix first, so that the
//! first entry containing an address is its most specific route.

use vstd::prelude::*;

use crate::cidr::Cidr;
use crate::item::Item;

verus! {

/// Entries in order of non-increasing prefix length.
pub open spec fn ordered(s: Seq<Item>) -> bool {
    forall|i: int, j: int|
        0 <= i <= j < s.len() ==> s[i].cidr.prefix_len() >= s[j].cidr.prefix_len()
}

/// The index of the first entry of `s` that satisfies `f`, or the length of
/// `s` when none does.
pub open spec fn first_where(s: Seq<Item>, f: spec_fn(Item) -> bool) -> int
    decreases s.len(),
{
    if s.len() == 0 || f(s[0]) {
        0
    } else {
        1 + first_where(s.drop_first(), f)
    }
}

/// Where a new entry of prefix length `prefix_len` goes: before the first
/// entry that is strictly shorter, or at the end.
pub open spec fn insert_index(s: Seq<Item>, prefix_len: u8) -> int {
    first_where(s, |it: Item| it.cidr.prefix_len() < prefix_len)
}

/// The store after `item` has been added.
pub open spec fn inserted(s: Seq<Item>, item: Item) -> Seq<Item> {
    s.insert(insert_index(s, item.cidr.prefix_len()), item)
}

/// The index of the first entry whose network is exactly `cidr`, or the
/// length of `s`.
pub open spec fn index_of(s: Seq<Item>, cidr: Cidr) -> int {
    first_where(s, |it: Item| it.cidr == cidr)
}

/// The entry that removing `cidr` takes out, if there is one.
pub open spec fn removed_entry(s: Seq<Item>, cidr: Cidr) -> Option<Item> {
    if index_of(s, cidr) < s.len() {
        Some(s[index_of(s, cidr)])
    } else {
        None
    }
}

/// The store after `cidr` has been removed: without the first entry of that
/// network, or unchanged when there is none.
pub open spec fn without(s: Seq<Item>, cidr: Cidr) -> Seq<Item> {
    if index_of(s, cidr) < s.len() {
        s.remove(index_of(s, cidr))
    } else {
        s
    }
}

/// The index of the first entry whose network contains `to`, or the length
/// of `s`.
pub open spec fn match_index(s: Seq<Item>, to: u32) -> int {
    first_where(s, |it: Item| it.cidr.covers(to))
}

/// The route for `to`: the first entry in store order whose network
/// contains it.
pub open spec fn lookup(s: Seq<Item>, to: u32) -> Option<Item> {
    if match_index(s, to) < s.len() {
        Some(s[match_index(s, to)])
    } else {
        None
    }
}

/// `first_where` is in range, nothing before it satisfies `f`, and the entry
/// at it does unless it is the length.
pub proof fn lemma_first_where(s: Seq<Item>, f: spec_fn(Item) -> bool)
    ensures
        0 <= first_where(s, f) <= s.len(),
        forall|j: int| 0 <= j < first_where(s, f) ==> !f(#[trigger] s[j]),
        first_where(s, f) < s.len() ==> f(s[first_where(s, f)]),
    decreases s.len(),
{
    if s.len() != 0 && !f(s[0]) {
        let t = s.drop_first();
        lemma_first_where(t, f);
        assert forall|j: int| 0 <= j < first_where(s, f) implies !f(#[trigger] s[j]) by {
            if j > 0 {
                assert(s[j] == t[j - 1]);
            }
        }
        assert(first_where(t, f) < t.len() ==> s[first_where(s, f)] == t[first_where(t, f)]);
    }
}

/// An index with the three properties of `first_where` is `first_where`.
pub proof fn lemma_first_where_unique(s: Seq<Item>, f: spec_fn(Item) -> bool, k: int)
    requires
        0 <= k <= s.len(),
        forall|j: int| 0 <= j < k ==> !f(#[trigger] s[j]),
        k < s.len() ==> f(s[k]),
    ensures
        first_where(s, f) == k,
{
    lemma_first_where(s, f);
}

/// Adding an entry keeps the store ordered.
pub proof fn lemma_inserted_ordered(s: Seq<Item>, item: Item)
    requires
        ordered(s),
    ensures
        ordered(inserted(s, item)),
{
    let p = item.cidr.prefix_len();
    let k = insert_index(s, p);
    let t = inserted(s, item);
    lemma_first_where(s, |it: Item| it.cidr.prefix_len() < p);
    assert forall|i: int, j: int| 0 <= i <= j < t.len() implies t[i].cidr.prefix_len()
        >= t[j].cidr.prefix_len() by {
        if i < k && j > k {
            assert(t[i] == s[i] && t[j] == s[j - 1]);
        } else if i < k && j == k {
            assert(t[i] == s[i]);
        } else if i == k && j > k {
            assert(t[j] == s[j - 1]);
            assert(s[k].cidr.prefix_len() >= s[j - 1].cidr.prefix_len());
        } else if i > k {
            assert(t[i] == s[i - 1] && t[j] == s[j - 1]);
        }
    }
}

/// Removing a network keeps the store ordered.
pub proof fn lemma_without_ordered(s: Seq<Item>, cidr: Cidr)
    requires
        ordered(s),
    ensures
        ordered(without(s, cidr)),
{
    let k = index_of(s, cidr);
    let t = without(s, cidr);
    lemma_first_where(s, |it: Item| it.cidr == cidr);
    if k < s.len() {
        assert forall|i: int, j: int| 0 <= i <= j < t.len() implies t[i].cidr.prefix_len()
            >= t[j].cidr.prefix_len() by {
            let si = if i < k { i } else { i + 1 };
            let sj = if j < k { j } else { j + 1 };
            assert(t[i] == s[si] && t[j] == s[sj]);
        }
    }
}

/// One change to a store.
pub enum Update {
    Add(Item),
    Remove(Cidr),
}

/// The store after one change.
pub open spec fn apply(s: Seq<Item>, update: Update) -> Seq<Item> {
    match update {
        Update::Add(item) => inserted(s, item),
        Update::Remove(cidr) => without(s, cidr),
    }
}

/// The store that a sequence of changes, applied first to last, makes of
/// the empty one.
pub open spec fn replay(updates: Seq<Update>) -> Seq<Item>
    decreases updates.len(),
{
    if updates.len() == 0 {
        Seq::empty()
    } else {
        apply(replay(updates.drop_last()), updates.last())
    }
}

/// Whatever is added and removed, in whatever order, the store is ordered.
pub proof fn lemma_replay_ordered(updates: Seq<Update>)
    ensures
        ordered(replay(updates)),
    decreases updates.len(),
{
    if updates.len() != 0 {
        let before = replay(updates.drop_last());
        lemma_replay_ordered(updates.drop_last());
        match updates.last() {
            Update::Add(item) => lemma_inserted_ordered(before, item),
            Update::Remove(cidr) => lemma_without_ordered(before, cidr),
        }
    }
}

/// In an ordered store the route found for `to` contains `to` and no entry
/// that contains `to` has a longer prefix; no route is found exactly when
/// no entry contains `to`.
pub proof fn lemma_lookup_longest_prefix(s: Seq<Item>, to: u32)
    requires
        ordered(s),
    ensures
        match lookup(s, to) {
            Some(found) => {
                &&& s.contains(found)
                &&& found.cidr.covers(to)
                &&& forall|i: int|
                    0 <= i < s.len() && (#[trigger] s[i]).cidr.covers(to)
                        ==> s[i].cidr.prefix_len() <= found.cidr.prefix_len()
            },
            None => forall|i: int| 0 <= i < s.len() ==> !(#[trigger] s[i]).cidr.covers(to),
        },
{
    let k = match_index(s, to);
    lemma_first_where(s, |it: Item| it.cidr.covers(to));
    if k < s.len() {
        assert(s.contains(s[k]));
    }
}

/// In an ordered store, an entry that contains `to` and is strictly longer
/// than every other entry that does is the route found for `to`.
pub proof fn lemma_lookup_finds_longest(s: Seq<Item>, to: u32, k: int)
    requires
        ordered(s),
        0 <= k < s.len(),
        s[k].cidr.covers(to),
        forall|i: int|
            0 <= i < s.len() && i != k && (#[trigger] s[i]).cidr.covers(to)
                ==> s[i].cidr.prefix_len() < s[k].cidr.prefix_len(),
    ensures
        lookup(s, to) == Some(s[k]),
{
    let f = |it: Item| it.cidr.covers(to);
    assert forall|j: int| 0 <= j < k implies !f(#[trigger] s[j]) by {
        if s[j].cidr.covers(to) {
            assert(s[j].cidr.prefix_len() >= s[k].cidr.prefix_len());
        }
    }
    lemma_first_where_unique(s, f, k);
}

/// An entry just added is the route found for every address that it
/// contains, unless another entry that was there before contains the
/// address with a prefix as long or longer.
pub proof fn lemma_insert_then_lookup(s: Seq<Item>, item: Item, to: u32)
    requires
        item.cidr.covers(to),
        forall|i: int|
            0 <= i < s.len() && (#[trigger] s[i]).cidr.covers(to) ==> s[i] == item
                || s[i].cidr.prefix_len() < item.cidr.prefix_len(),
    ensures
        lookup(inserted(s, item), to) == Some(item),
{
    let k = insert_index(s, item.cidr.prefix_len());
    let t = inserted(s, item);
    let m = match_index(t, to);
    lemma_first_where(s, |it: Item| it.cidr.prefix_len() < item.cidr.prefix_len());
    lemma_first_where(t, |it: Item| it.cidr.covers(to));
    assert(t[k] == item);
    assert(m <= k);
    if m < k {
        assert(t[m] == s[m]);
    }
}

/// Removing takes out an entry exactly when some entry has that network,
/// and then it is the first such entry; otherwise the store stays as it
/// is.
pub proof fn lemma_removed_entry(s: Seq<Item>, cidr: Cidr)
    ensures
        removed_entry(s, cidr).is_some() <==> exists|i: int|
            0 <= i < s.len() && (#[trigger] s[i]).cidr == cidr,
        removed_entry(s, cidr).is_none() ==> without(s, cidr) == s,
        removed_entry(s, cidr) matches Some(entry) ==> {
            &&& entry.cidr == cidr
            &&& entry == s[index_of(s, cidr)]
            &&& without(s, cidr).len() == s.len() - 1
            &&& forall|j: int| 0 <= j < index_of(s, cidr) ==> (#[trigger] s[j]).cidr != cidr
        },
{
    lemma_first_where(s, |it: Item| it.cidr == cidr);
}

/// Once a network has been removed, an address that no other entry
/// contains has no route.
pub proof fn lemma_remove_then_lookup(s: Seq<Item>, cidr: Cidr, to: u32)
    requires
        forall|i: int|
            0 <= i < s.len() && i != index_of(s, cidr) ==> !(#[trigger] s[i]).cidr.covers(to),
    ensures
        lookup(without(s, cidr), to).is_none(),
{
    let k = index_of(s, cidr);
    let t = without(s, cidr);
    let f = |it: Item| it.cidr.covers(to);
    lemma_first_where(s, |it: Item| it.cidr == cidr);
    assert forall|j: int| 0 <= j < t.len() implies !f(#[trigger] t[j]) by {
        if k == s.len() || j < k {
            assert(t[j] == s[j]);
        } else {
            assert(t[j] == s[j + 1]);
        }
    }
    lemma_first_where_unique(t, f, t.len() as int);
}

/// A route store: entries in order of non-increasing prefix length, entries
/// of equal length in the order in which they were added.
pub struct ArrayRoutingTable {
    inner: Vec<Item>,
}

impl ArrayRoutingTable {
    /// The entries in store order.
    pub closed spec fn view(&self) -> Seq<Item> {
        self.inner@
    }

    /// Holds of every store at every moment: the entries are ordered.
    #[verifier::type_invariant]
    pub open spec fn wf(self) -> bool {
        ordered(self@)
    }

    /// The index of the first entry whose network is exactly `cidr`, or the
    /// number of entries.
    fn position(&self, cidr: &Cidr) -> (i: usize)
        ensures
            i == index_of(self@, *cidr),
            i <= self.inner@.len(),
    {
        let mut i: usize = 0;
        while i < self.inner.len() && !(self.inner[i].cidr == *cidr)
            invariant
                0 <= i <= self.inner.len(),
                forall|j: int| 0 <= j < i ==> (#[trigger] self.inner@[j]).cidr != *cidr,
            decreases self.inner.len() - i,
        {
            i += 1;
        }
        proof {
            let f = |it: Item| it.cidr == *cidr;
            lemma_first_where_unique(self.inner@, f, i as int);
        }
        i
    }

    /// Adds `item` before the first entry of strictly shorter prefix, or at
    /// the end. An entry whose network is already present is added all the
    /// same, behind the ones that are there.
    pub fn add(&mut self, item: Item)
        ensures
            final(self)@ == inserted(old(self)@, item),
            ordered(final(self)@),
    {
        proof {
            use_type_invariant(&*self);
        }
        let prefix_len = item.cidr.prefix_len();
        let mut i: usize = 0;
        while i < self.inner.len() && self.inner[i].cidr.prefix_len() >= prefix_len
            invariant
                0 <= i <= self.inner.len(),
                self.inner@ == old(self).inner@,
                forall|j: int|
                    0 <= j < i ==> (#[trigger] self.inner@[j]).cidr.prefix_len() >= prefix_len,
            decreases self.inner.len() - i,
        {
            i += 1;
        }
        proof {
            let f = |it: Item| it.cidr.prefix_len() < prefix_len;
            lemma_first_where_unique(self.inner@, f, i as int);
            lemma_inserted_ordered(self.inner@, item);
        }
        let mut entries: Vec<Item> = Vec::new();
        core::mem::swap(&mut self.inner, &mut entries);
        entries.insert(i, item);
        self.inner = entries;
    }

    /// Removes the first entry whose network is exactly `cidr`, address and
    /// prefix length both, and returns it; `None`, and the store unchanged,
    /// when there is none.
    pub fn remove(&mut self, cidr: &Cidr) -> (r: Option<Item>)
        ensures
            r == removed_entry(old(self)@, *cidr),
            final(self)@ == without(old(self)@, *cidr),
            ordered(final(self)@),
    {
        proof {
            use_type_invariant(&*self);
            lemma_without_ordered(self.inner@, *cidr);
        }
        let i = self.position(cidr);
        if i < self.inner.len() {
            let mut entries: Vec<Item> = Vec::new();
            core::mem::swap(&mut self.inner, &mut entries);
            let item = entries.remove(i);
            self.inner = entries;
            Some(item)
        } else {
            None
        }
    }

    /// The entries in store order.
    pub fn entries(&self) -> (r: &[Item])
        ensures
            r@ == self@,
            ordered(r@),
    {
        proof {
            use_type_invariant(self);
        }
        self.inner.as_slice()
    }

    /// The first entry whose network is exactly `cidr`: the one that
    /// `remove` would take out.
    pub fn get(&self, cidr: &Cidr) -> (r: Option<&Item>)
        ensures
            match r {
                Some(item) => removed_entry(self@, *cidr) == Some(*item),
                None => removed_entry(self@, *cidr).is_none(),
            },
    {
        let i = self.position(cidr);
        if i < self.inner.len() {
            Some(&self.inner[i])
        } else {
            None
        }
    }

    /// The most specific route for `to`: the first entry in store order
    /// whose network contains it. The source address `src` is taken for
    /// routing by source, which is yet to come, and has no part in the
    /// match.
    pub fn find(&self, _src: u32, to: u32) -> (r: Option<&Item>)
        ensures
            match r {
                Some(item) => lookup(self@, to) == Some(*item),
                None => lookup(self@, to).is_none(),
            },
    {
        let mut i: usize = 0;
        while i < self.inner.len() && !self.inner[i].cidr.contains(to)
            invariant
                0 <= i <= self.inner.len(),
                forall|j: int| 0 <= j < i ==> !(#[trigger] self.inner@[j]).cidr.covers(to),
            decreases self.inner.len() - i,
        {
            i += 1;
        }
        proof {
            let f = |it: Item| it.cidr.covers(to);
            lemma_first_where_unique(self.inner@, f, i as int);
        }
        if i < self.inner.len() {
            Some(&self.inner[i])
        } else {
            None
        }
    }
}

impl Default for ArrayRoutingTable {
    /// The empty store.
    fn default() -> (r: Self)
        ensures
            r@ == Seq::<Item>::empty(),
    {
        ArrayRoutingTable { inner: Vec::new() }
    }
}

impl Clone for ArrayRoutingTable {
    /// A store of its own with the same entries in the same order.
    fn clone(&self) -> (r: Self)
        ensures
            r@ == self@,
    {
        proof {
            use_type_invariant(self);
        }
        let inner = self.inner.clone();
        assert(inner@ =~= self.inner@);
        ArrayRoutingTable { inner }
    }
}

} // verus!
