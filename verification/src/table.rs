//! The snapshot publisher and the table handle: one route store behind an
//! atomically swapped reference, read without blocking and rewritten by
//! copy.

use arc_swap::ArcSwap;
use std::sync::Arc;
use vstd::prelude::*;

use crate::arrayrt::{inserted, lemma_first_where, ordered, without, ArrayRoutingTable};
use crate::cidr::Cidr;
use crate::item::{Item, OptionC};

verus! {

/// The store that a publisher was made with. It is a fact of the
/// publisher's making and stays what it is when other stores are published
/// after it; of the store that is current there is no such name.
pub uninterp spec fn first_store(publisher: Publisher) -> Seq<Item>;

/// A route store published to any number of readers.
///
/// Readers take the store that is current when they ask and keep it for as
/// long as they like; writers never touch a store that has been handed out,
/// they publish a changed copy in its place. What is current can change
/// between any two calls, also under a shared reference, so no contract
/// speaks of it: each says what holds of whichever store the call met.
///
/// The field is an `arc_swap::ArcSwap`. The verifier does not look inside:
/// it is made, read and rewritten through `from_store`, `load` and `rcu`
/// below and nowhere else.
#[verifier::external_body]
pub struct Publisher {
    current: ArcSwap<ArrayRoutingTable>,
}

impl Publisher {
    /// `ArcSwap::from_pointee`: a swappable reference that starts out
    /// holding `store`, which is thereby the first store of the publisher.
    #[verifier::external_body]
    fn from_store(store: ArrayRoutingTable) -> (p: Publisher)
        ensures
            first_store(p) == store@,
    {
        Publisher { current: ArcSwap::from_pointee(store) }
    }

    /// `ArcSwapAny::load_full`: the store that is current at the moment of
    /// the call.
    #[verifier::external_body]
    fn load(&self) -> Arc<ArrayRoutingTable> {
        self.current.load_full()
    }

    /// `ArcSwapAny::rcu`: runs `update` on the current store and publishes
    /// what it returns, again from the start whenever another writer
    /// published in between. Returns the store that the published one was
    /// made from. `update` may run any number of times, on any store.
    #[verifier::external_body]
    fn rcu<F: Fn(&ArrayRoutingTable) -> ArrayRoutingTable>(&self, update: F) -> Arc<
        ArrayRoutingTable,
    >
        requires
            forall|store: &ArrayRoutingTable| call_requires(update, (store,)),
    {
        self.current.rcu(|store| update(store))
    }

    /// A publisher whose first store is empty.
    pub fn new() -> (r: Publisher)
        ensures
            first_store(r) == Seq::<Item>::empty(),
    {
        Publisher::from_store(ArrayRoutingTable::default())
    }

    /// The current store. It stays as it is whatever is added or removed
    /// after the call.
    pub fn read(&self) -> (r: Arc<ArrayRoutingTable>)
        ensures
            ordered(r@),
    {
        let snapshot = self.load();
        proof {
            use_type_invariant(&*snapshot);
        }
        snapshot
    }

    /// Publishes the current store with `item` added.
    pub fn add(&self, item: Item) {
        let entry = &item;
        let update = |store: &ArrayRoutingTable| -> (r: ArrayRoutingTable)
            ensures
                r@ == inserted(store@, *entry),
            {
                let mut next = store.clone();
                next.add(entry.clone());
                next
            };
        self.rcu(update);
    }

    /// Publishes the current store without the first entry of network
    /// `cidr`, and returns that entry: the one that was in the store which
    /// the published one replaced.
    pub fn remove(&self, cidr: &Cidr) -> (r: Option<Item>)
        ensures
            r matches Some(item) ==> item.cidr == *cidr,
    {
        let update = |store: &ArrayRoutingTable| -> (r: ArrayRoutingTable)
            ensures
                r@ == without(store@, *cidr),
            {
                let mut next = store.clone();
                next.remove(cidr);
                next
            };
        let previous = self.rcu(update);
        proof {
            lemma_first_where(previous@, |it: Item| it.cidr == *cidr);
        }
        match previous.get(cidr) {
            Some(item) => Some(item.clone()),
            None => None,
        }
    }
}

/// What the host hands in when it creates a table, and gets back in every
/// call of its callback.
pub struct Context {}

/// A route table as its host holds it: the published store, the host's
/// context, and the callback through which the host is asked about its
/// interfaces. The table keeps the callback and never calls it.
pub struct RoutingTable<'a, F> {
    imp: Publisher,
    _ctx: &'a Context,
    _interface_info_fn: F,
}

impl<'a, F> RoutingTable<'a, F> {
    /// The publisher that holds the table's routes.
    pub closed spec fn publisher(&self) -> Publisher {
        self.imp
    }

    /// The host's context.
    pub closed spec fn context(&self) -> &'a Context {
        self._ctx
    }

    /// The host's callback.
    pub closed spec fn interface_info_fn(&self) -> F {
        self._interface_info_fn
    }
}

/// A table without routes, which keeps the context and the callback it is
/// given.
pub fn create_routing_table<'a, F>(ctx: &'a Context, interface_info_fn: F) -> (r: RoutingTable<
    'a,
    F,
>)
    ensures
        first_store(r.publisher()) == Seq::<Item>::empty(),
        r.context() == ctx,
        r.interface_info_fn() == interface_info_fn,
{
    RoutingTable { imp: Publisher::new(), _ctx: ctx, _interface_info_fn: interface_info_fn }
}

/// Adds a route. Lookups that are under way go on in the store they took.
pub fn add_route<F>(table: &RoutingTable<F>, item: Item) {
    table.imp.add(item)
}

/// Removes the first route whose network is exactly `cidr` and returns it,
/// encoded; absent when the table has no such route.
pub fn remove_route<F>(table: &RoutingTable<F>, cidr: &Cidr) -> (r: OptionC<Item>)
    ensures
        r@ matches Some(item) ==> item.cidr == *cidr,
{
    OptionC::from(table.imp.remove(cidr))
}

/// The most specific route to `to` in the current store, encoded; absent
/// when no route contains `to`. The source address `src` has no part in the
/// match.
pub fn find_route<F>(table: &RoutingTable<F>, src: u32, to: u32) -> (r: OptionC<Item>)
    ensures
        r@ matches Some(item) ==> item.cidr.covers(to),
{
    let snapshot = table.imp.read();
    proof {
        lemma_first_where(snapshot@, |it: Item| it.cidr.covers(to));
    }
    match snapshot.find(src, to) {
        Some(item) => OptionC::from(Some(item.clone())),
        None => OptionC::from(None),
    }
}

/// Ends the table's life. Stores that readers still hold live on until the
/// last of them lets go.
pub fn drop_routing_table<F>(table: RoutingTable<F>) {
}

} // verus!
