//! Route entries and the optional value they carry.

use vstd::prelude::*;
use vstd::std_specs::convert::FromSpecImpl;

use crate::cidr::Cidr;

verus! {

/// Where a route came from.
#[derive(Copy, Clone, Debug, PartialEq, Eq, Structural)]
pub enum ItemKind {
    VirtualRange,
    IpsRoute,
    AllowedIpsRoute,
}

/// An optional `T` as a presence flag followed by storage for one `T`.
///
/// The storage holds a value exactly when the flag is set, so that no value
/// of `T` has to stand for absence: zero is an address like any other. A
/// reader checks the flag first and touches the storage only when it is
/// set.
#[derive(Debug)]
pub struct OptionC<T> {
    is_some: bool,
    value: Option<T>,
}

impl<T> OptionC<T> {
    #[verifier::type_invariant]
    spec fn valid(self) -> bool {
        self.is_some == self.value.is_some()
    }

    /// The optional value that the encoding stands for.
    pub closed spec fn view(&self) -> Option<T> {
        self.value
    }

    /// The encoding of `v`.
    pub closed spec fn encode(v: Option<T>) -> Self {
        OptionC { is_some: v.is_some(), value: v }
    }

    /// An encoding stands for the value it was made from, and a value has
    /// one encoding only.
    pub proof fn lemma_encode_view(v: Option<T>)
        ensures
            Self::encode(v)@ == v,
            forall|w: Option<T>| Self::encode(w) == Self::encode(v) ==> w == v,
    {
        assert forall|w: Option<T>| Self::encode(w) == Self::encode(v) implies w == v by {
            assert(Self::encode(w).value == w);
        }
    }

    /// The presence flag.
    pub fn is_some(&self) -> (r: bool)
        ensures
            r == self@.is_some(),
    {
        proof {
            use_type_invariant(self);
        }
        self.is_some
    }
}

impl<T> From<Option<T>> for OptionC<T> {
    /// Encodes: the flag says whether there is a value, the storage holds
    /// it.
    fn from(value: Option<T>) -> (r: Self)
        ensures
            r@ == value,
    {
        match value {
            None => OptionC { is_some: false, value: None },
            Some(v) => OptionC { is_some: true, value: Some(v) },
        }
    }
}

impl<T> FromSpecImpl<Option<T>> for OptionC<T> {
    open spec fn obeys_from_spec() -> bool {
        true
    }

    open spec fn from_spec(v: Option<T>) -> Self {
        OptionC::encode(v)
    }
}

impl<T> From<OptionC<T>> for Option<T> {
    /// Decodes: the storage is read when the flag is set, and only then.
    fn from(value: OptionC<T>) -> (r: Self)
        ensures
            r == value@,
    {
        proof {
            use_type_invariant(&value);
        }
        if value.is_some {
            Some(value.value.unwrap())
        } else {
            None
        }
    }
}

impl<T> FromSpecImpl<OptionC<T>> for Option<T> {
    open spec fn obeys_from_spec() -> bool {
        true
    }

    open spec fn from_spec(v: OptionC<T>) -> Self {
        v@
    }
}

impl<T: Copy> Clone for OptionC<T> {
    fn clone(&self) -> (r: Self)
        ensures
            r == *self,
    {
        proof {
            use_type_invariant(self);
        }
        OptionC { is_some: self.is_some, value: self.value }
    }
}

/// The optional fields of a route entry.
#[derive(Debug)]
pub struct Extend {
    pub item_kind: OptionC<ItemKind>,
}

impl Clone for Extend {
    fn clone(&self) -> (r: Self)
        ensures
            r == *self,
    {
        Extend { item_kind: self.item_kind.clone() }
    }
}

/// One route: the network it serves, the gateway to forward to, the egress
/// interface, and the optional fields.
#[derive(Debug)]
pub struct Item {
    pub cidr: Cidr,
    pub gateway: u32,
    pub interface_index: usize,
    pub extend: Extend,
}

impl Clone for Item {
    fn clone(&self) -> (r: Self)
        ensures
            r == *self,
    {
        Item {
            cidr: self.cidr,
            gateway: self.gateway,
            interface_index: self.interface_index,
            extend: self.extend.clone(),
        }
    }
}

} // verus!
