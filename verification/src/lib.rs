//! An IPv4 route table: an ordered store answering longest-prefix-match
//! queries, published to lock-free readers as immutable snapshots.

pub mod arrayrt;
pub mod cidr;
pub mod item;
pub mod table;

pub use crate::arrayrt::ArrayRoutingTable;
pub use crate::cidr::Cidr;
pub use crate::item::{Extend, Item, ItemKind, OptionC};
pub use crate::table::{
    add_route, create_routing_table, drop_routing_table, find_route, remove_route, Context,
    Publisher, RoutingTable,
};
