use routing_table::{ArrayRoutingTable, Cidr, Extend, Item, ItemKind, OptionC};

fn ip4(a: u8, b: u8, c: u8, d: u8) -> u32 {
    u32::from_be_bytes([a, b, c, d])
}

fn net(a: u8, b: u8, c: u8, d: u8, prefix_len: u8) -> Cidr {
    Cidr::new(ip4(a, b, c, d), prefix_len).unwrap()
}

fn route(cidr: Cidr, gateway: u32) -> Item {
    Item { cidr, gateway, interface_index: 0, extend: Extend { item_kind: OptionC::from(None) } }
}

fn gateways(store: &ArrayRoutingTable) -> Vec<u32> {
    store.entries().iter().map(|item| item.gateway).collect()
}

fn prefix_lengths(store: &ArrayRoutingTable) -> Vec<u8> {
    store.entries().iter().map(|item| item.cidr.prefix_len()).collect()
}

fn is_non_increasing(lengths: &[u8]) -> bool {
    lengths.windows(2).all(|pair| pair[0] >= pair[1])
}

const GATEWAY_A: u32 = 0x0a00_0001;
const GATEWAY_B: u32 = 0x0a01_0001;

#[test]
fn longer_prefix_wins_until_it_is_removed() {
    let mut store = ArrayRoutingTable::default();
    store.add(route(net(10, 0, 0, 0, 8), GATEWAY_A));
    store.add(route(net(10, 1, 0, 0, 16), GATEWAY_B));
    assert_eq!(store.find(0, ip4(10, 1, 2, 3)).unwrap().gateway, GATEWAY_B);
    assert_eq!(store.find(0, ip4(10, 2, 2, 3)).unwrap().gateway, GATEWAY_A);
    let removed = store.remove(&net(10, 1, 0, 0, 16)).unwrap();
    assert_eq!(removed.gateway, GATEWAY_B);
    assert_eq!(removed.cidr, net(10, 1, 0, 0, 16));
    assert_eq!(store.find(0, ip4(10, 1, 2, 3)).unwrap().gateway, GATEWAY_A);
}

#[test]
fn longer_prefix_wins_whatever_the_order_of_adding() {
    let mut store = ArrayRoutingTable::default();
    store.add(route(net(10, 1, 0, 0, 16), GATEWAY_B));
    store.add(route(net(10, 0, 0, 0, 8), GATEWAY_A));
    assert_eq!(store.find(0, ip4(10, 1, 2, 3)).unwrap().gateway, GATEWAY_B);
    assert_eq!(store.find(0, ip4(10, 2, 2, 3)).unwrap().gateway, GATEWAY_A);
    assert_eq!(gateways(&store), vec![GATEWAY_B, GATEWAY_A]);
}

#[test]
fn empty_store_has_no_route_and_nothing_to_remove() {
    let mut store = ArrayRoutingTable::default();
    assert!(store.find(0, 0).is_none());
    assert!(store.find(0, ip4(10, 1, 2, 3)).is_none());
    assert!(store.find(0, u32::MAX).is_none());
    assert!(store.remove(&net(10, 0, 0, 0, 8)).is_none());
    assert!(store.remove(&net(0, 0, 0, 0, 0)).is_none());
    assert!(store.get(&net(10, 0, 0, 0, 8)).is_none());
    assert!(store.entries().is_empty());
}

#[test]
fn entries_stay_ordered_through_adds_and_removes() {
    let mut store = ArrayRoutingTable::default();
    let lengths = [24u8, 8, 32, 0, 16, 24, 8, 31, 1, 16, 32, 0];
    for (n, prefix_len) in lengths.iter().enumerate() {
        store.add(route(net(10, n as u8, 0, 0, *prefix_len), n as u32));
        assert!(is_non_increasing(&prefix_lengths(&store)));
    }
    assert_eq!(prefix_lengths(&store), vec![32, 32, 31, 24, 24, 16, 16, 8, 8, 1, 0, 0]);
    for n in [4usize, 0, 11, 2, 7] {
        let removed = store.remove(&net(10, n as u8, 0, 0, lengths[n])).unwrap();
        assert_eq!(removed.gateway, n as u32);
        assert!(is_non_increasing(&prefix_lengths(&store)));
    }
    assert_eq!(prefix_lengths(&store), vec![32, 24, 16, 8, 8, 1, 0]);
    assert_eq!(gateways(&store), vec![10, 5, 9, 1, 6, 8, 3]);
}

#[test]
fn add_goes_before_the_first_shorter_entry() {
    let mut store = ArrayRoutingTable::default();
    store.add(route(net(10, 0, 0, 0, 8), 1));
    store.add(route(net(10, 1, 0, 0, 24), 2));
    store.add(route(net(10, 2, 0, 0, 16), 3));
    assert_eq!(gateways(&store), vec![2, 3, 1]);
    store.add(route(net(10, 3, 0, 0, 4), 4));
    assert_eq!(gateways(&store), vec![2, 3, 1, 4]);
    store.add(route(net(10, 4, 0, 0, 32), 5));
    assert_eq!(gateways(&store), vec![5, 2, 3, 1, 4]);
}

#[test]
fn equal_lengths_keep_the_order_of_adding() {
    let mut store = ArrayRoutingTable::default();
    store.add(route(net(10, 1, 0, 0, 16), 1));
    store.add(route(net(10, 2, 0, 0, 16), 2));
    store.add(route(net(10, 0, 0, 0, 8), 3));
    store.add(route(net(10, 3, 0, 0, 16), 4));
    store.add(route(net(11, 0, 0, 0, 8), 5));
    assert_eq!(gateways(&store), vec![1, 2, 4, 3, 5]);
}

#[test]
fn same_network_twice_keeps_both_and_finds_the_first() {
    let mut store = ArrayRoutingTable::default();
    store.add(route(net(10, 0, 0, 0, 8), GATEWAY_A));
    store.add(route(net(10, 0, 0, 0, 8), GATEWAY_B));
    assert_eq!(gateways(&store), vec![GATEWAY_A, GATEWAY_B]);
    assert_eq!(store.find(0, ip4(10, 1, 2, 3)).unwrap().gateway, GATEWAY_A);
    assert_eq!(store.get(&net(10, 0, 0, 0, 8)).unwrap().gateway, GATEWAY_A);
    assert_eq!(store.remove(&net(10, 0, 0, 0, 8)).unwrap().gateway, GATEWAY_A);
    assert_eq!(gateways(&store), vec![GATEWAY_B]);
    assert_eq!(store.find(0, ip4(10, 1, 2, 3)).unwrap().gateway, GATEWAY_B);
    assert_eq!(store.remove(&net(10, 0, 0, 0, 8)).unwrap().gateway, GATEWAY_B);
    assert!(store.remove(&net(10, 0, 0, 0, 8)).is_none());
    assert!(store.find(0, ip4(10, 1, 2, 3)).is_none());
}

#[test]
fn added_route_is_found_for_an_address_inside_it() {
    let mut store = ArrayRoutingTable::default();
    store.add(route(net(0, 0, 0, 0, 0), 1));
    store.add(route(net(192, 168, 0, 0, 16), 2));
    store.add(route(net(172, 16, 5, 0, 24), 3));
    let entry = Item {
        cidr: net(192, 168, 7, 0, 24),
        gateway: 4,
        interface_index: 9,
        extend: Extend { item_kind: OptionC::from(Some(ItemKind::AllowedIpsRoute)) },
    };
    store.add(entry.clone());
    let found = store.find(0, ip4(192, 168, 7, 200)).unwrap();
    assert_eq!(found.cidr, entry.cidr);
    assert_eq!(found.gateway, 4);
    assert_eq!(found.interface_index, 9);
    assert_eq!(Option::from(found.extend.item_kind.clone()), Some(ItemKind::AllowedIpsRoute));
}

#[test]
fn route_of_equal_length_added_earlier_is_found_first() {
    let mut store = ArrayRoutingTable::default();
    store.add(route(net(10, 0, 0, 0, 8), GATEWAY_A));
    store.add(route(net(10, 200, 0, 0, 8), GATEWAY_B));
    assert_eq!(store.find(0, ip4(10, 1, 2, 3)).unwrap().gateway, GATEWAY_A);
}

#[test]
fn removing_an_absent_network_changes_nothing() {
    let mut store = ArrayRoutingTable::default();
    store.add(route(net(10, 0, 0, 0, 8), 1));
    store.add(route(net(10, 1, 0, 0, 16), 2));
    assert!(store.remove(&net(10, 2, 0, 0, 16)).is_none());
    assert!(store.remove(&net(10, 0, 0, 0, 9)).is_none());
    assert!(store.remove(&net(10, 1, 0, 0, 8)).is_none());
    assert!(store.remove(&net(10, 0, 0, 1, 8)).is_none());
    assert_eq!(gateways(&store), vec![2, 1]);
}

#[test]
fn removed_entry_is_the_one_that_was_added() {
    let mut store = ArrayRoutingTable::default();
    store.add(route(net(10, 0, 0, 0, 8), 1));
    store.add(Item {
        cidr: net(10, 1, 0, 0, 16),
        gateway: 77,
        interface_index: 5,
        extend: Extend { item_kind: OptionC::from(Some(ItemKind::VirtualRange)) },
    });
    let removed = store.remove(&net(10, 1, 0, 0, 16)).unwrap();
    assert_eq!(removed.cidr, net(10, 1, 0, 0, 16));
    assert_eq!(removed.gateway, 77);
    assert_eq!(removed.interface_index, 5);
    assert_eq!(Option::from(removed.extend.item_kind), Some(ItemKind::VirtualRange));
}

#[test]
fn address_covered_by_the_removed_route_only_has_no_route_afterwards() {
    let mut store = ArrayRoutingTable::default();
    store.add(route(net(10, 0, 0, 0, 8), 1));
    store.add(route(net(192, 168, 0, 0, 16), 2));
    assert_eq!(store.find(0, ip4(192, 168, 3, 4)).unwrap().gateway, 2);
    assert_eq!(store.remove(&net(192, 168, 0, 0, 16)).unwrap().gateway, 2);
    assert!(store.find(0, ip4(192, 168, 3, 4)).is_none());
    assert_eq!(store.find(0, ip4(10, 3, 4, 5)).unwrap().gateway, 1);
}

#[test]
fn remove_compares_the_address_as_given() {
    let mut store = ArrayRoutingTable::default();
    store.add(route(net(10, 1, 2, 3, 8), 1));
    assert!(store.remove(&net(10, 0, 0, 0, 8)).is_none());
    assert_eq!(store.find(0, ip4(10, 9, 9, 9)).unwrap().gateway, 1);
    assert_eq!(store.remove(&net(10, 1, 2, 3, 8)).unwrap().gateway, 1);
    assert!(store.entries().is_empty());
}

#[test]
fn find_takes_the_longest_of_many() {
    let mut store = ArrayRoutingTable::default();
    store.add(route(net(0, 0, 0, 0, 0), 1));
    store.add(route(net(10, 0, 0, 0, 8), 2));
    store.add(route(net(10, 1, 0, 0, 16), 3));
    store.add(route(net(10, 1, 2, 0, 24), 4));
    store.add(route(net(10, 1, 2, 3, 32), 5));
    assert_eq!(store.find(0, ip4(10, 1, 2, 3)).unwrap().gateway, 5);
    assert_eq!(store.find(0, ip4(10, 1, 2, 4)).unwrap().gateway, 4);
    assert_eq!(store.find(0, ip4(10, 1, 3, 4)).unwrap().gateway, 3);
    assert_eq!(store.find(0, ip4(10, 2, 3, 4)).unwrap().gateway, 2);
    assert_eq!(store.find(0, ip4(11, 2, 3, 4)).unwrap().gateway, 1);
}

#[test]
fn find_returns_none_when_no_entry_contains_the_address() {
    let mut store = ArrayRoutingTable::default();
    store.add(route(net(10, 0, 0, 0, 8), 1));
    store.add(route(net(192, 168, 0, 0, 16), 2));
    assert!(store.find(0, ip4(11, 0, 0, 0)).is_none());
    assert!(store.find(0, ip4(192, 169, 0, 0)).is_none());
    assert!(store.find(0, 0).is_none());
}

#[test]
fn source_address_has_no_part_in_the_match() {
    let mut store = ArrayRoutingTable::default();
    store.add(route(net(10, 0, 0, 0, 8), 1));
    for src in [0, ip4(10, 0, 0, 1), ip4(192, 168, 0, 1), u32::MAX] {
        assert_eq!(store.find(src, ip4(10, 1, 2, 3)).unwrap().gateway, 1);
        assert!(store.find(src, ip4(11, 1, 2, 3)).is_none());
    }
}

#[test]
fn get_returns_the_entry_that_remove_takes() {
    let mut store = ArrayRoutingTable::default();
    store.add(route(net(10, 0, 0, 0, 8), 1));
    store.add(route(net(10, 1, 0, 0, 16), 2));
    assert_eq!(store.get(&net(10, 0, 0, 0, 8)).unwrap().gateway, 1);
    assert!(store.get(&net(10, 0, 0, 0, 16)).is_none());
    assert_eq!(gateways(&store), vec![2, 1]);
    assert_eq!(store.remove(&net(10, 0, 0, 0, 8)).unwrap().gateway, 1);
    assert!(store.get(&net(10, 0, 0, 0, 8)).is_none());
}

#[test]
fn clone_is_a_store_of_its_own() {
    let mut store = ArrayRoutingTable::default();
    store.add(route(net(10, 0, 0, 0, 8), 1));
    let mut copy = store.clone();
    copy.add(route(net(10, 1, 0, 0, 16), 2));
    assert_eq!(gateways(&store), vec![1]);
    assert_eq!(gateways(&copy), vec![2, 1]);
    store.remove(&net(10, 0, 0, 0, 8));
    assert!(store.entries().is_empty());
    assert_eq!(gateways(&copy), vec![2, 1]);
}
