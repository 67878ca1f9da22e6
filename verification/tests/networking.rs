use netwolf::networking::{
    check_clients, delay_to_avoid_surfers, ip_port_string, localhost, next_bind_port, node_at,
    node_of_packet, random_data_port, update_client_number, update_nodes, ClientCounter, Ipv4,
    BUF_SIZE, CONGESTION_DELAY_MS, DISCOVERY_INTERVAL_MS, MAX_DATA_CLIENTS, PORT_MAX, PORT_MIN,
    UDP_GET_PORT,
};
use netwolf::node::Node;
use netwolf::registry::Registry;

fn node(name: &str, ip: &str, port: u16) -> Node {
    Node::new(name, ip, port).unwrap()
}

fn counters(nodes: &Registry) -> Vec<(String, u16)> {
    nodes.snapshot().iter().map(|n| (n.to_string(), n.prior_communications)).collect()
}

#[test]
fn constants_are_the_defaults() {
    assert_eq!(CONGESTION_DELAY_MS, 500);
    assert_eq!(UDP_GET_PORT, 3222);
    assert_eq!(DISCOVERY_INTERVAL_MS, 1000);
    assert_eq!(BUF_SIZE, 8192);
    assert_eq!(MAX_DATA_CLIENTS, 3);
    assert_eq!(PORT_MIN, 2000);
    assert_eq!(PORT_MAX, 5000);
    assert_eq!(localhost(), Ipv4::new(127, 0, 0, 1));
}

#[test]
fn delay_is_zero_on_the_first_exchange_only() {
    assert_eq!(delay_to_avoid_surfers(0), 0);
    assert_eq!(delay_to_avoid_surfers(1), 500);
    assert_eq!(delay_to_avoid_surfers(2), 500);
    assert_eq!(delay_to_avoid_surfers(65535), 500);
}

#[test]
fn socket_address_text() {
    assert_eq!(ip_port_string(Ipv4::new(127, 0, 0, 1), 3222), "127.0.0.1:3222");
    assert_eq!(ip_port_string(Ipv4::new(0, 0, 0, 0), 0), "0.0.0.0:0");
    assert_eq!(ip_port_string(Ipv4::new(255, 255, 255, 255), 65535), "255.255.255.255:65535");
}

#[test]
fn random_data_port_is_in_range() {
    let mut seen = Vec::new();
    for _ in 0..200 {
        let port = random_data_port();
        assert!(PORT_MIN <= port && port < PORT_MAX);
        seen.push(port);
    }
    seen.sort();
    seen.dedup();
    assert!(seen.len() > 1);
}

#[test]
fn next_bind_port_stops_at_the_end_of_the_range() {
    assert_eq!(next_bind_port(3222), Some(3223));
    assert_eq!(next_bind_port(0), Some(1));
    assert_eq!(next_bind_port(4998), Some(4999));
    assert_eq!(next_bind_port(4999), None);
    assert_eq!(next_bind_port(5000), None);
    assert_eq!(next_bind_port(65535), None);
}

#[test]
fn upsert_inserts_with_zero_and_then_counts() {
    let mut nodes = Registry::new();
    assert_eq!(nodes.upsert(node("alice", "127.0.0.1", 3222)), 0);
    assert_eq!(counters(&nodes), vec![("alice 127.0.0.1 3222".to_string(), 0)]);
    assert_eq!(nodes.upsert(node("alice", "127.0.0.1", 3222)), 1);
    assert_eq!(nodes.upsert(node("alice", "127.0.0.1", 3222)), 2);
    assert_eq!(nodes.upsert(node("bob", "127.0.0.1", 3223)), 0);
    assert_eq!(
        counters(&nodes),
        vec![("alice 127.0.0.1 3222".to_string(), 2), ("bob 127.0.0.1 3223".to_string(), 0)]
    );
}

#[test]
fn upsert_replaces_the_record_and_keeps_the_place() {
    let mut nodes = Registry::new();
    nodes.upsert(node("alice", "127.0.0.1", 3222));
    nodes.upsert(node("bob", "127.0.0.1", 3223));
    let mut renamed = node("alicia", "127.0.0.1", 3222);
    renamed.prior_communications = 40;
    assert_eq!(nodes.upsert(renamed), 1);
    assert_eq!(
        counters(&nodes),
        vec![("alicia 127.0.0.1 3222".to_string(), 1), ("bob 127.0.0.1 3223".to_string(), 0)]
    );
}

#[test]
fn counter_stops_at_its_largest_value() {
    let mut nodes = Registry::new();
    let mut worn = node("alice", "127.0.0.1", 3222);
    worn.prior_communications = 65534;
    nodes.insert_if_absent(worn);
    assert_eq!(nodes.upsert(node("alice", "127.0.0.1", 3222)), 65535);
    assert_eq!(nodes.upsert(node("alice", "127.0.0.1", 3222)), 65535);
    assert_eq!(counters(&nodes), vec![("alice 127.0.0.1 3222".to_string(), 65535)]);
}

#[test]
fn update_nodes_counts_each_exchange_once() {
    let mut nodes = Registry::new();
    nodes.insert_if_absent(node("carol", "10.0.0.3", 3222));
    let mut last = 0;
    for expected in 1..=10u16 {
        let before = counters(&nodes);
        let count = update_nodes(node("carol", "10.0.0.3", 3222), &mut nodes);
        assert_eq!(count, expected);
        assert_eq!(count, last + 1);
        assert_eq!(counters(&nodes)[0].1, before[0].1 + 1);
        last = count;
    }
    assert_eq!(nodes.len(), 1);
}

#[test]
fn registry_lookups() {
    let mut nodes = Registry::new();
    nodes.upsert(node("alice", "127.0.0.1", 3222));
    nodes.upsert(node("bob", "127.0.0.1", 3223));
    nodes.upsert(node("bob", "127.0.0.1", 3223));
    assert_eq!(nodes.len(), 2);
    assert_eq!(nodes.get(1).name, "bob");
    assert_eq!(nodes.position(Ipv4::new(127, 0, 0, 1), 3223), Some(1));
    assert_eq!(nodes.position(Ipv4::new(127, 0, 0, 1), 3224), None);
    assert_eq!(nodes.prior_comms(Ipv4::new(127, 0, 0, 1), 3222), Some(0));
    assert_eq!(nodes.prior_comms(Ipv4::new(127, 0, 0, 1), 3223), Some(1));
    assert_eq!(nodes.prior_comms(Ipv4::new(127, 0, 0, 2), 3223), None);
    assert!(nodes.contains("127.0.0.1:3222"));
    assert!(nodes.contains("127.0.0.1:3223"));
    assert!(!nodes.contains("127.0.0.1:3224"));
    assert!(!nodes.contains("127.0.0.1"));
    assert!(!nodes.contains("+127.0.0.1:3222"));
}

#[test]
fn insert_if_absent_keeps_what_is_known() {
    let mut nodes = Registry::new();
    assert!(nodes.insert_if_absent(node("alice", "127.0.0.1", 3222)));
    nodes.upsert(node("alice", "127.0.0.1", 3222));
    assert!(!nodes.insert_if_absent(node("impostor", "127.0.0.1", 3222)));
    assert_eq!(counters(&nodes), vec![("alice 127.0.0.1 3222".to_string(), 1)]);
}

#[test]
fn merge_leaves_out_the_own_address_and_known_peers() {
    let mut nodes = Registry::new();
    nodes.upsert(node("alice", "127.0.0.1", 3222));
    nodes.upsert(node("alice", "127.0.0.1", 3222));
    let incoming = vec![
        node("me", "127.0.0.1", 4000),
        node("alias", "127.0.0.1", 3222),
        node("bob", "127.0.0.1", 3223),
        node("bobby", "127.0.0.1", 3223),
        node("carol", "127.0.0.2", 4000),
    ];
    nodes.merge(&incoming, Some((Ipv4::new(127, 0, 0, 1), 4000)));
    assert_eq!(
        counters(&nodes),
        vec![
            ("alice 127.0.0.1 3222".to_string(), 1),
            ("bob 127.0.0.1 3223".to_string(), 0),
            ("carol 127.0.0.2 4000".to_string(), 0),
        ]
    );
    nodes.merge(&incoming, None);
    assert_eq!(nodes.len(), 4);
    assert_eq!(counters(&nodes)[3], ("me 127.0.0.1 4000".to_string(), 0));
}

#[test]
fn snapshot_is_a_copy() {
    let mut nodes = Registry::new();
    nodes.upsert(node("alice", "127.0.0.1", 3222));
    let before = nodes.snapshot();
    nodes.upsert(node("alice", "127.0.0.1", 3222));
    nodes.upsert(node("bob", "127.0.0.1", 3223));
    assert_eq!(before.len(), 1);
    assert_eq!(before[0].prior_communications, 0);
    assert_eq!(nodes.snapshot().len(), 2);
}

#[test]
fn node_of_packet_finds_known_peers() {
    let mut nodes = Registry::new();
    nodes.upsert(node("alice", "127.0.0.1", 3222));
    nodes.upsert(node("alice", "127.0.0.1", 3222));
    let (found, was_sneaky) = node_of_packet(&nodes, "127.0.0.1:3222").unwrap();
    assert!(!was_sneaky);
    assert_eq!(found.name, "alice");
    assert_eq!(found.prior_communications, 1);
    assert_eq!(nodes.len(), 1);
}

#[test]
fn node_of_packet_names_unknown_peers() {
    let nodes = Registry::new();
    let (found, was_sneaky) = node_of_packet(&nodes, "10.9.8.7:2100").unwrap();
    assert!(was_sneaky);
    assert!(found.name.starts_with("Sneaky-"));
    assert_eq!(found.name.len(), 15);
    assert_eq!(found.ip, Ipv4::new(10, 9, 8, 7));
    assert_eq!(found.port, 2100);
    assert_eq!(found.prior_communications, 0);
    assert_eq!(nodes.len(), 0);
    assert!(node_of_packet(&nodes, "not an address").is_none());
    assert!(node_of_packet(&nodes, "[::1]:3222").is_none());
    let (again, was_sneaky) = node_at(&nodes, Ipv4::new(10, 9, 8, 7), 2100);
    assert!(was_sneaky);
    assert_eq!(again.port, 2100);
}

#[test]
fn check_clients_admits_and_counts() {
    let mut nodes = Registry::new();
    let ip = Ipv4::new(10, 9, 8, 7);
    assert_eq!(check_clients(ip, 2100, &mut nodes), (true, 0));
    assert_eq!(nodes.len(), 1);
    assert!(nodes.get(0).name.starts_with("Sneaky-"));
    let name = nodes.get(0).name.clone();
    assert_eq!(check_clients(ip, 2100, &mut nodes), (false, 1));
    assert_eq!(check_clients(ip, 2100, &mut nodes), (false, 2));
    assert_eq!(nodes.len(), 1);
    assert_eq!(nodes.get(0).name, name);
    assert_eq!(nodes.get(0).prior_communications, 2);
    assert_eq!(check_clients(ip, 2101, &mut nodes), (true, 0));
    assert_eq!(nodes.len(), 2);
    assert_eq!(nodes.get(0).prior_communications, 2);
}

#[test]
fn client_count_never_exceeds_the_limit() {
    let mut counter = ClientCounter::new(MAX_DATA_CLIENTS);
    assert_eq!(counter.current(), 0);
    assert!(counter.has_room());
    assert!(update_client_number(&mut counter, true));
    assert!(update_client_number(&mut counter, true));
    assert!(counter.has_room());
    assert!(update_client_number(&mut counter, true));
    assert_eq!(counter.current(), 3);
    assert!(!counter.has_room());
    for _ in 0..10 {
        assert!(!update_client_number(&mut counter, true));
        assert_eq!(counter.current(), 3);
    }
    assert!(update_client_number(&mut counter, false));
    assert_eq!(counter.current(), 2);
    assert!(counter.has_room());
    assert!(update_client_number(&mut counter, true));
    assert_eq!(counter.current(), 3);
}

#[test]
fn client_count_never_falls_below_zero() {
    let mut counter = ClientCounter::new(2);
    assert!(!update_client_number(&mut counter, false));
    assert_eq!(counter.current(), 0);
    assert!(update_client_number(&mut counter, true));
    assert!(update_client_number(&mut counter, false));
    assert!(!update_client_number(&mut counter, false));
    assert_eq!(counter.current(), 0);
    let mut none = ClientCounter::new(0);
    assert!(!none.has_room());
    assert!(!update_client_number(&mut none, true));
    assert_eq!(none.current(), 0);
}
