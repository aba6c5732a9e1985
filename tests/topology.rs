use ring_sim::topology::{BLOCK_COUNT, FIRST_PORT};
use ring_sim::{
    Ipv4Range, MachineId, NatBehavior, NatClass, NetworkId, ProcessError, SimError,
    Simulator, TopologyError,
};

fn ip(a: u8, b: u8, c: u8, d: u8) -> u32 {
    u32::from_be_bytes([a, b, c, d])
}

#[test]
fn carved_networks_are_disjoint() {
    let mut sim = Simulator::new();
    let mut ranges = Vec::new();
    for _ in 0..5 {
        let id = sim.spawn_network(None).unwrap();
        ranges.push(sim.network_range(id).unwrap());
    }
    for i in 0..ranges.len() {
        for j in 0..ranges.len() {
            if i != j {
                assert!(ranges[i].is_disjoint(&ranges[j]));
            }
        }
    }
    assert_eq!(ranges[0], Ipv4Range::new(ip(10, 0, 0, 0), 24).unwrap());
    assert_eq!(ranges[1], Ipv4Range::new(ip(10, 0, 1, 0), 24).unwrap());
}

#[test]
fn carving_skips_blocks_taken_by_given_ranges() {
    let mut sim = Simulator::new();
    let given = Ipv4Range::new(ip(10, 0, 0, 0), 23).unwrap();
    let a = sim.spawn_network(Some(given)).unwrap();
    assert_eq!(a, NetworkId(0));
    let b = sim.spawn_network(None).unwrap();
    assert_eq!(
        sim.network_range(b).unwrap(),
        Ipv4Range::new(ip(10, 0, 2, 0), 24).unwrap()
    );
}

#[test]
fn carving_exhausts_private_block() {
    let mut sim = Simulator::new();
    let all = Ipv4Range::new(ip(10, 0, 0, 0), 8).unwrap();
    sim.spawn_network(Some(all)).unwrap();
    assert_eq!(sim.spawn_network(None), Err(TopologyError::RangeExhausted));
    assert_eq!(BLOCK_COUNT, 65536);
}

#[test]
fn scenario_two_machines_in_one_network() {
    let mut sim = Simulator::new();
    let net = sim.spawn_network(None).unwrap();
    let m1 = sim.spawn_machine("node one".to_string()).unwrap();
    let m2 = sim.spawn_machine("node two".to_string()).unwrap();
    assert_eq!(sim.plug(m1, net, None), Ok(ip(10, 0, 0, 2)));
    assert_eq!(sim.plug(m2, net, None), Ok(ip(10, 0, 0, 3)));
    let a1 = sim.machine_address(m1).unwrap();
    let a2 = sim.machine_address(m2).unwrap();
    assert_ne!(a1, a2);
    let range = sim.network_range(net).unwrap();
    assert!(range.contains(a1));
    assert!(range.contains(a2));
    assert_eq!(sim.machine_network(m1), Ok(net));
    assert_eq!(sim.machine_command(m2), Ok("node two".to_string()));
}

#[test]
fn allocation_skips_given_addresses() {
    let mut sim = Simulator::new();
    let net = sim.spawn_network(None).unwrap();
    let m1 = sim.spawn_machine("a".to_string()).unwrap();
    let m2 = sim.spawn_machine("b".to_string()).unwrap();
    let m3 = sim.spawn_machine("c".to_string()).unwrap();
    assert_eq!(sim.plug(m1, net, Some(ip(10, 0, 0, 2))), Ok(ip(10, 0, 0, 2)));
    assert_eq!(sim.plug(m2, net, None), Ok(ip(10, 0, 0, 3)));
    assert_eq!(
        sim.plug(m3, net, Some(ip(10, 0, 0, 3))),
        Err(TopologyError::AddressInUse)
    );
    assert_eq!(
        sim.plug(m3, net, Some(ip(10, 0, 0, 1))),
        Err(TopologyError::AddressOutOfRange)
    );
    assert_eq!(
        sim.plug(m3, net, Some(ip(10, 0, 0, 255))),
        Err(TopologyError::AddressOutOfRange)
    );
    assert_eq!(
        sim.plug(m3, net, Some(ip(10, 0, 1, 7))),
        Err(TopologyError::AddressOutOfRange)
    );
    assert_eq!(sim.plug(m1, net, None), Err(TopologyError::AlreadyPlugged));
}

#[test]
fn full_range_is_refused() {
    let mut sim = Simulator::new();
    let net = sim
        .spawn_network(Some(Ipv4Range::new(ip(192, 168, 0, 0), 30).unwrap()))
        .unwrap();
    let m1 = sim.spawn_machine("a".to_string()).unwrap();
    let m2 = sim.spawn_machine("b".to_string()).unwrap();
    let m3 = sim.spawn_machine("c".to_string()).unwrap();
    assert_eq!(sim.plug(m1, net, None), Ok(ip(192, 168, 0, 2)));
    assert_eq!(sim.plug(m2, net, None), Err(TopologyError::RangeFull));
    assert_eq!(sim.plug(m3, net, Some(ip(192, 168, 0, 3))), Err(TopologyError::AddressOutOfRange));
    assert_eq!(sim.machine_address(m2), Err(TopologyError::Unplugged));
}

#[test]
fn unknown_ids_are_refused() {
    let mut sim = Simulator::new();
    let net = sim.spawn_network(None).unwrap();
    let m = sim.spawn_machine("a".to_string()).unwrap();
    assert_eq!(sim.plug(MachineId(9), net, None), Err(TopologyError::UnknownMachine));
    assert_eq!(sim.plug(m, NetworkId(9), None), Err(TopologyError::UnknownNetwork));
    assert_eq!(sim.machine_address(MachineId(9)), Err(TopologyError::UnknownMachine));
    assert_eq!(sim.machine_port(MachineId(9)), Err(TopologyError::UnknownMachine));
    assert_eq!(sim.network_range(NetworkId(9)), Err(TopologyError::UnknownNetwork));
    assert_eq!(
        sim.add_nat_route(NatBehavior::symmetric(), net, NetworkId(9)),
        Err(TopologyError::UnknownNetwork)
    );
    assert_eq!(sim.machine_exited(MachineId(9)), Err(TopologyError::UnknownMachine));
}

#[test]
fn ports_increase_and_run_out() {
    let mut sim = Simulator::new();
    let first = sim.spawn_machine("a".to_string()).unwrap();
    let second = sim.spawn_machine("b".to_string()).unwrap();
    assert_eq!(sim.machine_port(first), Ok(FIRST_PORT));
    assert_eq!(sim.machine_port(second), Ok(FIRST_PORT + 1));
    for _ in 2..(65536 - FIRST_PORT as usize) {
        sim.spawn_machine(String::new()).unwrap();
    }
    assert_eq!(sim.machine_port(MachineId(65535 - FIRST_PORT as usize)), Ok(65535));
    assert_eq!(sim.spawn_machine(String::new()), Err(ProcessError::SpawnFailed));
}

#[test]
fn second_route_for_a_pair_conflicts() {
    let mut sim = Simulator::new();
    let g = sim.spawn_network(None).unwrap();
    let l = sim.spawn_network(None).unwrap();
    assert_eq!(sim.add_nat_route(NatBehavior::full_cone(), g, l), Ok(ip(10, 0, 0, 2)));
    assert_eq!(
        sim.add_nat_route(NatBehavior::symmetric(), g, l),
        Err(TopologyError::RouteConflict)
    );
    assert_eq!(sim.route_behavior(g, l), Some(NatBehavior::full_cone()));
    assert_eq!(sim.route_behavior(l, g), None);
    assert_eq!(sim.add_nat_route(NatBehavior::symmetric(), l, g), Ok(ip(10, 0, 1, 2)));
}

#[test]
fn namespace_entry_is_exclusive() {
    let mut sim = Simulator::new();
    let net = sim.spawn_network(None).unwrap();
    let a = sim.spawn_node(net, "a".to_string()).unwrap();
    let b = sim.spawn_node(net, "b".to_string()).unwrap();
    assert_eq!(sim.enter_namespace(a.machine), Ok(()));
    assert_eq!(sim.enter_namespace(b.machine), Err(ProcessError::NamespaceBusy));
    assert_eq!(sim.entered(), Some(a.machine));
    assert_eq!(sim.exit_namespace(), Some(a.machine));
    assert_eq!(sim.exit_namespace(), None);
    assert_eq!(sim.enter_namespace(b.machine), Ok(()));
    assert_eq!(sim.entered(), Some(b.machine));
}

#[test]
fn exited_machine_has_no_namespace() {
    let mut sim = Simulator::new();
    let net = sim.spawn_network(None).unwrap();
    let a = sim.spawn_node(net, "a".to_string()).unwrap();
    assert_eq!(sim.machine_exited(a.machine), Ok(()));
    assert_eq!(
        sim.enter_namespace(a.machine),
        Err(ProcessError::NamespaceUnavailable)
    );
    assert_eq!(
        sim.enter_namespace(MachineId(7)),
        Err(ProcessError::NamespaceUnavailable)
    );
    assert_eq!(sim.entered(), None);
}

#[test]
fn scenario_global_and_nat_node() {
    let mut sim = Simulator::new();
    let global = sim.spawn_global_node("g".to_string()).unwrap();
    assert!(global.local_net.is_none());
    assert_eq!(global.global_net, Some(NetworkId(0)));
    assert_eq!(global.address(), ip(10, 0, 0, 2));
    assert_eq!(global.port, FIRST_PORT);

    let nat = sim.spawn_nat_node("n".to_string(), None).unwrap();
    assert_eq!(nat.global_net, Some(NetworkId(1)));
    assert_eq!(nat.local_net, Some(NetworkId(2)));
    assert_eq!(nat.address(), ip(10, 0, 2, 2));
    assert_eq!(nat.port, FIRST_PORT + 1);
    let other = sim.spawn_node(NetworkId(1), "o".to_string()).unwrap();
    assert_eq!(other.address(), ip(10, 0, 1, 3));
    let behavior = sim.route_behavior(NetworkId(1), NetworkId(2)).unwrap();
    assert_eq!(behavior, NatBehavior::symmetric());
    assert_eq!(behavior.classify(), Some(NatClass::Symmetric));
    assert_eq!(sim.machine_network(nat.machine), Ok(NetworkId(2)));
}

#[test]
fn nat_node_behavior_can_be_chosen() {
    let mut sim = Simulator::new();
    let prc = NatClass::PortRestrictedCone.behavior();
    let node = sim.spawn_nat_node("n".to_string(), Some(prc)).unwrap();
    let b = sim
        .route_behavior(node.global_net.unwrap(), node.local_net.unwrap())
        .unwrap();
    assert_eq!(b.classify(), Some(NatClass::PortRestrictedCone));
}

#[test]
fn nat_node_needs_two_blocks() {
    let mut sim = Simulator::new();
    let most = Ipv4Range::new(ip(10, 0, 0, 0), 9).unwrap();
    let upper = Ipv4Range::new(ip(10, 128, 0, 0), 10).unwrap();
    let next = Ipv4Range::new(ip(10, 192, 0, 0), 11).unwrap();
    let rest = Ipv4Range::new(ip(10, 224, 0, 0), 12).unwrap();
    sim.spawn_network(Some(most)).unwrap();
    sim.spawn_network(Some(upper)).unwrap();
    sim.spawn_network(Some(next)).unwrap();
    sim.spawn_network(Some(rest)).unwrap();
    let rest2 = Ipv4Range::new(ip(10, 240, 0, 0), 13).unwrap();
    let rest3 = Ipv4Range::new(ip(10, 248, 0, 0), 14).unwrap();
    let rest4 = Ipv4Range::new(ip(10, 252, 0, 0), 15).unwrap();
    let rest5 = Ipv4Range::new(ip(10, 254, 0, 0), 16).unwrap();
    let rest6 = Ipv4Range::new(ip(10, 255, 0, 0), 17).unwrap();
    let rest7 = Ipv4Range::new(ip(10, 255, 128, 0), 18).unwrap();
    let rest8 = Ipv4Range::new(ip(10, 255, 192, 0), 19).unwrap();
    let rest9 = Ipv4Range::new(ip(10, 255, 224, 0), 20).unwrap();
    let rest10 = Ipv4Range::new(ip(10, 255, 240, 0), 21).unwrap();
    let rest11 = Ipv4Range::new(ip(10, 255, 248, 0), 22).unwrap();
    let rest12 = Ipv4Range::new(ip(10, 255, 252, 0), 23).unwrap();
    let rest13 = Ipv4Range::new(ip(10, 255, 254, 0), 24).unwrap();
    for r in [rest2, rest3, rest4, rest5, rest6, rest7, rest8, rest9, rest10, rest11, rest12, rest13] {
        sim.spawn_network(Some(r)).unwrap();
    }
    // One block, 10.255.255.0/24, is left: a NAT node needs two.
    assert_eq!(
        sim.spawn_nat_node("n".to_string(), None),
        Err(SimError::Topology(TopologyError::RangeExhausted))
    );
    let g = sim.spawn_global_node("g".to_string()).unwrap();
    assert_eq!(g.address(), ip(10, 255, 255, 2));
    assert_eq!(
        sim.spawn_global_node("h".to_string()),
        Err(SimError::Topology(TopologyError::RangeExhausted))
    );
}

#[test]
fn spawn_node_errors() {
    let mut sim = Simulator::new();
    assert_eq!(
        sim.spawn_node(NetworkId(0), "a".to_string()),
        Err(SimError::Topology(TopologyError::UnknownNetwork))
    );
    let tiny = sim
        .spawn_network(Some(Ipv4Range::new(ip(172, 16, 0, 0), 31).unwrap()))
        .unwrap();
    assert_eq!(
        sim.spawn_node(tiny, "a".to_string()),
        Err(SimError::Topology(TopologyError::RangeFull))
    );
}

#[test]
fn endpoint_url_of_node() {
    let mut sim = Simulator::new();
    let node = sim.spawn_global_node("g".to_string()).unwrap();
    assert_eq!(node.endpoint_url(), "http://10.0.0.2:50000");
}

#[test]
fn next_port_tracks_machines() {
    let mut sim = Simulator::new();
    assert_eq!(sim.next_port(), Some(FIRST_PORT));
    let m = sim.spawn_machine("a".to_string()).unwrap();
    assert_eq!(sim.machine_port(m), Ok(FIRST_PORT));
    assert_eq!(sim.next_port(), Some(FIRST_PORT + 1));
}

#[test]
fn node_enters_its_namespace() {
    let mut sim = Simulator::new();
    let node = sim.spawn_global_node("g".to_string()).unwrap();
    assert_eq!(node.enter_namespace(&mut sim), Ok(()));
    assert_eq!(node.enter_namespace(&mut sim), Err(ProcessError::NamespaceBusy));
    assert_eq!(sim.entered(), Some(node.machine));
}

#[test]
fn nat_address_is_reserved() {
    let mut sim = Simulator::new();
    let g = sim.spawn_network(None).unwrap();
    let l = sim.spawn_network(None).unwrap();
    let m = sim.spawn_machine("a".to_string()).unwrap();
    assert_eq!(sim.add_nat_route(NatBehavior::symmetric(), g, l), Ok(ip(10, 0, 0, 2)));
    assert_eq!(sim.plug(m, g, Some(ip(10, 0, 0, 2))), Err(TopologyError::AddressInUse));
    assert_eq!(sim.plug(m, g, None), Ok(ip(10, 0, 0, 3)));
    assert_eq!(sim.route(g, l).map(|r| r.public_addr), Some(ip(10, 0, 0, 2)));
    assert_eq!(sim.route(l, g), None);
    assert_eq!(sim.network_count(), 2);
}

#[test]
fn route_into_full_network_is_refused() {
    let mut sim = Simulator::new();
    let g = sim
        .spawn_network(Some(Ipv4Range::new(ip(192, 168, 0, 0), 30).unwrap()))
        .unwrap();
    let l1 = sim.spawn_network(None).unwrap();
    let l2 = sim.spawn_network(None).unwrap();
    assert_eq!(sim.add_nat_route(NatBehavior::full_cone(), g, l1), Ok(ip(192, 168, 0, 2)));
    assert_eq!(
        sim.add_nat_route(NatBehavior::full_cone(), g, l2),
        Err(TopologyError::RangeFull)
    );
    assert_eq!(sim.route_behavior(g, l2), None);
}
