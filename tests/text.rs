use ring_sim::probe::{curl_args, ping_args, spawn_node_args};
use ring_sim::provision::{create_nat_args, create_node_args, Nat};
use ring_sim::text::{decimal_text, http_url, ipv4_text};

#[test]
fn decimal_forms() {
    assert_eq!(decimal_text(0), "0");
    assert_eq!(decimal_text(7), "7");
    assert_eq!(decimal_text(50000), "50000");
    assert_eq!(decimal_text(u64::MAX), "18446744073709551615");
}

#[test]
fn dotted_quads() {
    assert_eq!(ipv4_text(0x0A00_0001), "10.0.0.1");
    assert_eq!(ipv4_text(0xAC1F_00C8), "172.31.0.200");
    assert_eq!(ipv4_text(u32::MAX), "255.255.255.255");
    assert_eq!(http_url(0x7F00_0001, 8080), "http://127.0.0.1:8080");
}

#[test]
fn probe_arguments() {
    assert_eq!(ping_args(0x0A00_0002), vec!["-c", "5", "10.0.0.2"]);
    assert_eq!(
        curl_args(0x0A00_0002, 50000),
        vec!["-v", "--max-time", "10", "http://10.0.0.2:50000/sdp"]
    );
    assert_eq!(
        spawn_node_args("abc", 50001),
        vec![
            "run",
            "--manifest-path",
            "bns-node/Cargo.toml",
            "--",
            "run",
            "-k",
            "abc",
            "-b",
            "0.0.0.0:50001"
        ]
    );
}

#[test]
fn provisioning_arguments() {
    assert_eq!(create_nat_args(false), vec!["nind.py", "-f", "json", "create_nat"]);
    assert_eq!(
        create_nat_args(true),
        vec!["nind.py", "-f", "json", "create_nat", "--symmetric"]
    );
    let nat = Nat { lan: "lan1".to_string(), router: "router1".to_string() };
    assert_eq!(
        create_node_args(&nat, Some("50000")),
        vec!["nind.py", "-f", "json", "create_node", "-l", "lan1", "-r", "router1", "-p", "50000"]
    );
    assert_eq!(
        create_node_args(&nat, None),
        vec!["nind.py", "-f", "json", "create_node", "-l", "lan1", "-r", "router1"]
    );
}
