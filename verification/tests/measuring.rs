//! Taking the measurements: the local address, the servers and the edges.

use drt::addr::{IpAddr, SocketAddr};
use drt::netcheck::{
    agreed_address, edge_answer, enough_servers, local_and_udp, routable_v6, EdgeAnswer,
    MappingReport, Measurements, Reflection, UdpMapping,
};

fn ip(last: u8) -> IpAddr {
    IpAddr::V4(203, 0, 113, last)
}

fn at(last: u8, port: u16) -> SocketAddr {
    SocketAddr { ip: ip(last), port }
}

#[test]
fn two_addresses_that_differ_are_none() {
    assert_eq!(agreed_address(&vec![ip(1), ip(1)]), Some(ip(1)));
    assert_eq!(agreed_address(&vec![ip(1), ip(2)]), None);
    assert_eq!(agreed_address(&Vec::new()), None);
}

#[test]
fn only_a_routed_v6_address_counts() {
    let v6 = |first: u16| IpAddr::V6(first, 0, 0, 0, 0, 0, 0, 1);
    assert_eq!(routable_v6(v6(0x2001)), Some(v6(0x2001)));
    assert_eq!(routable_v6(v6(0xfe80)), None);
    assert_eq!(routable_v6(v6(0xfd00)), None);
    assert_eq!(routable_v6(v6(0)), None);
    assert_eq!(routable_v6(ip(1)), None);
}

#[test]
fn one_server_classifies_nothing() {
    let names = |n: usize| (0..n).map(|i| format!("s{}", i)).collect::<Vec<String>>();
    assert_eq!(enough_servers(&names(2)), Ok(()));
    assert_eq!(
        enough_servers(&names(1)),
        Err("classifying a NAT mapping needs two servers on separate addresses; 1 given".to_string())
    );
}

#[test]
fn the_servers_are_paired_with_the_ports_they_saw() {
    let mut m = Measurements::default();
    let servers = vec!["a".to_string(), "b".to_string()];
    let found = MappingReport {
        mapping: UdpMapping::Symmetric,
        probes: vec![at(7, 1000), at(7, 1001)],
    };
    local_and_udp(&mut m, None, &servers, Ok(found));
    assert_eq!(m.udp_mapping, Some(UdpMapping::Symmetric));
    assert_eq!(m.udp_ports, vec![("a".to_string(), 1000), ("b".to_string(), 1001)]);
    assert_eq!(m.observed_address, Some(ip(7)));
    local_and_udp(&mut m, Some(ip(9)), &servers, Err("no answer".to_string()));
    assert_eq!(m.udp_why.as_deref(), Some("no answer"));
    assert_eq!(m.udp_mapping, Some(UdpMapping::Symmetric));
}

#[test]
fn an_edge_answers_what_it_saw() {
    let body = "{\"observed\":{\"edge\":\"fra\",\"port\":40000,\"address\":\"203.0.113.7\"}}";
    let a = edge_answer("u", body).unwrap();
    assert_eq!(
        (a.edge.as_str(), a.port, a.address.as_deref()),
        ("fra", Some(40000), Some("203.0.113.7"))
    );
    let a = edge_answer("u", "{\"observed\":{\"port\":70000,\"address\":4}}").unwrap();
    assert_eq!((a.edge.as_str(), a.port, a.address), ("u", None, None));
    let a = edge_answer("u", "{\"observed\":null}").unwrap();
    assert_eq!(a.edge, "u");
    assert_eq!(edge_answer("u", "hello").unwrap_err(), "the edge did not answer JSON");
    assert_eq!(
        edge_answer("u", "{}").unwrap_err(),
        "the edge answered JSON with no `observed` block"
    );
}

fn answer(edge: &str, port: u16) -> EdgeAnswer {
    EdgeAnswer { edge: edge.to_string(), port: Some(port), address: None }
}

#[test]
fn two_views_from_one_port_are_a_comparison() {
    let mut m = Measurements::default();
    let mut run = Reflection::new(true);
    assert_eq!(run.source_port(), None);
    run.answered(&mut m, at(1, 443), answer("a", 10), Some(ip(7)), 5000);
    assert_eq!(run.source_port(), Some(5000));
    run.answered(&mut m, at(2, 443), answer("b", 10), Some(ip(8)), 5000);
    run.finish(&mut m);
    assert!(m.tcp_same_source_port);
    assert_eq!(m.observed_address, Some(ip(7)));
    assert_eq!(m.address_why.as_deref(), Some("b saw 203.0.113.8, over TCP"));
    assert_eq!(m.tcp_views[1].dest, "203.0.113.2:443");
    assert_eq!(m.tcp_agrees(), Some(true));
}

#[test]
fn a_view_from_another_port_is_no_comparison() {
    let mut m = Measurements::default();
    let mut run = Reflection::new(true);
    run.answered(&mut m, at(1, 443), answer("a", 10), None, 5000);
    run.answered(&mut m, at(2, 443), answer("b", 10), None, 5001);
    run.finish(&mut m);
    assert!(!m.tcp_same_source_port);
    let mut m = Measurements::default();
    let mut run = Reflection::new(true);
    run.answered(&mut m, at(1, 443), answer("a", 10), None, 5000);
    run.silent(&mut m, "u", at(2, 443), "late");
    run.unresolved(&mut m, "v", "dns");
    run.answered(&mut m, at(3, 443), answer("c", 10), None, 5000);
    run.finish(&mut m);
    assert!(!m.tcp_same_source_port);
    assert_eq!(m.reflect_why, vec!["u via 203.0.113.2:443: late", "v: dns"]);
}

#[test]
fn without_a_pin_every_port_is_taken_as_it_comes() {
    let mut m = Measurements::default();
    let mut run = Reflection::new(false);
    run.answered(&mut m, at(1, 443), answer("a", 10), None, 5000);
    assert_eq!(run.source_port(), None);
    run.answered(&mut m, at(2, 443), answer("b", 10), None, 5000);
    run.finish(&mut m);
    assert!(!m.tcp_same_source_port);
}
