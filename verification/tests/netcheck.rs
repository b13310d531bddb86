use drt::addr::IpAddr;
use drt::netcheck::{
    decide, render_text, rules, EdgeView, Inbound, Measurements, UdpMapping, Verdict,
};

fn public_v4() -> Option<IpAddr> {
    Some(IpAddr::V4(203, 0, 113, 7))
}

fn cgnat_v4() -> Option<IpAddr> {
    Some(IpAddr::V4(100, 90, 1, 2))
}

#[test]
fn a_public_address_answering_inbound_is_direct() {
    let m = Measurements {
        observed_address: public_v4(),
        inbound: Some((22, Inbound::Connected)),
        udp_mapping: Some(UdpMapping::Independent),
        ..Default::default()
    };
    assert_eq!(decide(&m).0, Verdict::Direct);
}

#[test]
fn cgnat_is_relay_whatever_else_is_true() {
    let m = Measurements {
        observed_address: cgnat_v4(),
        udp_mapping: Some(UdpMapping::Independent),
        inbound: Some((22, Inbound::Connected)),
        ..Default::default()
    };
    let (v, _) = decide(&m);
    assert_eq!(v, Verdict::Relay);
}

#[test]
fn tcp_independent_udp_symmetric_is_relay() {
    let m = Measurements {
        observed_address: public_v4(),
        udp_mapping: Some(UdpMapping::Symmetric),
        udp_ports: vec![("stun1".into(), 51823), ("stun2".into(), 40119)],
        tcp_same_source_port: true,
        tcp_views: vec![
            EdgeView {
                edge: "gate1".into(),
                port: Some(51823),
                dest: "203.0.113.1:443".into(),
            },
            EdgeView {
                edge: "gate2".into(),
                port: Some(51823),
                dest: "203.0.113.2:443".into(),
            },
        ],
        ..Default::default()
    };
    assert_eq!(m.tcp_agrees(), Some(true));
    assert_eq!(decide(&m).0, Verdict::Relay);
}

#[test]
fn an_independent_udp_mapping_with_no_inbound_is_punchable() {
    let m = Measurements {
        observed_address: public_v4(),
        udp_mapping: Some(UdpMapping::Independent),
        inbound: Some((22, Inbound::Timeout)),
        ..Default::default()
    };
    assert_eq!(decide(&m).0, Verdict::Punchable);
}

#[test]
fn hopeless_v4_with_routable_v6_is_v6_direct() {
    let m = Measurements {
        observed_address: Some(IpAddr::V4(192, 168, 1, 5)),
        routable_v6: Some(IpAddr::V6(0x2001, 0xdb8, 0, 0, 0, 0, 0, 1)),
        udp_mapping: Some(UdpMapping::Symmetric),
        ..Default::default()
    };
    assert_eq!(decide(&m).0, Verdict::V6Direct);
}

#[test]
fn an_absent_edge_port_is_not_measured_never_zero() {
    let m = Measurements {
        observed_address: public_v4(),
        udp_mapping: Some(UdpMapping::Independent),
        tcp_views: vec![
            EdgeView {
                edge: "gate1".into(),
                port: Some(51823),
                dest: "203.0.113.1:443".into(),
            },
            EdgeView {
                edge: "gate2".into(),
                port: None,
                dest: "203.0.113.2:443".into(),
            },
        ],
        ..Default::default()
    };
    assert_eq!(m.tcp_agrees(), None, "one port is not a comparison");
    let text = render_text(&m, Verdict::Punchable, "x");
    assert!(text.contains("absent (gate2)"), "{text}");
    assert!(text.contains("not a comparison"), "{text}");
}

#[test]
fn an_unmeasurable_network_falls_back_to_relay_and_says_so() {
    let (v, why) = decide(&Measurements::default());
    assert_eq!(v, Verdict::Relay);
    assert!(why.contains("could not be measured"), "{why}");
}

#[test]
fn inbound_connected_from_a_private_address_is_not_direct() {
    let m = Measurements {
        observed_address: Some(IpAddr::V4(10, 0, 0, 4)),
        inbound: Some((22, Inbound::Connected)),
        udp_mapping: Some(UdpMapping::Independent),
        ..Default::default()
    };
    assert_ne!(decide(&m).0, Verdict::Direct);
}

#[test]
fn a_routable_v6_does_not_override_what_v4_actually_measured() {
    let punchable_with_v6 = Measurements {
        routable_v6: Some(IpAddr::V6(0x2605, 0x59ca, 0x6632, 0xa610, 0, 0, 0, 1)),
        udp_mapping: Some(UdpMapping::Independent),
        ..Default::default()
    };
    assert_eq!(decide(&punchable_with_v6).0, Verdict::Punchable);

    let nothing_measured_with_v6 = Measurements {
        routable_v6: Some(IpAddr::V6(0x2605, 0x59ca, 0x6632, 0xa610, 0, 0, 0, 1)),
        ..Default::default()
    };
    assert_eq!(decide(&nothing_measured_with_v6).0, Verdict::Relay);

    let symmetric_with_v6 = Measurements {
        routable_v6: Some(IpAddr::V6(0x2605, 0x59ca, 0x6632, 0xa610, 0, 0, 0, 1)),
        udp_mapping: Some(UdpMapping::Symmetric),
        ..Default::default()
    };
    assert_eq!(decide(&symmetric_with_v6).0, Verdict::V6Direct);

    let cgnat_with_v6 = Measurements {
        observed_address: cgnat_v4(),
        routable_v6: Some(IpAddr::V6(0x2605, 0x59ca, 0x6632, 0xa610, 0, 0, 0, 1)),
        ..Default::default()
    };
    assert_eq!(decide(&cgnat_with_v6).0, Verdict::Relay);
}

#[test]
fn holding_a_v6_address_is_not_a_measurement() {
    let v6_only = Measurements {
        routable_v6: Some(IpAddr::V6(0x2605, 0x59ca, 0x6632, 0xa610, 0, 0, 0, 1)),
        udp_why: Some("no STUN response".into()),
        ..Default::default()
    };
    assert_eq!(decide(&v6_only).0, Verdict::Relay);
    assert!(
        !v6_only.probed_anything(),
        "reading the routing table is not asking the network"
    );

    for m in [
        Measurements {
            udp_mapping: Some(UdpMapping::Symmetric),
            ..Default::default()
        },
        Measurements {
            observed_address: public_v4(),
            ..Default::default()
        },
        Measurements {
            inbound: Some((22, Inbound::Refused)),
            ..Default::default()
        },
    ] {
        assert!(m.probed_anything(), "{m:?}");
    }

    let v6_direct = Measurements {
        routable_v6: Some(IpAddr::V6(0x2605, 0x59ca, 0x6632, 0xa610, 0, 0, 0, 1)),
        udp_mapping: Some(UdpMapping::Symmetric),
        ..Default::default()
    };
    assert_eq!(decide(&v6_direct).0, Verdict::V6Direct);
    assert!(v6_direct.probed_anything());
}

#[test]
fn an_unmeasured_udp_mapping_carries_its_reason() {
    let m = Measurements {
        udp_why: Some("could not resolve STUN server address 'stun1.example:3478'".into()),
        ..Default::default()
    };
    let (v, why) = decide(&m);
    let text = render_text(&m, v, why);
    assert!(
        text.contains("udp map    not measured (could not resolve"),
        "{text}"
    );

    let silent = Measurements::default();
    let (v, why) = decide(&silent);
    assert!(render_text(&silent, v, why).contains("udp map    not measured\n"));
}

#[test]
fn a_cgnat_address_from_stun_alone_is_relay_not_punchable() {
    let behind_cgnat = Measurements {
        observed_address: cgnat_v4(),
        udp_mapping: Some(UdpMapping::Independent),
        ..Default::default()
    };
    assert_eq!(decide(&behind_cgnat).0, Verdict::Relay);
    assert!(behind_cgnat.is_cgnat());

    let public = Measurements {
        observed_address: public_v4(),
        udp_mapping: Some(UdpMapping::Independent),
        ..Default::default()
    };
    assert_eq!(decide(&public).0, Verdict::Punchable);

    assert!(behind_cgnat.probed_anything());
    let rendered = {
        let (v, why) = decide(&behind_cgnat);
        render_text(&behind_cgnat, v, why)
    };
    assert!(rendered.contains("(CGNAT)"), "{rendered}");
}

#[test]
fn two_edges_over_two_connections_are_not_a_tcp_comparison() {
    let two_vantages = Measurements {
        tcp_views: vec![
            EdgeView {
                edge: "gate1".into(),
                port: Some(51823),
                dest: "203.0.113.1:443".into(),
            },
            EdgeView {
                edge: "gate2".into(),
                port: Some(51999),
                dest: "203.0.113.2:443".into(),
            },
        ],
        ..Default::default()
    };
    assert_eq!(
        two_vantages.tcp_agrees(),
        None,
        "different ports from different connections say nothing"
    );
    let (v, why) = decide(&two_vantages);
    let text = render_text(&two_vantages, v, why);
    assert!(
        text.contains("separate source ports; not a comparison"),
        "{text}"
    );
    assert!(
        !text.contains("per-destination"),
        "the one answer this must never give here: {text}"
    );

    let pinned = Measurements {
        tcp_same_source_port: true,
        ..two_vantages.clone()
    };
    assert_eq!(pinned.tcp_agrees(), Some(false));

    let agreeing = Measurements {
        tcp_same_source_port: true,
        tcp_views: vec![
            EdgeView {
                edge: "gate1".into(),
                port: Some(51823),
                dest: "203.0.113.1:443".into(),
            },
            EdgeView {
                edge: "gate2".into(),
                port: Some(51823),
                dest: "203.0.113.2:443".into(),
            },
        ],
        ..Default::default()
    };
    assert_eq!(agreeing.tcp_agrees(), Some(true));

    let one = Measurements {
        tcp_same_source_port: true,
        tcp_views: vec![EdgeView {
            edge: "gate1".into(),
            port: Some(51823),
            dest: "203.0.113.1:443".into(),
        }],
        ..Default::default()
    };
    assert_eq!(one.tcp_agrees(), None);
}

#[test]
fn two_views_of_one_edge_are_not_an_endpoint_comparison() {
    let twice = |edge: &str| Measurements {
        tcp_same_source_port: true,
        tcp_views: vec![
            EdgeView {
                edge: edge.into(),
                port: Some(51823),
                dest: "203.0.113.1:443".into(),
            },
            EdgeView {
                edge: edge.into(),
                port: Some(51823),
                dest: "203.0.113.1:443".into(),
            },
        ],
        ..Default::default()
    };
    let same = twice("gate1");
    assert_eq!(
        same.tcp_agrees(),
        None,
        "one destination says nothing about endpoint-independence"
    );
    assert_eq!(
        same.tcp_mapping_stable(),
        Some(true),
        "but it does say the mapping held"
    );

    let moved = Measurements {
        tcp_views: vec![
            EdgeView {
                edge: "gate1".into(),
                port: Some(51823),
                dest: "203.0.113.1:443".into(),
            },
            EdgeView {
                edge: "gate1".into(),
                port: Some(51999),
                dest: "203.0.113.1:443".into(),
            },
        ],
        ..twice("gate1")
    };
    assert_eq!(moved.tcp_agrees(), None);
    assert_eq!(moved.tcp_mapping_stable(), Some(false));

    let two = Measurements {
        tcp_views: vec![
            EdgeView {
                edge: "gate1".into(),
                port: Some(51823),
                dest: "203.0.113.1:443".into(),
            },
            EdgeView {
                edge: "gate2".into(),
                port: Some(51823),
                dest: "203.0.113.2:443".into(),
            },
        ],
        ..twice("gate1")
    };
    assert_eq!(two.tcp_agrees(), Some(true));
    assert_eq!(two.tcp_mapping_stable(), None);

    let two_ports = Measurements {
        tcp_views: vec![
            EdgeView {
                edge: "gate1".into(),
                port: Some(51823),
                dest: "203.0.113.1:443".into(),
            },
            EdgeView {
                edge: "gate1".into(),
                port: Some(51823),
                dest: "203.0.113.1:8443".into(),
            },
        ],
        ..twice("gate1")
    };
    assert_eq!(two_ports.tcp_agrees(), Some(true));
    assert_eq!(two_ports.tcp_mapping_stable(), None);
}

#[test]
fn an_edge_that_did_not_answer_says_why() {
    let m = Measurements {
        reflect_why: vec!["https://reflect.example/: rate limited by the edge".into()],
        ..Default::default()
    };
    let (v, why) = decide(&m);
    let text = render_text(&m, v, why);
    assert!(
        text.contains("tcp map    not measured (https://reflect.example/: rate limited"),
        "{text}"
    );
    assert_eq!(v, Verdict::Relay);
    assert!(
        !m.probed_anything(),
        "an edge that refused measured nothing"
    );
}

#[test]
fn every_rule_is_reachable() {
    let cases = [
        Measurements {
            observed_address: cgnat_v4(),
            ..Default::default()
        },
        Measurements {
            observed_address: public_v4(),
            inbound: Some((22, Inbound::Connected)),
            ..Default::default()
        },
        Measurements {
            observed_address: public_v4(),
            udp_mapping: Some(UdpMapping::Independent),
            ..Default::default()
        },
        Measurements {
            observed_address: Some(IpAddr::V4(192, 168, 1, 5)),
            routable_v6: Some(IpAddr::V6(0x2001, 0xdb8, 0, 0, 0, 0, 0, 1)),
            ..Default::default()
        },
        Measurements {
            observed_address: public_v4(),
            udp_mapping: Some(UdpMapping::Symmetric),
            ..Default::default()
        },
    ];
    assert_eq!(cases.len(), rules().len(), "one case per rule");
    for (i, m) in cases.iter().enumerate() {
        let (v, why) = decide(m);
        assert_eq!(v, rules()[i].verdict, "case {i} selected the wrong verdict");
        assert_eq!(why, rules()[i].why, "case {i} matched a different rule");
    }
}

fn seen_at(edge: &str, port: Option<u16>, dest: &str) -> EdgeView {
    EdgeView { edge: edge.to_string(), port, dest: dest.to_string() }
}

#[test]
fn an_edge_without_a_port_is_no_second_destination() {
    let mut m = Measurements {
        tcp_same_source_port: true,
        tcp_views: vec![
            seen_at("gate1", Some(51823), "203.0.113.1:443"),
            seen_at("gate1", Some(51823), "203.0.113.1:443"),
            seen_at("gate2", None, "203.0.113.2:443"),
        ],
        ..Default::default()
    };
    assert_eq!(m.tcp_agrees(), None);
    assert_eq!(m.tcp_mapping_stable(), Some(true));
    assert_eq!(m.distinct_destinations(), 2);
    m.tcp_views[2].port = Some(51824);
    assert_eq!(m.tcp_agrees(), Some(false));
    assert_eq!(m.tcp_mapping_stable(), None);
}

#[test]
fn an_address_of_version_6_rules_nothing_out() {
    let seen = |a| Measurements { observed_address: a, ..Default::default() };
    assert!(!seen(Some(IpAddr::V6(0x2001, 0xdb8, 0, 0, 0, 0, 0, 7))).v4_ruled_out());
    assert!(!seen(None).v4_ruled_out());
    assert!(!seen(public_v4()).v4_ruled_out());
    assert!(seen(cgnat_v4()).v4_ruled_out());
}
