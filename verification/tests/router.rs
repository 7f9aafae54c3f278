use chnroutes::cidr::ipv4;
use chnroutes::router::{ChnRouter, Endpoint, RoutingDirective};
use chnroutes::table::RegionTable;

fn sample_lines() -> Vec<String> {
    vec![String::from("1.0.1.0/24"), String::from("bad-line"), String::from("202.96.0.0/11")]
}

fn upstream() -> Endpoint {
    Endpoint::V4 { ip: ipv4(127, 0, 0, 1), port: 1080 }
}

fn somewhere() -> Endpoint {
    Endpoint::V4 { ip: ipv4(192, 0, 2, 1), port: 50000 }
}

fn loopback6(port: u16) -> Endpoint {
    Endpoint::V6 { ip6: 1, port, flowinfo: 0, scope_id: 0 }
}

#[test]
fn regional_destination_goes_direct() {
    let router = ChnRouter::new(RegionTable::build(&sample_lines()), upstream());
    let to = Endpoint::V4 { ip: ipv4(1, 0, 1, 5), port: 443 };
    assert_eq!(router.route(somewhere(), to), RoutingDirective::Direct(to));
}

#[test]
fn foreign_destination_goes_through_the_proxy() {
    let router = ChnRouter::new(RegionTable::build(&sample_lines()), upstream());
    let to = Endpoint::V4 { ip: ipv4(8, 8, 8, 8), port: 443 };
    assert_eq!(
        router.route(somewhere(), to),
        RoutingDirective::Relay(Endpoint::V4 { ip: 0x7f00_0001, port: 1080 }, to)
    );
}

#[test]
fn ipv6_destination_goes_direct() {
    let to = loopback6(443);
    let with_table = ChnRouter::new(RegionTable::build(&sample_lines()), upstream());
    assert_eq!(with_table.route(somewhere(), to), RoutingDirective::Direct(to));
    let empty = ChnRouter::new(RegionTable::build(&Vec::new()), upstream());
    assert_eq!(empty.route(somewhere(), to), RoutingDirective::Direct(to));
    let full = ChnRouter::new(RegionTable::build(&vec![String::from("0.0.0.0/0")]), upstream());
    assert_eq!(full.route(somewhere(), to), RoutingDirective::Direct(to));
}

#[test]
fn ipv6_destination_keeps_flow_and_scope() {
    let router = ChnRouter::new(RegionTable::build(&sample_lines()), upstream());
    let to = Endpoint::V6 { ip6: 0x2001_0db8_0000_0000_0000_0000_0000_0001, port: 8443, flowinfo: 7, scope_id: 3 };
    assert_eq!(router.route(somewhere(), to), RoutingDirective::Direct(to));
}

#[test]
fn source_has_no_part_in_the_decision() {
    let router = ChnRouter::new(RegionTable::build(&sample_lines()), upstream());
    let inside = Endpoint::V4 { ip: ipv4(202, 100, 1, 1), port: 80 };
    let outside = Endpoint::V4 { ip: ipv4(203, 0, 113, 9), port: 80 };
    let sources: Vec<Endpoint> = vec![
        somewhere(),
        Endpoint::V4 { ip: ipv4(1, 0, 1, 5), port: 1 },
        Endpoint::V4 { ip: ipv4(8, 8, 8, 8), port: 65535 },
        loopback6(9),
    ];
    for from in sources {
        assert_eq!(router.route(from, inside), RoutingDirective::Direct(inside));
        assert_eq!(router.route(from, outside), RoutingDirective::Relay(upstream(), outside));
    }
}

#[test]
fn empty_table_relays_every_ipv4_destination() {
    let router = ChnRouter::new(RegionTable::build(&Vec::new()), upstream());
    let to = Endpoint::V4 { ip: ipv4(1, 0, 1, 5), port: 443 };
    assert_eq!(router.route(somewhere(), to), RoutingDirective::Relay(upstream(), to));
}

#[test]
fn ipv6_proxy_is_handed_on_as_given() {
    let proxy = Endpoint::V6 { ip6: 1, port: 1080, flowinfo: 0, scope_id: 0 };
    let router = ChnRouter::new(RegionTable::build(&sample_lines()), proxy);
    assert_eq!(router.socks5(), proxy);
    let to = Endpoint::V4 { ip: ipv4(8, 8, 8, 8), port: 53 };
    assert_eq!(router.route(somewhere(), to), RoutingDirective::Relay(proxy, to));
}

#[test]
fn from_lines_routes_as_new_over_build() {
    let made = ChnRouter::from_lines(&sample_lines(), upstream());
    let built = ChnRouter::new(RegionTable::build(&sample_lines()), upstream());
    assert_eq!(made.socks5(), upstream());
    let inside = Endpoint::V4 { ip: ipv4(1, 0, 1, 5), port: 443 };
    let outside = Endpoint::V4 { ip: ipv4(8, 8, 8, 8), port: 443 };
    assert_eq!(made.route(somewhere(), inside), RoutingDirective::Direct(inside));
    assert_eq!(made.route(somewhere(), outside), RoutingDirective::Relay(upstream(), outside));
    assert_eq!(made.route(somewhere(), inside), built.route(somewhere(), inside));
    assert_eq!(made.route(somewhere(), outside), built.route(somewhere(), outside));
}

#[test]
fn port_has_no_part_in_the_decision() {
    let router = ChnRouter::new(RegionTable::build(&sample_lines()), upstream());
    for port in [0u16, 1, 80, 443, 65535] {
        let inside = Endpoint::V4 { ip: ipv4(1, 0, 1, 5), port };
        let outside = Endpoint::V4 { ip: ipv4(8, 8, 8, 8), port };
        assert_eq!(router.route(somewhere(), inside), RoutingDirective::Direct(inside));
        assert_eq!(router.route(somewhere(), outside), RoutingDirective::Relay(upstream(), outside));
    }
}
