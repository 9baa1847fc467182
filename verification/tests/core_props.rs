use subnetcalc::dotted::u32_to_dotted_decimal;
use subnetcalc::errors::NetworkError;
use subnetcalc::masks::subnet_mask;
use subnetcalc::network::Network;

fn ip(a: u32, b: u32, c: u32, d: u32) -> u32 {
    (a << 24) | (b << 16) | (c << 8) | d
}

#[test]
fn props_mask_values() {
    assert_eq!(subnet_mask(24), ip(255, 255, 255, 0));
    assert_eq!(subnet_mask(27), ip(255, 255, 255, 224));
    assert_eq!(subnet_mask(0), ip(0, 0, 0, 0));
    assert_eq!(subnet_mask(32), ip(255, 255, 255, 255));
    assert_eq!(subnet_mask(1), ip(128, 0, 0, 0));
    assert_eq!(subnet_mask(31), ip(255, 255, 255, 254));
}

#[test]
fn props_mask_popcount() {
    for p in 0..=32u32 {
        assert_eq!(subnet_mask(p).count_ones(), p);
    }
}

#[test]
fn props_broadcast_round_trip() {
    let net = Network::new(ip(10, 1, 2, 3), 20);
    let masked = net.ip & net.netmask_address();
    assert_eq!(masked | net.wildcard_address(), net.broadcast_address());

    let net = Network::new(ip(203, 0, 113, 77), 29);
    let masked = net.ip & net.netmask_address();
    assert_eq!(masked | net.wildcard_address(), net.broadcast_address());
}

#[test]
fn props_parse_class_defaults() {
    let net = Network::from_str("10.0.0.1").unwrap();
    assert_eq!(net.prefix, 8);

    let net = Network::from_str("172.16.0.1").unwrap();
    assert_eq!(net.prefix, 16);

    let net = Network::from_str("224.0.0.1").unwrap();
    assert_eq!(net.prefix, 24);
}

#[test]
fn props_parse_trailing_slash_defaults() {
    // nothing after the '/': the classful default applies
    let net = Network::from_str("192.168.1.10/").unwrap();
    assert_eq!(net, Network::new(ip(192, 168, 1, 10), 24));
}

#[test]
fn props_parse_keeps_host_bits() {
    // host bits past the prefix boundary are not canonicalized away
    let net = Network::from_str("192.168.1.77/24").unwrap();
    assert_eq!(net.ip, ip(192, 168, 1, 77));
}

#[test]
fn props_parse_rejects_bad_addresses() {
    assert_eq!(
        Network::from_str("").unwrap_err(),
        NetworkError::InvalidIpFormat
    );
    assert_eq!(
        Network::from_str("1.2.3").unwrap_err(),
        NetworkError::InvalidIpFormat
    );
    assert_eq!(
        Network::from_str("1.2.3.4.5").unwrap_err(),
        NetworkError::InvalidIpFormat
    );
    assert_eq!(
        Network::from_str("256.1.1.1").unwrap_err(),
        NetworkError::InvalidIpFormat
    );
    assert_eq!(
        Network::from_str("01.2.3.4").unwrap_err(),
        NetworkError::InvalidIpFormat
    );
    assert_eq!(
        Network::from_str("1..2.3").unwrap_err(),
        NetworkError::InvalidIpFormat
    );
    assert_eq!(
        Network::from_str("invalid/27").unwrap_err(),
        NetworkError::InvalidIpFormat
    );
}

#[test]
fn props_parse_rejects_bad_prefixes() {
    assert_eq!(
        Network::from_str("1.2.3.4/ab").unwrap_err(),
        NetworkError::InvalidMaskFormat
    );
    assert_eq!(
        Network::from_str("1.2.3.4/33").unwrap_err(),
        NetworkError::InvalidMaskFormat
    );
    assert_eq!(
        Network::from_str("1.2.3.4/2/4").unwrap_err(),
        NetworkError::InvalidMaskFormat
    );
    assert_eq!(
        Network::from_str("1.2.3.4/999999999999").unwrap_err(),
        NetworkError::InvalidMaskFormat
    );
}

#[test]
fn props_parse_prefix_leading_zeros() {
    // the prefix field tolerates leading zeros, like the address does not
    let net = Network::from_str("1.2.3.4/032").unwrap();
    assert_eq!(net.prefix, 32);
}

#[test]
fn props_parse_boundary_prefixes() {
    assert_eq!(Network::from_str("0.0.0.0/0").unwrap(), Network::new(0, 0));
    assert_eq!(
        Network::from_str("255.255.255.255/32").unwrap(),
        Network::new(ip(255, 255, 255, 255), 32)
    );
}

#[test]
fn props_hosts_clamped_for_tiny_networks() {
    // /31 and /32 have no usable hosts: the count clamps to zero
    assert_eq!(Network::new(ip(10, 0, 0, 0), 31).available_hosts(), 0);
    assert_eq!(Network::new(ip(10, 0, 0, 0), 32).available_hosts(), 0);
    assert_eq!(Network::new(0, 0).available_hosts(), 4_294_967_294);
    assert_eq!(Network::new(ip(10, 0, 0, 0), 30).available_hosts(), 2);
}

#[test]
fn props_class_boundaries() {
    assert_eq!(Network::new(ip(0, 0, 0, 1), 8).ip_class(), 'A');
    assert_eq!(Network::new(ip(127, 255, 255, 255), 8).ip_class(), 'A');
    assert_eq!(Network::new(ip(128, 0, 0, 1), 16).ip_class(), 'B');
    assert_eq!(Network::new(ip(191, 255, 0, 1), 16).ip_class(), 'B');
    assert_eq!(Network::new(ip(192, 0, 0, 1), 24).ip_class(), 'C');
    assert_eq!(Network::new(ip(223, 255, 0, 1), 24).ip_class(), 'C');
    assert_eq!(Network::new(ip(239, 255, 0, 1), 24).ip_class(), 'D');
    assert_eq!(Network::new(ip(255, 255, 255, 255), 32).ip_class(), 'E');
}

#[test]
fn props_aggregate_idempotent() {
    let subnets = vec![
        Network::new(ip(192, 168, 100, 0), 27),
        Network::new(ip(192, 168, 100, 32), 27),
        Network::new(ip(192, 168, 100, 64), 26),
    ];
    let agg = Network::aggregate_networks(&subnets).unwrap();
    let again = Network::aggregate_networks(&vec![agg]).unwrap();
    assert_eq!(again, agg);
}

#[test]
fn props_aggregate_clamps_to_widest_input() {
    // identical addresses share all 32 bits, but the aggregate may not be
    // more specific than the widest input
    let subnets = vec![
        Network::new(ip(10, 0, 0, 0), 24),
        Network::new(ip(10, 0, 0, 0), 16),
    ];
    let agg = Network::aggregate_networks(&subnets).unwrap();
    assert_eq!(agg, Network::new(ip(10, 0, 0, 0), 24));
}

#[test]
fn props_aggregate_divergent_high_bit() {
    let subnets = vec![
        Network::new(ip(10, 0, 0, 0), 8),
        Network::new(ip(192, 168, 0, 0), 16),
    ];
    let agg = Network::aggregate_networks(&subnets).unwrap();
    assert_eq!(agg, Network::new(0, 0));
}

#[test]
fn props_solver_rejects_zero_counts() {
    assert_eq!(
        Network::determine_subnet_mask(16, 0, 90).unwrap_err(),
        NetworkError::InvalidHostsOrSubnets
    );
    assert_eq!(
        Network::determine_subnet_mask(16, 320, 0).unwrap_err(),
        NetworkError::InvalidHostsOrSubnets
    );
}

#[test]
fn props_solver_rejects_insufficient_bits() {
    // too few remaining bits for the requested subnet count
    assert_eq!(
        Network::determine_subnet_mask(30, 100, 1).unwrap_err(),
        NetworkError::InsufficientBits
    );
    // base prefix smaller than the required host bits
    assert_eq!(
        Network::determine_subnet_mask(2, 1, 100).unwrap_err(),
        NetworkError::InsufficientBits
    );
}

#[test]
fn props_solver_exact_fit() {
    // 4 subnets of 62 hosts out of a /24: 62 + 2 = 64 = 2^6 host bits,
    // 2 subnet bits, so the new prefix is /26
    let mask = Network::determine_subnet_mask(24, 4, 62).unwrap();
    assert_eq!(mask, ip(255, 255, 255, 192));
}

#[test]
fn props_dotted_decimal_rendering() {
    assert_eq!(u32_to_dotted_decimal(ip(192, 168, 1, 0)), "192.168.1.0");
    assert_eq!(u32_to_dotted_decimal(0), "0.0.0.0");
    assert_eq!(
        u32_to_dotted_decimal(ip(255, 255, 255, 255)),
        "255.255.255.255"
    );
    assert_eq!(u32_to_dotted_decimal(ip(10, 0, 113, 7)), "10.0.113.7");
}
