//! Tests of the routing engine: exact domains, wildcards, CIDR ranges,
//! GeoIP codes, first-match precedence, and invalid-range tolerance.

use xr_proxy::config::RoutingConfig;
use xr_proxy::config::RoutingRule;
use xr_proxy::iptext::parse_ipv4;
use xr_proxy::iptext::parse_ipv6;
use xr_proxy::protocol::IpAddress;
use xr_proxy::routing::Action;
use xr_proxy::routing::CidrRange;
use xr_proxy::routing::Router;

fn v4(s: &str) -> IpAddress {
    IpAddress::V4(parse_ipv4(s.as_bytes()).unwrap())
}

fn v6(s: &str) -> IpAddress {
    IpAddress::V6(parse_ipv6(s.as_bytes()).unwrap())
}

fn make_config() -> RoutingConfig {
    RoutingConfig {
        default_action: "direct".to_string(),
        rules: vec![
            RoutingRule {
                action: "proxy".to_string(),
                domains: vec![
                    "youtube.com".to_string(),
                    "*.youtube.com".to_string(),
                    "*.google.com".to_string(),
                ],
                ip_ranges: vec![],
                geoip: vec![],
            },
            RoutingRule {
                action: "direct".to_string(),
                domains: vec!["*.local".to_string()],
                ip_ranges: vec![],
                geoip: vec![],
            },
        ],
    }
}

#[test]
fn test_exact_match() {
    let router = Router::new(&make_config());
    let ip = v4("93.184.216.34");
    assert_eq!(router.resolve(Some(b"youtube.com"), &ip, None), Action::Proxy);
}

#[test]
fn test_wildcard_match() {
    let router = Router::new(&make_config());
    let ip = v4("1.2.3.4");
    assert_eq!(router.resolve(Some(b"mail.google.com"), &ip, None), Action::Proxy);
    assert_eq!(router.resolve(Some(b"www.youtube.com"), &ip, None), Action::Proxy);
}

#[test]
fn test_wildcard_also_matches_base() {
    let router = Router::new(&make_config());
    let ip = v4("1.2.3.4");
    // "*.google.com" should also match "google.com"
    assert_eq!(router.resolve(Some(b"google.com"), &ip, None), Action::Proxy);
}

#[test]
fn test_no_match_uses_default() {
    let router = Router::new(&make_config());
    let ip = v4("1.2.3.4");
    assert_eq!(router.resolve(Some(b"example.com"), &ip, None), Action::Direct);
}

#[test]
fn test_no_sni_uses_default() {
    let router = Router::new(&make_config());
    let ip = v4("1.2.3.4");
    assert_eq!(router.resolve(None, &ip, None), Action::Direct);
}

#[test]
fn test_cidr_v4_match() {
    let config = RoutingConfig {
        default_action: "direct".to_string(),
        rules: vec![RoutingRule {
            action: "proxy".to_string(),
            domains: vec![],
            ip_ranges: vec!["91.108.56.0/22".to_string(), "149.154.160.0/20".to_string()],
            geoip: vec![],
        }],
    };
    let router = Router::new(&config);
    // Inside 91.108.56.0/22 (91.108.56.0 - 91.108.59.255)
    assert_eq!(router.resolve(None, &v4("91.108.57.3"), None), Action::Proxy);
    // Inside 149.154.160.0/20 (149.154.160.0 - 149.154.175.255)
    assert_eq!(router.resolve(None, &v4("149.154.167.50"), None), Action::Proxy);
    // Outside
    assert_eq!(router.resolve(None, &v4("8.8.8.8"), None), Action::Direct);
}

#[test]
fn test_cidr_v6_match() {
    let config = RoutingConfig {
        default_action: "direct".to_string(),
        rules: vec![RoutingRule {
            action: "proxy".to_string(),
            domains: vec![],
            ip_ranges: vec!["2001:b28:f23d::/48".to_string()],
            geoip: vec![],
        }],
    };
    let router = Router::new(&config);
    assert_eq!(router.resolve(None, &v6("2001:b28:f23d::1"), None), Action::Proxy);
    assert_eq!(router.resolve(None, &v6("2001:b28:f23e::1"), None), Action::Direct);
}

#[test]
fn test_cidr_and_domain_combined() {
    let config = RoutingConfig {
        default_action: "direct".to_string(),
        rules: vec![RoutingRule {
            action: "proxy".to_string(),
            domains: vec!["*.telegram.org".to_string()],
            ip_ranges: vec!["91.108.56.0/22".to_string()],
            geoip: vec![],
        }],
    };
    let router = Router::new(&config);
    // Match by domain
    assert_eq!(router.resolve(Some(b"web.telegram.org"), &v4("1.2.3.4"), None), Action::Proxy);
    // Match by IP (no SNI)
    assert_eq!(router.resolve(None, &v4("91.108.56.1"), None), Action::Proxy);
    // Neither
    assert_eq!(router.resolve(Some(b"example.com"), &v4("8.8.8.8"), None), Action::Direct);
}

#[test]
fn test_first_match_precedence() {
    // Overlapping rules: the first declared rule decides.
    let config = RoutingConfig {
        default_action: "proxy".to_string(),
        rules: vec![
            RoutingRule {
                action: "direct".to_string(),
                domains: vec!["shared.example".to_string()],
                ip_ranges: vec!["10.0.0.0/8".to_string()],
                geoip: vec![],
            },
            RoutingRule {
                action: "proxy".to_string(),
                domains: vec!["shared.example".to_string()],
                ip_ranges: vec!["10.0.0.0/8".to_string()],
                geoip: vec![],
            },
        ],
    };
    let router = Router::new(&config);
    assert_eq!(router.resolve(Some(b"shared.example"), &v4("8.8.8.8"), None), Action::Direct);
    assert_eq!(router.resolve(None, &v4("10.1.2.3"), None), Action::Direct);
}

#[test]
fn test_invalid_cidr_skipped_silently() {
    // Invalid ranges are dropped; valid ranges in the same rule and
    // later rules still apply, and startup does not fail.
    let config = RoutingConfig {
        default_action: "direct".to_string(),
        rules: vec![RoutingRule {
            action: "proxy".to_string(),
            domains: vec![],
            ip_ranges: vec![
                "not-a-cidr".to_string(),
                "300.1.2.3/8".to_string(),
                "91.108.56.0/99".to_string(),
                "91.108.56.0".to_string(),
                "91.108.56.0/22".to_string(),
            ],
            geoip: vec![],
        }],
    };
    let router = Router::new(&config);
    assert_eq!(router.rules[0].ip_ranges.len(), 1);
    assert_eq!(router.resolve(None, &v4("91.108.57.3"), None), Action::Proxy);
    assert_eq!(router.resolve(None, &v4("8.8.8.8"), None), Action::Direct);
}

#[test]
fn test_geoip_rule_matches_case_insensitively() {
    let config = RoutingConfig {
        default_action: "direct".to_string(),
        rules: vec![RoutingRule {
            action: "proxy".to_string(),
            domains: vec![],
            ip_ranges: vec![],
            geoip: vec!["ru".to_string()],
        }],
    };
    let router = Router::new(&config);
    let ip = v4("5.255.255.70");
    assert_eq!(router.resolve(None, &ip, Some(b"RU")), Action::Proxy);
    assert_eq!(router.resolve(None, &ip, Some(b"ru")), Action::Proxy);
    assert_eq!(router.resolve(None, &ip, Some(b"US")), Action::Direct);
    // Without a country source the rule cannot match.
    assert_eq!(router.resolve(None, &ip, None), Action::Direct);
}

#[test]
fn test_action_from_str() {
    assert_eq!(Action::from_str("proxy"), Action::Proxy);
    assert_eq!(Action::from_str("direct"), Action::Direct);
    assert_eq!(Action::from_str("anything-else"), Action::Direct);
}

#[test]
fn test_cidr_parse_details() {
    // Prefix 0 accepts every address of its family, and only its family.
    let all4 = CidrRange::parse(b"0.0.0.0/0").unwrap();
    assert!(all4.contains(&v4("255.255.255.255")));
    assert!(all4.contains(&v4("0.0.0.0")));
    assert!(!all4.contains(&v6("::1")));
    // A host-width prefix matches exactly one address.
    let host = CidrRange::parse(b"8.8.8.8/32").unwrap();
    assert!(host.contains(&v4("8.8.8.8")));
    assert!(!host.contains(&v4("8.8.8.9")));
    // IPv6 with compression parses; octets with leading zeros do not.
    assert!(CidrRange::parse(b"::/0").is_some());
    assert!(CidrRange::parse(b"2001:b28:f23d::/48").is_some());
    assert!(CidrRange::parse(b"01.2.3.4/8").is_none());
}

#[test]
fn test_ip_text_parsing() {
    assert_eq!(parse_ipv4(b"91.108.57.3"), Some(0x5B6C3903));
    assert_eq!(parse_ipv4(b"0.0.0.0"), Some(0));
    assert_eq!(parse_ipv4(b"255.255.255.255"), Some(0xFFFFFFFF));
    assert_eq!(parse_ipv4(b"256.0.0.1"), None);
    assert_eq!(parse_ipv4(b"1.2.3"), None);
    assert_eq!(parse_ipv4(b"1.2.3.4.5"), None);
    assert_eq!(parse_ipv4(b"1.2.3.04"), None);
    assert_eq!(parse_ipv4(b""), None);

    assert_eq!(parse_ipv6(b"::"), Some(0));
    assert_eq!(parse_ipv6(b"::1"), Some(1));
    assert_eq!(parse_ipv6(b"2001:b28:f23d::1"), Some(0x2001_0b28_f23d_0000_0000_0000_0000_0001));
    assert_eq!(
        parse_ipv6(b"1:2:3:4:5:6:7:8"),
        Some(0x0001_0002_0003_0004_0005_0006_0007_0008)
    );
    assert_eq!(parse_ipv6(b"1::8"), Some(0x0001_0000_0000_0000_0000_0000_0000_0008));
    assert_eq!(parse_ipv6(b"1:2:3:4:5:6:7:8:9"), None);
    assert_eq!(parse_ipv6(b"1::2::3"), None);
    assert_eq!(parse_ipv6(b":::"), None);
    assert_eq!(parse_ipv6(b"1:2:3:4:5:6:7"), None);
    assert_eq!(parse_ipv6(b"12345::"), None);
    assert_eq!(parse_ipv6(b""), None);
}
