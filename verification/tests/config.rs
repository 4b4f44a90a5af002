use uturn::config::parse_credentials;
use uturn::net::{IpAddr, SocketAddr};
use uturn::Config;

#[test]
fn defaults() {
    let c = Config::new(IpAddr::v4(203, 0, 113, 1));
    assert_eq!(c.port, 3478);
    assert_eq!(c.realm, "uturn");
    assert!(c.credentials.is_empty());
    assert_eq!(c.max_allocations_per_ip, 200);
    assert_eq!(c.rate_limit_per_minute, 30);
    assert_eq!(c.nonce_lifetime_secs, 3600);
    assert_eq!(c.max_permissions_per_alloc, 64);
    assert_eq!(c.max_channels_per_alloc, 128);
    assert!(!c.allow_anonymous);
    assert_eq!(
        c.relay_addr(),
        SocketAddr::new(IpAddr::v4(203, 0, 113, 1), 3478)
    );
    // The secret is random.
    assert_ne!(c.nonce_secret, Config::new(IpAddr::v4(203, 0, 113, 1)).nonce_secret);
}

#[test]
fn builders_set_one_thing_each() {
    let c = Config::new(IpAddr::V6(1))
        .with_port(1234)
        .with_realm("example.org")
        .with_credential("alice", "one")
        .with_credential("bob", "two")
        .with_credential("alice", "three");
    assert_eq!(c.port, 1234);
    assert_eq!(c.realm, "example.org");
    // The first credential of a user counts.
    assert_eq!(c.get_password("alice"), Some("one"));
    assert_eq!(c.get_password("bob"), Some("two"));
    assert_eq!(c.get_password("carol"), None);
}

#[test]
fn an_open_relay_must_be_asked_for() {
    let mut c = Config::new(IpAddr::V6(1));
    assert!(!c.can_start());
    c.allow_anonymous = true;
    assert!(c.can_start());
    c.allow_anonymous = false;
    assert!(c.with_credential("a", "b").can_start());
}

#[test]
fn credentials_are_split_at_the_first_colon() {
    let users = vec![
        "alice:secret:pass".to_string(),
        "nobody".to_string(),
        ":".to_string(),
        "zoë:ü".to_string(),
    ];
    assert_eq!(
        parse_credentials(&users),
        vec![
            ("alice".to_string(), "secret:pass".to_string()),
            ("".to_string(), "".to_string()),
            ("zoë".to_string(), "ü".to_string()),
        ]
    );
}
