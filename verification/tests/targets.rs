//! Which URLs are safe to send to.

use octo_webhooks::target::{
    allows_local, is_http_url, is_public_host, is_safe_target, Host,
};
use octo_webhooks::{
    is_public_hostname, is_public_ipv4, is_public_ipv6, is_safe_url, Ipv4Addr, Ipv6Addr,
};

fn safe(url: &str) -> bool {
    is_safe_url(url, None)
}

#[test]
fn allows_public_https() {
    assert!(safe("https://api.customer.com/webhooks"));
    assert!(safe("http://example.org:8080/hook"));
}

#[test]
fn blocks_internal_targets() {
    assert!(!safe("http://localhost/hook"));
    assert!(!safe("http://127.0.0.1:9000"));
    assert!(!safe("http://169.254.169.254/latest/meta-data"));
    assert!(!safe("http://10.0.0.5/x"));
    assert!(!safe("http://192.168.1.10/x"));
    assert!(!safe("http://172.16.5.5/x"));
    assert!(!safe("http://db.internal.local/x"));
    assert!(!safe("ftp://example.com"));
    assert!(!safe("not-a-url"));
}

#[test]
fn allows_172_outside_private_block() {
    assert!(safe("http://172.15.0.1/x"));
    assert!(safe("http://172.32.0.1/x"));
}

#[test]
fn blocks_ipv6_and_shared_address() {
    assert!(!safe("http://[::1]/hook"));
    assert!(!safe("http://[fe80::1]/hook"));
    assert!(!safe("http://[fc00::1]/hook"));
    assert!(!safe("http://[fd00::1]/hook"));
    assert!(!safe("http://100.64.5.5/x"));
}

#[test]
fn is_safe_url_rejects_ipv4_mapped_ipv6_loopback() {
    assert!(!safe("http://[::ffff:127.0.0.1]/hook"));
    // The hex spelling that the parser normalises to.
    assert!(!safe("http://[::ffff:7f00:1]/hook"));
    assert!(!safe("http://[::ffff:10.0.0.1]/hook"));
    assert!(!safe("http://[::ffff:169.254.169.254]/latest/meta-data"));
    assert!(!safe("http://[::ffff:a9fe:a9fe]/latest/meta-data"));
}

#[test]
fn is_safe_url_rejects_the_unspecified_address() {
    assert!(!safe("http://0.0.0.0/hook"));
    assert!(!safe("http://0.0.0.0:8080/hook"));
    assert!(!safe("http://[::]/hook"));
    assert!(!safe("http://[::ffff:0.0.0.0]/hook"));
    // Shorthand forms the URL parser expands to 0.0.0.0 / 127.0.0.1.
    assert!(!safe("http://0/hook"));
    assert!(!safe("http://2130706433/hook"));
    assert!(!safe("http://0x7f.1/hook"));
}

#[test]
fn is_safe_url_still_accepts_a_normal_public_https_url() {
    assert!(safe("https://api.customer.com/webhooks"));
    assert!(safe("https://8.8.8.8/hook"));
    assert!(safe("https://[2606:4700:4700::1111]/hook"));
    assert!(safe("https://[::ffff:8.8.8.8]/hook"));
}

#[test]
fn blocks_trailing_dot_localhost() {
    assert!(!safe("http://localhost./hook"));
}

#[test]
fn host_names_are_matched_in_any_case() {
    assert!(!safe("http://LOCALHOST/hook"));
    assert!(!safe("HTTP://Db.Internal.LOCAL/x"));
    assert!(safe("HTTPS://API.customer.com/webhooks"));
}

#[test]
fn unparsable_urls_are_unsafe() {
    assert!(!safe("http://"));
    assert!(!safe("http://exa mple.com/"));
    assert!(!safe("http://[::1/hook"));
    assert!(!safe("http://1.2.3.4.5/"));
    assert!(!safe(""));
}

#[test]
fn only_the_value_one_turns_the_local_setting_on() {
    assert!(allows_local(Some("1")));
    assert!(!allows_local(Some("true")));
    assert!(!allows_local(Some("11")));
    assert!(!allows_local(Some("")));
    assert!(!allows_local(None));
    assert!(is_safe_url("http://localhost/hook", Some("1")));
    assert!(is_safe_url("http://127.0.0.1:9000", Some("1")));
    assert!(!is_safe_url("http://localhost/hook", Some("0")));
}

#[test]
fn local_setting_does_not_admit_other_schemes() {
    assert!(!is_safe_url("ftp://example.com", Some("1")));
    assert!(!is_safe_url("not-a-url", Some("1")));
    // Nothing but the scheme is looked at then.
    assert!(is_safe_url("http://", Some("1")));
}

#[test]
fn scheme_is_matched_in_any_case() {
    assert!(is_http_url("hTTp://x"));
    assert!(is_http_url("HTTPS://x"));
    assert!(!is_http_url("http:/x"));
    assert!(!is_http_url(" http://x"));
    assert!(!is_http_url("http"));
}

#[test]
fn hostnames() {
    assert!(is_public_hostname("example.com"));
    assert!(is_public_hostname("example.com."));
    assert!(is_public_hostname("mylocalhost"));
    assert!(is_public_hostname("local"));
    assert!(is_public_hostname("localhost.example"));
    assert!(!is_public_hostname(""));
    assert!(!is_public_hostname("..."));
    assert!(!is_public_hostname("localhost"));
    assert!(!is_public_hostname("localhost.."));
    assert!(!is_public_hostname("a.localhost"));
    assert!(!is_public_hostname("printer.local."));
}

#[test]
fn hosts_are_judged_by_kind() {
    assert!(is_public_host(&Host::Domain("example.com".to_string())));
    assert!(!is_public_host(&Host::Domain("localhost".to_string())));
    assert!(!is_public_host(&Host::Ipv4(Ipv4Addr { octets: [127, 0, 0, 1] })));
    assert!(!is_public_host(&Host::Ipv6(Ipv6Addr { segments: [0, 0, 0, 0, 0, 0, 0, 1] })));
    assert!(!is_safe_target("http://x", None, false));
    assert!(is_safe_target("http://x", None, true));
    assert!(is_safe_target("http://x", Some(Host::Domain("x".to_string())), false));
}

fn v4(a: u8, b: u8, c: u8, d: u8) -> bool {
    is_public_ipv4(Ipv4Addr { octets: [a, b, c, d] })
}

#[test]
fn ipv4_blocks_end_where_they_should() {
    assert!(!v4(0, 255, 255, 255));
    assert!(v4(1, 0, 0, 0));
    assert!(v4(9, 255, 255, 255));
    assert!(!v4(10, 255, 255, 255));
    assert!(v4(11, 0, 0, 0));
    assert!(v4(100, 63, 255, 255));
    assert!(!v4(100, 64, 0, 0));
    assert!(!v4(100, 127, 255, 255));
    assert!(v4(100, 128, 0, 0));
    assert!(v4(126, 255, 255, 255));
    assert!(!v4(127, 255, 255, 255));
    assert!(v4(169, 253, 255, 255));
    assert!(!v4(169, 254, 0, 0));
    assert!(v4(169, 255, 0, 0));
    assert!(v4(172, 15, 255, 255));
    assert!(!v4(172, 31, 255, 255));
    assert!(v4(192, 167, 255, 255));
    assert!(!v4(192, 168, 0, 0));
    assert!(v4(192, 169, 0, 0));
    assert!(v4(223, 255, 255, 255));
    assert!(!v4(224, 0, 0, 0));
    assert!(!v4(239, 255, 255, 255));
    assert!(v4(240, 0, 0, 0));
    assert!(v4(255, 255, 255, 254));
    assert!(!v4(255, 255, 255, 255));
}

fn v6(first: u16, last: u16) -> bool {
    is_public_ipv6(Ipv6Addr { segments: [first, 0, 0, 0, 0, 0, 0, last] })
}

#[test]
fn ipv6_blocks_end_where_they_should() {
    assert!(!v6(0, 0));
    assert!(!v6(0, 1));
    assert!(v6(0, 2));
    assert!(v6(0xfbff, 1));
    assert!(!v6(0xfc00, 1));
    assert!(!v6(0xfdff, 1));
    assert!(v6(0xfe00, 1));
    assert!(v6(0xfe7f, 1));
    assert!(!v6(0xfe80, 1));
    assert!(!v6(0xfebf, 1));
    assert!(v6(0xfec0, 1));
    assert!(!v6(0xff00, 1));
    assert!(!v6(0xffff, 1));
}

#[test]
fn mapped_addresses_are_judged_as_ipv4() {
    let mapped = |hi: u16, lo: u16| {
        is_public_ipv6(Ipv6Addr { segments: [0, 0, 0, 0, 0, 0xffff, hi, lo] })
    };
    assert!(!mapped(0x7f00, 0x0001));
    assert!(!mapped(0xa9fe, 0xa9fe));
    assert!(!mapped(0, 0));
    assert!(mapped(0x0808, 0x0808));
    // `::ffff` one segment further up is no mapped address.
    assert!(is_public_ipv6(Ipv6Addr { segments: [0, 0, 0, 0, 0xffff, 0, 0x7f00, 1] }));
}
