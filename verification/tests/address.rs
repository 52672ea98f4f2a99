use subruster::address::IpAddress;

fn v6_text(s: [u16; 8]) -> String {
    IpAddress::V6(s).to_text()
}

#[test]
fn ipv4_text() {
    assert_eq!(IpAddress::V4([93, 184, 216, 34]).to_text(), "93.184.216.34");
    assert_eq!(IpAddress::V4([0, 0, 0, 0]).to_text(), "0.0.0.0");
    assert_eq!(IpAddress::V4([255, 255, 255, 255]).to_text(), "255.255.255.255");
}

#[test]
fn ipv6_text_compresses_first_longest_zero_run() {
    assert_eq!(v6_text([0x2001, 0xdb8, 0, 0, 1, 0, 0, 1]), "2001:db8::1:0:0:1");
    assert_eq!(v6_text([0, 0, 0, 0, 0, 0, 0, 1]), "::1");
    assert_eq!(v6_text([0, 0, 0, 0, 0, 0, 0, 0]), "::");
    assert_eq!(v6_text([1, 0, 0, 2, 0, 0, 0, 3]), "1:0:0:2::3");
    assert_eq!(v6_text([0, 0, 1, 0, 0, 0, 0, 0]), "0:0:1::");
    assert_eq!(v6_text([0xfe80, 0, 0, 0, 0x202, 0xb3ff, 0xfe1e, 0x8329]), "fe80::202:b3ff:fe1e:8329");
}

#[test]
fn ipv6_text_without_compression() {
    assert_eq!(v6_text([0x2001, 0xdb8, 0, 1, 1, 1, 1, 1]), "2001:db8:0:1:1:1:1:1");
    assert_eq!(v6_text([1, 2, 3, 4, 5, 6, 7, 8]), "1:2:3:4:5:6:7:8");
    assert_eq!(v6_text([0xffff, 0, 0xffff, 0, 0xffff, 0, 0xffff, 0]), "ffff:0:ffff:0:ffff:0:ffff:0");
}

#[test]
fn ipv6_text_of_ipv4_mapped_address() {
    assert_eq!(v6_text([0, 0, 0, 0, 0, 0xffff, 0xc000, 0x0280]), "::ffff:192.0.2.128");
}
