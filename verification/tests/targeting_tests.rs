use mcscan::protocol::Ipv4Address;
use mcscan::targeting::parse_cidr;
use mcscan::targeting::parse_ipv4;
use mcscan::targeting::Cidr;
use mcscan::text::parse_i32;
use mcscan::text::parse_i32_or_zero;
use mcscan::text::parse_u16;
use mcscan::text::split_fields;
use mcscan::text::split_string;
use mcscan::text::str_contains;
use mcscan::text::str_contains_lower;
use mcscan::text::str_eq;
use mcscan::text::u16_to_decimal;

fn addr(a: u8, b: u8, c: u8, d: u8) -> Ipv4Address {
    Ipv4Address { a, b, c, d }
}

#[test]
fn ipv4_parsing() {
    assert_eq!(parse_ipv4("1.2.3.4"), Some(addr(1, 2, 3, 4)));
    assert_eq!(parse_ipv4("0.0.0.0"), Some(addr(0, 0, 0, 0)));
    assert_eq!(parse_ipv4("255.255.255.255"), Some(addr(255, 255, 255, 255)));
    assert_eq!(parse_ipv4("256.1.1.1"), None);
    assert_eq!(parse_ipv4("01.2.3.4"), None);
    assert_eq!(parse_ipv4("1.2.3"), None);
    assert_eq!(parse_ipv4("1.2.3.4.5"), None);
    assert_eq!(parse_ipv4("1.2.3."), None);
    assert_eq!(parse_ipv4("a.b.c.d"), None);
    assert_eq!(parse_ipv4(""), None);
}

#[test]
fn cidr_parsing() {
    assert_eq!(parse_cidr("10.0.0.0/8"), Some(Cidr { base: addr(10, 0, 0, 0), prefix: 8 }));
    assert_eq!(parse_cidr("1.2.3.4/32"), Some(Cidr { base: addr(1, 2, 3, 4), prefix: 32 }));
    assert_eq!(parse_cidr("10.0.0.0/33"), None);
    assert_eq!(parse_cidr("10.0.0.0"), None);
    assert_eq!(parse_cidr("10.0.0.0/"), None);
    assert_eq!(parse_cidr("10.0.0.0/8/9"), None);
    assert_eq!(parse_cidr("300.0.0.0/8"), None);
}

#[test]
fn cidr_hosts_skip_network_and_broadcast() {
    let net = parse_cidr("192.168.1.0/24").unwrap();
    assert_eq!(net.host_count(), 254);
    assert_eq!(net.nth_host(0), addr(192, 168, 1, 1));
    assert_eq!(net.nth_host(253), addr(192, 168, 1, 254));
}

#[test]
fn cidr_hosts_small_blocks_use_every_address() {
    let pair = parse_cidr("10.0.0.4/31").unwrap();
    assert_eq!(pair.host_count(), 2);
    assert_eq!(pair.nth_host(0), addr(10, 0, 0, 4));
    assert_eq!(pair.nth_host(1), addr(10, 0, 0, 5));
    let single = parse_cidr("10.0.0.9/32").unwrap();
    assert_eq!(single.host_count(), 1);
    assert_eq!(single.nth_host(0), addr(10, 0, 0, 9));
}

#[test]
fn cidr_base_with_host_bits_is_normalized() {
    let net = parse_cidr("192.168.1.77/24").unwrap();
    assert_eq!(net.host_count(), 254);
    assert_eq!(net.nth_host(0), addr(192, 168, 1, 1));
}

#[test]
fn number_parsing() {
    assert_eq!(parse_u16("25565"), Some(25565));
    assert_eq!(parse_u16("+80"), Some(80));
    assert_eq!(parse_u16("0"), Some(0));
    assert_eq!(parse_u16("65535"), Some(65535));
    assert_eq!(parse_u16("65536"), None);
    assert_eq!(parse_u16(""), None);
    assert_eq!(parse_u16("12a"), None);
    assert_eq!(parse_u16("-1"), None);

    assert_eq!(parse_i32("0"), Some(0));
    assert_eq!(parse_i32("-42"), Some(-42));
    assert_eq!(parse_i32("+42"), Some(42));
    assert_eq!(parse_i32("2147483647"), Some(2147483647));
    assert_eq!(parse_i32("2147483648"), None);
    assert_eq!(parse_i32("-2147483648"), Some(-2147483648));
    assert_eq!(parse_i32("-2147483649"), None);
    assert_eq!(parse_i32("99999999999999999999"), None);
    assert_eq!(parse_i32(""), None);
    assert_eq!(parse_i32("-"), None);
    assert_eq!(parse_i32("1.5"), None);
    assert_eq!(parse_i32_or_zero("17"), 17);
    assert_eq!(parse_i32_or_zero("seventeen"), 0);
}

#[test]
fn text_helpers() {
    assert!(str_eq("abc", "abc"));
    assert!(!str_eq("abc", "abd"));
    assert!(!str_eq("abc", "ab"));
    assert!(str_contains("hello world", "o w"));
    assert!(str_contains("hello", ""));
    assert!(!str_contains("hello", "world"));
    assert!(str_contains_lower("Paper 1.20.4", "paper"));
    assert!(str_contains_lower("VELOCITY", "velocity"));
    assert!(!str_contains_lower("Vanilla", "paper"));

    let parts = split_string("a::b:", ':');
    assert_eq!(parts, vec!["a", "", "b", ""]);
    assert_eq!(split_string("", ':'), vec![""]);

    let fields = split_fields("  one  two   three ");
    assert_eq!(fields, vec!["one", "two", "three"]);
    assert_eq!(split_fields("   "), Vec::<String>::new());

    assert_eq!(u16_to_decimal(0), "0");
    assert_eq!(u16_to_decimal(7), "7");
    assert_eq!(u16_to_decimal(25565), "25565");
    assert_eq!(u16_to_decimal(65535), "65535");
}
