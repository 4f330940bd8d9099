use aivpn_client::addr::SocketAddr;

fn v6(segments: [u16; 8], port: u16) -> SocketAddr {
    SocketAddr::V6 { segments, port, flowinfo: 0, scope_id: 0 }
}

fn round_trip(addr: SocketAddr, text: &str) {
    assert_eq!(addr.to_string(), text);
    assert_eq!(SocketAddr::parse(text), Some(addr));
}

#[test]
fn v4_addresses_round_trip() {
    round_trip(SocketAddr::from(([127, 0, 0, 1], 44301)), "127.0.0.1:44301");
    round_trip(SocketAddr::from(([192, 168, 100, 10], 1)), "192.168.100.10:1");
    round_trip(SocketAddr::from(([0, 0, 0, 0], 0)), "0.0.0.0:0");
    round_trip(SocketAddr::from(([255, 255, 255, 255], 65535)), "255.255.255.255:65535");
}

#[test]
fn v6_addresses_round_trip() {
    round_trip(v6([0, 0, 0, 0, 0, 0, 0, 0], 0), "[::]:0");
    round_trip(v6([0, 0, 0, 0, 0, 0, 0, 1], 9000), "[::1]:9000");
    round_trip(v6([0x2001, 0xdb8, 0, 0, 0, 0, 0, 1], 443), "[2001:db8::1]:443");
    round_trip(v6([1, 2, 3, 4, 5, 6, 7, 8], 80), "[1:2:3:4:5:6:7:8]:80");
    round_trip(v6([0xffff; 8], 65535), "[ffff:ffff:ffff:ffff:ffff:ffff:ffff:ffff]:65535");
    round_trip(v6([1, 2, 3, 4, 5, 6, 0, 0], 80), "[1:2:3:4:5:6::]:80");
    round_trip(v6([0, 0, 3, 4, 5, 6, 7, 8], 80), "[::3:4:5:6:7:8]:80");
}

#[test]
fn v6_longest_zero_run_is_left_out() {
    // The longest one,
    round_trip(v6([1, 0, 0, 2, 0, 0, 0, 3], 80), "[1:0:0:2::3]:80");
    // the first one of two that are equally long,
    round_trip(v6([1, 0, 0, 2, 0, 0, 3, 4], 80), "[1::2:0:0:3:4]:80");
    // and never a single group.
    round_trip(v6([1, 0, 2, 3, 4, 5, 6, 7], 80), "[1:0:2:3:4:5:6:7]:80");
}

#[test]
fn v6_mapped_addresses_have_a_dotted_tail() {
    round_trip(v6([0, 0, 0, 0, 0, 0xffff, 0xc000, 0x0280], 80), "[::ffff:192.0.2.128]:80");
    round_trip(v6([0, 0, 0, 0, 0, 0, 0x0102, 0x0304], 80), "[::102:304]:80");
}

#[test]
fn v6_scope_is_written() {
    let addr = SocketAddr::V6 {
        segments: [0xfe80, 0, 0, 0, 0, 0, 0, 1],
        port: 80,
        flowinfo: 0,
        scope_id: 7,
    };
    round_trip(addr, "[fe80::1%7]:80");
}

#[test]
fn v6_flow_information_is_not_written() {
    let addr = SocketAddr::V6 {
        segments: [0, 0, 0, 0, 0, 0, 0, 1],
        port: 80,
        flowinfo: 5,
        scope_id: 0,
    };
    assert_eq!(addr.to_string(), "[::1]:80");
    assert_eq!(SocketAddr::parse("[::1]:80"), Some(v6([0, 0, 0, 0, 0, 0, 0, 1], 80)));
}

#[test]
fn other_ways_to_write_an_address() {
    assert_eq!(SocketAddr::parse("1.2.3.4:0080"), Some(SocketAddr::from(([1, 2, 3, 4], 80))));
    assert_eq!(
        SocketAddr::parse("[2001:DB8::1]:443"),
        Some(v6([0x2001, 0xdb8, 0, 0, 0, 0, 0, 1], 443))
    );
    assert_eq!(
        SocketAddr::parse("[00ab:0:0:0:0:0:0:1]:1"),
        Some(v6([0xab, 0, 0, 0, 0, 0, 0, 1], 1))
    );
    assert_eq!(
        SocketAddr::parse("[::1.2.3.4]:5"),
        Some(v6([0, 0, 0, 0, 0, 0, 0x0102, 0x0304], 5))
    );
    assert_eq!(
        SocketAddr::parse("[1:2:3:4:5:6:1.2.3.4]:5"),
        Some(v6([1, 2, 3, 4, 5, 6, 0x0102, 0x0304], 5))
    );
    assert_eq!(
        SocketAddr::parse("[1:2:3:4:5:6:7::]:5"),
        Some(v6([1, 2, 3, 4, 5, 6, 7, 0], 5))
    );
}

#[test]
fn what_is_no_address() {
    for text in [
        "",
        "localhost:80",
        "127.0.0.1",
        "127.0.0.1:",
        "127.0.0.1:x",
        "127.0.0.1:65536",
        "127.0.0.1:80x",
        " 127.0.0.1:80",
        "127.0.0.1:80\n",
        "256.0.0.1:1",
        "01.2.3.4:5",
        "1.2.3:4",
        "1.2.3.4.5:6",
        "::1:80",
        "[::1]",
        "[::1]80",
        "[::1:80",
        "[::1%]:80",
        "[::1%4294967296]:80",
        "[12345::]:1",
        "[1::2::3]:1",
        "[1:2:3:4:5:6:7]:1",
        "[1:2:3:4:5:6:7:8:9]:1",
        "[::1:2:3:4:5:6:7:8]:1",
        "[1.2.3.4::]:1",
        "[1:2:3:4:5:6::1.2.3.4]:1",
    ] {
        assert_eq!(SocketAddr::parse(text), None, "{text}");
    }
}

#[test]
fn port_of_an_address() {
    assert_eq!(SocketAddr::from(([1, 2, 3, 4], 5)).port(), 5);
    assert_eq!(v6([0; 8], 6).port(), 6);
}
