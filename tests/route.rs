use route_table::{parse_ip, parse_line, parse_proc_net_route, Ipv4, ParseHexError, Route, RouteError};

fn table(lines: &[&str]) -> Vec<Result<String, std::io::Error>> {
    lines.iter().map(|l| Ok(l.to_string())).collect()
}

const HEADER: &str = "Iface\tDestination\tGateway \tFlags\tRefCnt\tUse\tMetric\tMask\t\tMTU\tWindow\tIRTT";

#[test]
fn test_foo() {
    let lines = table(&[
        HEADER,
        "eno1\t00000000\t0101A8C0\t0003\t0\t0\t100\t00000000\t0\t0\t0",
        "eno1\t0001A8C0\t00000000\t0001\t0\t0\t100\t00FFFFFF\t0\t0\t0",
        "virbr0\t007AA8C0\t00000000\t0001\t0\t0\t0\t00FFFFFF\t0\t0\t0",
    ]);
    let vec = parse_proc_net_route(lines).unwrap();
    assert_eq!(vec[0], Route {
        iface: "eno1".to_string(),
        destination: Ipv4::new(0, 0, 0, 0),
        gateway: Ipv4::new(192, 168, 1, 1),
    });
    assert_eq!(vec[1], Route {
        iface: "eno1".to_string(),
        destination: Ipv4::new(192, 168, 1, 0),
        gateway: Ipv4::new(0, 0, 0, 0),
    });
    assert_eq!(vec[2], Route {
        iface: "virbr0".to_string(),
        destination: Ipv4::new(192, 168, 122, 0),
        gateway: Ipv4::new(0, 0, 0, 0),
    });
}

#[test]
fn parse_ip_returns_error_for_bad_input_0_length() {
    match parse_ip("000000") {
        Err(RouteError::BadInput) => (),
        otherwise => panic!("Expected RouteError::BadInput, got #{:?}", otherwise),
    }
}

#[test]
fn parse_ip_returns_error_for_bad_input_length_short() {
    match parse_ip("000000") {
        Err(RouteError::BadInput) => (),
        otherwise => panic!("Expected RouteError::BadInput, got #{:?}", otherwise),
    }
}

#[test]
fn parse_ip_returns_error_for_bad_input_length_long() {
    match parse_ip("0000000000") {
        Err(RouteError::BadInput) => (),
        otherwise => panic!("Expected RouteError::BadInput, got #{:?}", otherwise),
    }
}

#[test]
fn parse_ip_returns_parse_error_for_bad_input_length_bad_character() {
    match parse_ip("000foo00") {
        Err(RouteError::Parse(_)) => (),
        otherwise => panic!("Expected RouteError::BadInput, got #{:?}", otherwise),
    }
}

#[test]
fn decodes_all_zero_field() {
    assert_eq!(parse_ip("00000000").unwrap(), Ipv4::new(0, 0, 0, 0));
}

#[test]
fn decodes_reversed_bytes() {
    assert_eq!(parse_ip("0101A8C0").unwrap(), Ipv4::new(192, 168, 1, 1));
    assert_eq!(parse_ip("0101a8c0").unwrap(), Ipv4::new(192, 168, 1, 1));
    assert_eq!(parse_ip("04030201").unwrap().octets(), [1, 2, 3, 4]);
}

#[test]
fn route_parse_ip_matches_free_function() {
    assert_eq!(Route::parse_ip("007AA8C0").unwrap(), Ipv4::new(192, 168, 122, 0));
    assert!(matches!(Route::parse_ip("00"), Err(RouteError::BadInput)));
}

#[test]
fn seven_digits_make_four_chunks() {
    // chunks "12", "34", "56" and "7"
    assert_eq!(parse_ip("1234567").unwrap(), Ipv4::new(7, 0x56, 0x34, 0x12));
}

#[test]
fn empty_and_odd_fields_are_bad_input() {
    assert!(matches!(parse_ip(""), Err(RouteError::BadInput)));
    assert!(matches!(parse_ip("000000000"), Err(RouteError::BadInput)));
    assert!(matches!(parse_ip("0"), Err(RouteError::BadInput)));
}

#[test]
fn parse_error_names_first_bad_character() {
    match parse_ip("000foo00") {
        Err(RouteError::Parse(e)) => assert_eq!(e, ParseHexError { position: 4, found: 'o' }),
        otherwise => panic!("expected a parse error, got {:?}", otherwise),
    }
    match parse_ip("x") {
        Err(RouteError::Parse(e)) => assert_eq!(e, ParseHexError { position: 0, found: 'x' }),
        otherwise => panic!("expected a parse error, got {:?}", otherwise),
    }
}

#[test]
fn sign_is_not_a_hex_digit() {
    match parse_ip("+0000000") {
        Err(RouteError::Parse(e)) => assert_eq!(e, ParseHexError { position: 0, found: '+' }),
        otherwise => panic!("expected a parse error, got {:?}", otherwise),
    }
}

#[test]
fn well_formed_line_gives_one_route() {
    let r = parse_line("  wlan0   0000FEA9 00000000 0001 0 0 1000 0000FFFF 0 0 0  ").unwrap();
    assert_eq!(r.iface, "wlan0");
    assert_eq!(r.destination, Ipv4::new(169, 254, 0, 0));
    assert_eq!(r.gateway, Ipv4::new(0, 0, 0, 0));
    let t = parse_proc_net_route(table(&["anything", "lo 0000007F 00000000"])).unwrap();
    assert_eq!(t.len(), 1);
    assert_eq!(t[0].iface, "lo");
}

#[test]
fn unicode_whitespace_separates_columns() {
    let r = parse_line("eth0\u{a0}00000000\u{3000}0101A8C0").unwrap();
    assert_eq!(r.iface, "eth0");
    assert_eq!(r.gateway, Ipv4::new(192, 168, 1, 1));
}

#[test]
fn short_lines_are_bad_input() {
    assert!(matches!(parse_line(""), Err(RouteError::BadInput)));
    assert!(matches!(parse_line("   \t "), Err(RouteError::BadInput)));
    assert!(matches!(parse_line("eno1 00000000"), Err(RouteError::BadInput)));
    let t = parse_proc_net_route(table(&[HEADER, "eno1 00000000 0101A8C0", "eno1"]));
    assert!(matches!(t, Err(RouteError::BadInput)));
}

#[test]
fn line_errors_come_from_destination_first() {
    match parse_line("eno1 0000zz00 00000") {
        Err(RouteError::Parse(e)) => assert_eq!(e.position, 4),
        otherwise => panic!("expected a parse error, got {:?}", otherwise),
    }
    assert!(matches!(parse_line("eno1 00000 0000zz00"), Err(RouteError::BadInput)));
    match parse_line("eno1 00000000 0000zz00") {
        Err(RouteError::Parse(e)) => assert_eq!(e.found, 'z'),
        otherwise => panic!("expected a parse error, got {:?}", otherwise),
    }
}

#[test]
fn header_is_never_read() {
    let body = ["eno1 00000000 0101A8C0", "eno1 0001A8C0 00000000"];
    for header in ["", "not a route", "eno1 zz"] {
        let t = parse_proc_net_route(table(&[header, body[0], body[1]])).unwrap();
        assert_eq!(t.len(), 2);
        assert_eq!(t[1].destination, Ipv4::new(192, 168, 1, 0));
    }
}

#[test]
fn failed_header_read_is_io_error() {
    let mut lines = vec![Err(std::io::Error::new(std::io::ErrorKind::Other, "header"))];
    lines.extend(table(&["eno1 00000000 0101A8C0", "eno1 0001A8C0 00000000"]));
    match parse_proc_net_route(lines) {
        Err(RouteError::Io(e)) => assert_eq!(e.kind(), std::io::ErrorKind::Other),
        otherwise => panic!("expected an io error, got {:?}", otherwise),
    }
}

#[test]
fn extra_columns_and_spacing_do_not_matter() {
    let a = parse_line("eno1 00000000 0101A8C0").unwrap();
    let b = parse_line("\teno1\t\t00000000  0101A8C0 0003 0 0 100 00000000 0 0 0 ").unwrap();
    assert_eq!(a, b);
}

#[test]
fn header_only_and_empty_tables_have_no_routes() {
    assert!(parse_proc_net_route(table(&[HEADER])).unwrap().is_empty());
    assert!(parse_proc_net_route(Vec::new()).unwrap().is_empty());
}

#[test]
fn first_error_ends_the_parse() {
    let t = parse_proc_net_route(table(&[HEADER, "eno1 00000000 0101A8C0", "eno1 0000g000 0", "x"]));
    match t {
        Err(RouteError::Parse(e)) => assert_eq!(e, ParseHexError { position: 4, found: 'g' }),
        otherwise => panic!("expected a parse error, got {:?}", otherwise),
    }
}

#[test]
fn read_failure_is_io_error() {
    let mut lines = table(&[HEADER, "eno1 00000000 0101A8C0"]);
    lines.push(Err(std::io::Error::new(std::io::ErrorKind::InvalidData, "bad read")));
    lines.push(Ok("eno1".to_string()));
    match parse_proc_net_route(lines) {
        Err(RouteError::Io(e)) => assert_eq!(e.kind(), std::io::ErrorKind::InvalidData),
        otherwise => panic!("expected an io error, got {:?}", otherwise),
    }
}

#[test]
fn io_error_converts_into_route_error() {
    let e: RouteError = std::io::Error::new(std::io::ErrorKind::NotFound, "gone").into();
    assert!(matches!(e, RouteError::Io(ref inner) if inner.kind() == std::io::ErrorKind::NotFound));
}
