use scylla_bridge::endpoint::{decode_endpoint, SocketAddr};
use scylla_bridge::errors::{to_host_error, DecodeError, FieldId};
use scylla_bridge::harness::tests_socket_addr_wrapper;
use scylla_bridge::host::{HostEntry, HostObject, HostValue};
use scylla_bridge::ip::{render_ip, IpAddress};

fn obj(entries: Vec<(&str, HostValue)>) -> HostObject {
    HostObject {
        entries: entries
            .into_iter()
            .map(|(k, v)| HostEntry { key: k.to_string(), value: v })
            .collect(),
    }
}

fn endpoint_obj(address: &str, port: i64) -> HostObject {
    obj(vec![
        ("address", HostValue::Text(address.to_string())),
        ("port", HostValue::Int(port)),
    ])
}

fn decode_ok(address: &str, port: i64) -> SocketAddr {
    decode_endpoint(&endpoint_obj(address, port))
        .expect("decode should succeed")
        .into_inner()
}

#[test]
fn decodes_ipv4_loopback_with_port_8080() {
    let s = decode_ok("127.0.0.1", 8080);
    assert_eq!(render_ip(&s.ip), "127.0.0.1");
    assert_eq!(s.port, 8080);
    assert!(matches!(s.ip, IpAddress::V4(127, 0, 0, 1)));
}

#[test]
fn decodes_ipv6_loopback_with_port_7000() {
    let s = decode_ok("::1", 7000);
    assert_eq!(render_ip(&s.ip), "::1");
    assert_eq!(s.port, 7000);
}

#[test]
fn decodes_full_ipv6_with_port_3000() {
    let s = decode_ok("2001:db8:3333:4444:cccc:dddd:eeee:ffff", 3000);
    assert_eq!(render_ip(&s.ip), "2001:db8:3333:4444:cccc:dddd:eeee:ffff");
    assert_eq!(s.port, 3000);
}

#[test]
fn decodes_ipv4_any_with_port_0() {
    let s = decode_ok("0.0.0.0", 0);
    assert_eq!(render_ip(&s.ip), "0.0.0.0");
    assert_eq!(s.port, 0);
}

#[test]
fn decodes_ipv6_any_with_port_65535() {
    let s = decode_ok("::", 65535);
    assert_eq!(render_ip(&s.ip), "::");
    assert_eq!(s.port, 65535);
}

#[test]
fn missing_address_is_missing_field() {
    let o = obj(vec![("port", HostValue::Int(8080))]);
    let e = decode_endpoint(&o).unwrap_err();
    assert_eq!(e, DecodeError::MissingField(FieldId::Address));
    assert_eq!(
        to_host_error(&e).message,
        "Cannot retrieve socket address. Missing address field"
    );
}

#[test]
fn missing_port_is_missing_field() {
    let o = obj(vec![("address", HostValue::Text("127.0.0.1".to_string()))]);
    let e = decode_endpoint(&o).unwrap_err();
    assert_eq!(e, DecodeError::MissingField(FieldId::Port));
    assert_eq!(
        to_host_error(&e).message,
        "Cannot retrieve socket address. Missing port field"
    );
}

#[test]
fn non_ip_address_is_semantic_validation() {
    let o = endpoint_obj("not-an-ip", 8080);
    let e = decode_endpoint(&o).unwrap_err();
    assert_eq!(e, DecodeError::SemanticValidation(FieldId::Address));
    assert_eq!(
        to_host_error(&e).message,
        "Could not parse IP address: invalid IP address syntax"
    );
}

#[test]
fn non_text_address_is_type_mismatch() {
    let o = obj(vec![
        ("address", HostValue::Int(42)),
        ("port", HostValue::Int(8080)),
    ]);
    let e = decode_endpoint(&o).unwrap_err();
    assert_eq!(e, DecodeError::TypeMismatch(FieldId::Address));
}

#[test]
fn out_of_range_port_is_type_mismatch() {
    let o = endpoint_obj("127.0.0.1", 70000);
    let e = decode_endpoint(&o).unwrap_err();
    assert_eq!(e, DecodeError::TypeMismatch(FieldId::Port));
    let o2 = endpoint_obj("127.0.0.1", -1);
    assert_eq!(
        decode_endpoint(&o2).unwrap_err(),
        DecodeError::TypeMismatch(FieldId::Port)
    );
}

#[test]
fn non_int_port_is_type_mismatch() {
    let o = obj(vec![
        ("address", HostValue::Text("127.0.0.1".to_string())),
        ("port", HostValue::Text("8080".to_string())),
    ]);
    let e = decode_endpoint(&o).unwrap_err();
    assert_eq!(e, DecodeError::TypeMismatch(FieldId::Port));
}

#[test]
fn endpoint_harness_accepts_matching_cases() {
    let w = decode_endpoint(&endpoint_obj("127.0.0.1", 8080)).unwrap();
    assert!(tests_socket_addr_wrapper(w, 1));
    let w = decode_endpoint(&endpoint_obj("192.168.1.1", 9042)).unwrap();
    assert!(tests_socket_addr_wrapper(w, 2));
    let w = decode_endpoint(&endpoint_obj("::1", 7000)).unwrap();
    assert!(tests_socket_addr_wrapper(w, 3));
    let w = decode_endpoint(&endpoint_obj("2001:db8:3333:4444:cccc:dddd:eeee:ffff", 3000)).unwrap();
    assert!(tests_socket_addr_wrapper(w, 4));
    let w = decode_endpoint(&endpoint_obj("0.0.0.0", 0)).unwrap();
    assert!(tests_socket_addr_wrapper(w, 5));
    let w = decode_endpoint(&endpoint_obj("::", 65535)).unwrap();
    assert!(tests_socket_addr_wrapper(w, 6));
}

#[test]
fn endpoint_harness_rejects_mismatch_and_unknown_case() {
    let w = decode_endpoint(&endpoint_obj("127.0.0.1", 8081)).unwrap();
    assert!(!tests_socket_addr_wrapper(w, 1));
    let w = decode_endpoint(&endpoint_obj("127.0.0.2", 8080)).unwrap();
    assert!(!tests_socket_addr_wrapper(w, 1));
    let w = decode_endpoint(&endpoint_obj("127.0.0.1", 8080)).unwrap();
    assert!(!tests_socket_addr_wrapper(w, 7));
    assert!(!tests_socket_addr_wrapper(w, 0));
}
