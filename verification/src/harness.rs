//! Conformance checks callable from the host side: each takes an already
//! decoded value and a small case selector, and tells whether the value
//! equals the fixed expectation of that case. On an unknown case the
//! endpoint check reports failure (the original aborted there) while the
//! record check reports success (the original silently did nothing); the
//! asymmetry of the two is kept on purpose.

use vstd::prelude::*;
use vstd::string::StringExecFns;

use crate::endpoint::{SocketAddr, SocketAddrWrapper};
use crate::ip::{render_ip, spec_render_ip};
use crate::session::{SessionOptions, SslOptions};

verus! {

/// What the endpoint check expects of each case: the canonical rendering
/// of the address, and the port.
pub open spec fn endpoint_case_expected(case_id: i32, s: SocketAddr) -> bool {
    if case_id == 1 {
        spec_render_ip(s.ip) == "127.0.0.1"@ && s.port == 8080
    } else if case_id == 2 {
        spec_render_ip(s.ip) == "192.168.1.1"@ && s.port == 9042
    } else if case_id == 3 {
        spec_render_ip(s.ip) == "::1"@ && s.port == 7000
    } else if case_id == 4 {
        spec_render_ip(s.ip) == "2001:db8:3333:4444:cccc:dddd:eeee:ffff"@ && s.port == 3000
    } else if case_id == 5 {
        spec_render_ip(s.ip) == "0.0.0.0"@ && s.port == 0
    } else if case_id == 6 {
        spec_render_ip(s.ip) == "::"@ && s.port == 65535
    } else {
        false
    }
}

/// Compares a built text against a literal.
fn string_eq_lit(a: &String, b: &str) -> (r: bool)
    ensures
        r == (a@ == b@),
{
    let owned: String = b.to_owned();
    a.eq(&owned)
}

/// Checks a decoded endpoint against the fixed expectation selected by
/// `case_id`. An unknown case is reported as a failure, as the original
/// treated it as fatal.
pub fn tests_socket_addr_wrapper(socket_addr: SocketAddrWrapper, case_id: i32) -> (r: bool)
    ensures
        r == endpoint_case_expected(case_id, socket_addr.spec_inner()),
{
    let socket = socket_addr.into_inner();
    let rendered = render_ip(&socket.ip);
    if case_id == 1 {
        string_eq_lit(&rendered, "127.0.0.1") && socket.port == 8080
    } else if case_id == 2 {
        string_eq_lit(&rendered, "192.168.1.1") && socket.port == 9042
    } else if case_id == 3 {
        string_eq_lit(&rendered, "::1") && socket.port == 7000
    } else if case_id == 4 {
        string_eq_lit(&rendered, "2001:db8:3333:4444:cccc:dddd:eeee:ffff") && socket.port == 3000
    } else if case_id == 5 {
        string_eq_lit(&rendered, "0.0.0.0") && socket.port == 0
    } else if case_id == 6 {
        string_eq_lit(&rendered, "::") && socket.port == 65535
    } else {
        false
    }
}

/// The fully populated record fixture of the record check.
pub open spec fn is_full_session_fixture(r: SessionOptions) -> bool {
    &&& r.connect_points matches Some(v) && v.deep_view() == seq![
        "Contact point 1"@,
        "Contact point 2"@,
    ]
    &&& r.keyspace matches Some(s) && s@ == "keyspace name"@
    &&& r.application_name matches Some(s) && s@ == "App name"@
    &&& r.application_version matches Some(s) && s@ == "App version"@
    &&& r.client_id matches Some(s) && s@ == "Client id"@
    &&& r.credentials_username matches Some(s) && s@ == "Unique username"@
    &&& r.credentials_password matches Some(s) && s@ == "Unique password"@
    &&& r.cache_size == Some(2137u32)
    &&& r.ssl_options matches Some(ss) && ss.reject_unauthorized == Some(false)
}

/// The all-unset record fixture of the record check.
pub open spec fn is_all_none_session(r: SessionOptions) -> bool {
    &&& r.connect_points is None
    &&& r.keyspace is None
    &&& r.application_name is None
    &&& r.application_version is None
    &&& r.client_id is None
    &&& r.credentials_username is None
    &&& r.credentials_password is None
    &&& r.cache_size is None
    &&& r.ssl_options is None
}

/// Builds the fully populated record fixture.
fn full_session_fixture() -> (r: SessionOptions)
    ensures
        is_full_session_fixture(r),
{
    let mut points: Vec<String> = Vec::new();
    points.push("Contact point 1".to_owned());
    points.push("Contact point 2".to_owned());
    proof {
        assert(points.deep_view() =~= seq!["Contact point 1"@, "Contact point 2"@]);
    }
    SessionOptions {
        connect_points: Some(points),
        keyspace: Some("keyspace name".to_owned()),
        application_name: Some("App name".to_owned()),
        application_version: Some("App version".to_owned()),
        client_id: Some("Client id".to_owned()),
        credentials_username: Some("Unique username".to_owned()),
        credentials_password: Some("Unique password".to_owned()),
        cache_size: Some(2137),
        ssl_options: Some(SslOptions { reject_unauthorized: Some(false) }),
    }
}

/// Builds the all-unset record fixture.
fn all_none_session() -> (r: SessionOptions)
    ensures
        is_all_none_session(r),
{
    SessionOptions {
        connect_points: None,
        keyspace: None,
        application_name: None,
        application_version: None,
        client_id: None,
        credentials_username: None,
        credentials_password: None,
        cache_size: None,
        ssl_options: None,
    }
}

/// Equality against a value of the fully populated fixture shape holds
/// exactly of values of that shape.
proof fn lemma_eq_full_fixture(a: SessionOptions, b: SessionOptions)
    requires
        is_full_session_fixture(b),
    ensures
        a.spec_eq(b) == is_full_session_fixture(a),
{
}

/// Equality against the all-unset record holds exactly of all-unset
/// records.
proof fn lemma_eq_all_none(a: SessionOptions, b: SessionOptions)
    requires
        is_all_none_session(b),
    ensures
        a.spec_eq(b) == is_all_none_session(a),
{
}

/// Checks a decoded record against the fixed expectation selected by
/// `case`. An unknown case is reported as success, as the original
/// silently did nothing there.
pub fn tests_check_client_option(options: &SessionOptions, case: i32) -> (r: bool)
    ensures
        case == 1 ==> r == is_full_session_fixture(*options),
        case == 2 ==> r == is_all_none_session(*options),
        !(case == 1 || case == 2) ==> r == true,
{
    if case == 1 {
        let fix = full_session_fixture();
        let r = options.eq(&fix);
        proof {
            lemma_eq_full_fixture(*options, fix);
        }
        r
    } else if case == 2 {
        let fix = all_none_session();
        let r = options.eq(&fix);
        proof {
            lemma_eq_all_none(*options, fix);
        }
        r
    } else {
        true
    }
}

} // verus!
