use scylla_bridge::errors::{DecodeError, FieldId};
use scylla_bridge::harness::tests_check_client_option;
use scylla_bridge::host::{HostEntry, HostObject, HostValue};
use scylla_bridge::session::{decode_session_options, decode_ssl_options, SessionOptions, SslOptions};

fn obj(entries: Vec<(&str, HostValue)>) -> HostObject {
    HostObject {
        entries: entries
            .into_iter()
            .map(|(k, v)| HostEntry { key: k.to_string(), value: v })
            .collect(),
    }
}

fn full_session_obj() -> HostObject {
    obj(vec![
        (
            "connectPoints",
            HostValue::TextList(vec![
                "Contact point 1".to_string(),
                "Contact point 2".to_string(),
            ]),
        ),
        ("keyspace", HostValue::Text("keyspace name".to_string())),
        ("applicationName", HostValue::Text("App name".to_string())),
        (
            "applicationVersion",
            HostValue::Text("App version".to_string()),
        ),
        ("clientId", HostValue::Text("Client id".to_string())),
        (
            "credentialsUsername",
            HostValue::Text("Unique username".to_string()),
        ),
        (
            "credentialsPassword",
            HostValue::Text("Unique password".to_string()),
        ),
        ("cacheSize", HostValue::Int(2137)),
        (
            "sslOptions",
            HostValue::Object(obj(vec![(
                "rejectUnauthorized",
                HostValue::Flag(false),
            )])),
        ),
    ])
}

#[test]
fn full_object_decodes_to_full_record() {
    let r = decode_session_options(&full_session_obj()).expect("decode should succeed");
    assert_eq!(
        r.connect_points,
        Some(vec![
            "Contact point 1".to_string(),
            "Contact point 2".to_string()
        ])
    );
    assert_eq!(r.keyspace, Some("keyspace name".to_string()));
    assert_eq!(r.application_name, Some("App name".to_string()));
    assert_eq!(r.application_version, Some("App version".to_string()));
    assert_eq!(r.client_id, Some("Client id".to_string()));
    assert_eq!(r.credentials_username, Some("Unique username".to_string()));
    assert_eq!(r.credentials_password, Some("Unique password".to_string()));
    assert_eq!(r.cache_size, Some(2137));
    assert_eq!(
        r.ssl_options,
        Some(SslOptions {
            reject_unauthorized: Some(false)
        })
    );
}

#[test]
fn empty_object_decodes_to_all_none() {
    let r = decode_session_options(&obj(vec![])).expect("decode should succeed");
    let expected = SessionOptions {
        connect_points: None,
        keyspace: None,
        application_name: None,
        application_version: None,
        client_id: None,
        credentials_username: None,
        credentials_password: None,
        cache_size: None,
        ssl_options: None,
    };
    assert_eq!(r, expected);
}

#[test]
fn decoding_twice_gives_equal_records() {
    let o = full_session_obj();
    let r1 = decode_session_options(&o).unwrap();
    let r2 = decode_session_options(&o).unwrap();
    assert_eq!(r1, r2);
    let e = obj(vec![]);
    assert_eq!(
        decode_session_options(&e).unwrap(),
        decode_session_options(&e).unwrap()
    );
}

#[test]
fn unknown_keys_are_ignored() {
    let o = obj(vec![
        ("keyspace", HostValue::Text("ks".to_string())),
        ("unrelated", HostValue::Int(5)),
    ]);
    let r = decode_session_options(&o).unwrap();
    assert_eq!(r.keyspace, Some("ks".to_string()));
    assert_eq!(r.cache_size, None);
    assert_eq!(r.connect_points, None);
}

#[test]
fn wrong_typed_field_fails_whole_decode() {
    let o = obj(vec![
        ("keyspace", HostValue::Int(3)),
        ("cacheSize", HostValue::Int(10)),
    ]);
    assert_eq!(
        decode_session_options(&o).unwrap_err(),
        DecodeError::TypeMismatch(FieldId::Keyspace)
    );
}

#[test]
fn out_of_range_cache_size_is_type_mismatch() {
    let o = obj(vec![("cacheSize", HostValue::Int(4294967296))]);
    assert_eq!(
        decode_session_options(&o).unwrap_err(),
        DecodeError::TypeMismatch(FieldId::CacheSize)
    );
    let o2 = obj(vec![("cacheSize", HostValue::Int(-1))]);
    assert_eq!(
        decode_session_options(&o2).unwrap_err(),
        DecodeError::TypeMismatch(FieldId::CacheSize)
    );
}

#[test]
fn wrong_typed_connect_points_is_type_mismatch() {
    let o = obj(vec![(
        "connectPoints",
        HostValue::Text("not a list".to_string()),
    )]);
    assert_eq!(
        decode_session_options(&o).unwrap_err(),
        DecodeError::TypeMismatch(FieldId::ConnectPoints)
    );
}

#[test]
fn nested_ssl_error_propagates_unchanged() {
    let o = obj(vec![(
        "sslOptions",
        HostValue::Object(obj(vec![(
            "rejectUnauthorized",
            HostValue::Int(1),
        )])),
    )]);
    assert_eq!(
        decode_session_options(&o).unwrap_err(),
        DecodeError::TypeMismatch(FieldId::RejectUnauthorized)
    );
}

#[test]
fn non_object_ssl_options_is_type_mismatch() {
    let o = obj(vec![("sslOptions", HostValue::Flag(true))]);
    assert_eq!(
        decode_session_options(&o).unwrap_err(),
        DecodeError::TypeMismatch(FieldId::SslOptions)
    );
}

#[test]
fn absent_ssl_options_is_none_not_empty_record() {
    let r = decode_session_options(&obj(vec![])).unwrap();
    assert_eq!(r.ssl_options, None);
}

#[test]
fn present_empty_ssl_options_is_all_none_record() {
    let o = obj(vec![("sslOptions", HostValue::Object(obj(vec![])))]);
    let r = decode_session_options(&o).unwrap();
    assert_eq!(
        r.ssl_options,
        Some(SslOptions {
            reject_unauthorized: None
        })
    );
}

#[test]
fn decode_ssl_options_reads_reject_unauthorized() {
    let o = obj(vec![("rejectUnauthorized", HostValue::Flag(true))]);
    assert_eq!(
        decode_ssl_options(&o).unwrap(),
        SslOptions {
            reject_unauthorized: Some(true)
        }
    );
}

#[test]
fn changing_one_field_changes_only_that_field() {
    let base = full_session_obj();
    let mut changed = full_session_obj();
    for e in changed.entries.iter_mut() {
        if e.key == "keyspace" {
            e.value = HostValue::Text("another keyspace".to_string());
        }
    }
    let r1 = decode_session_options(&base).unwrap();
    let r2 = decode_session_options(&changed).unwrap();
    assert_ne!(r1, r2);
    assert_eq!(r2.keyspace, Some("another keyspace".to_string()));
    assert_eq!(r1.connect_points, r2.connect_points);
    assert_eq!(r1.application_name, r2.application_name);
    assert_eq!(r1.application_version, r2.application_version);
    assert_eq!(r1.client_id, r2.client_id);
    assert_eq!(r1.credentials_username, r2.credentials_username);
    assert_eq!(r1.credentials_password, r2.credentials_password);
    assert_eq!(r1.cache_size, r2.cache_size);
    assert_eq!(r1.ssl_options, r2.ssl_options);
}

#[test]
fn record_equality_is_field_wise() {
    let r1 = decode_session_options(&full_session_obj()).unwrap();
    let r2 = decode_session_options(&full_session_obj()).unwrap();
    assert_eq!(r1, r2);
    let mut r3 = decode_session_options(&full_session_obj()).unwrap();
    r3.cache_size = Some(2138);
    assert_ne!(r1, r3);
}

#[test]
fn record_harness_matches_fixtures() {
    let full = decode_session_options(&full_session_obj()).unwrap();
    assert!(tests_check_client_option(&full, 1));
    assert!(!tests_check_client_option(&full, 2));
    let none = decode_session_options(&obj(vec![])).unwrap();
    assert!(tests_check_client_option(&none, 2));
    assert!(!tests_check_client_option(&none, 1));
}

#[test]
fn record_harness_ignores_unknown_case() {
    let none = decode_session_options(&obj(vec![])).unwrap();
    assert!(tests_check_client_option(&none, 3));
    assert!(tests_check_client_option(&none, 0));
}
