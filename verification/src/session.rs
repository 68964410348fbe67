//! Partial configuration records: session options and nested SSL options.
//! Every field is independently optional; a field absent from the host
//! object decodes to `None`, a field present with the wrong type aborts
//! the whole decode.

use vstd::prelude::*;

use crate::errors::{field_key, field_key_str, DecodeError, FieldId};
use crate::host::{HostObject, HostValue};

verus! {

/// SSL settings, nested inside the session options.
#[derive(Debug)]
pub struct SslOptions {
    pub reject_unauthorized: Option<bool>,
}

/// Options of a database session, as supplied by the host.
#[derive(Debug)]
pub struct SessionOptions {
    pub connect_points: Option<Vec<String>>,
    pub keyspace: Option<String>,
    pub application_name: Option<String>,
    pub application_version: Option<String>,
    pub client_id: Option<String>,
    pub credentials_username: Option<String>,
    pub credentials_password: Option<String>,
    pub cache_size: Option<u32>,
    pub ssl_options: Option<SslOptions>,
}

/// The mathematical content of an optional text field.
pub open spec fn opt_text_view(a: Option<String>) -> Option<Seq<char>> {
    match a {
        Option::None => Option::None,
        Option::Some(s) => Option::Some(s@),
    }
}

/// The mathematical content of an optional list-of-texts field.
pub open spec fn opt_text_list_view(a: Option<Vec<String>>) -> Option<Seq<Seq<char>>> {
    match a {
        Option::None => Option::None,
        Option::Some(v) => Option::Some(v.deep_view()),
    }
}

/// The mathematical content of a session options record: every text
/// replaced by its character sequence.
pub ghost struct SessionOptionsView {
    pub connect_points: Option<Seq<Seq<char>>>,
    pub keyspace: Option<Seq<char>>,
    pub application_name: Option<Seq<char>>,
    pub application_version: Option<Seq<char>>,
    pub client_id: Option<Seq<char>>,
    pub credentials_username: Option<Seq<char>>,
    pub credentials_password: Option<Seq<char>>,
    pub cache_size: Option<u32>,
    pub ssl_options: Option<SslOptions>,
}

impl View for SessionOptions {
    type V = SessionOptionsView;

    open spec fn view(&self) -> SessionOptionsView {
        SessionOptionsView {
            connect_points: opt_text_list_view(self.connect_points),
            keyspace: opt_text_view(self.keyspace),
            application_name: opt_text_view(self.application_name),
            application_version: opt_text_view(self.application_version),
            client_id: opt_text_view(self.client_id),
            credentials_username: opt_text_view(self.credentials_username),
            credentials_password: opt_text_view(self.credentials_password),
            cache_size: self.cache_size,
            ssl_options: self.ssl_options,
        }
    }
}

/// Field-wise equality of optional texts, by their character sequences.
pub open spec fn opt_text_eq(a: Option<String>, b: Option<String>) -> bool {
    match (a, b) {
        (Option::None, Option::None) => true,
        (Option::Some(x), Option::Some(y)) => x@ == y@,
        _ => false,
    }
}

/// Field-wise equality of optional text lists, by their character sequences.
pub open spec fn opt_text_list_eq(a: Option<Vec<String>>, b: Option<Vec<String>>) -> bool {
    match (a, b) {
        (Option::None, Option::None) => true,
        (Option::Some(x), Option::Some(y)) => x.deep_view() == y.deep_view(),
        _ => false,
    }
}

impl SslOptions {
    /// Two SSL option records are equal iff their fields are equal.
    pub open spec fn spec_eq(self, other: SslOptions) -> bool {
        self.reject_unauthorized == other.reject_unauthorized
    }
}

impl SessionOptions {
    /// Two session option records are equal iff all corresponding fields
    /// are equal (`None` equals `None`; texts compare by contents).
    pub open spec fn spec_eq(self, other: SessionOptions) -> bool {
        &&& opt_text_list_eq(self.connect_points, other.connect_points)
        &&& opt_text_eq(self.keyspace, other.keyspace)
        &&& opt_text_eq(self.application_name, other.application_name)
        &&& opt_text_eq(self.application_version, other.application_version)
        &&& opt_text_eq(self.client_id, other.client_id)
        &&& opt_text_eq(self.credentials_username, other.credentials_username)
        &&& opt_text_eq(self.credentials_password, other.credentials_password)
        &&& self.cache_size == other.cache_size
        &&& match (self.ssl_options, other.ssl_options) {
            (Option::None, Option::None) => true,
            (Option::Some(x), Option::Some(y)) => x.spec_eq(y),
            _ => false,
        }
    }
}

/// Compares two text lists by contents.
fn text_list_eq(a: &Vec<String>, b: &Vec<String>) -> (r: bool)
    ensures
        r == (a.deep_view() == b.deep_view()),
{
    if a.len() != b.len() {
        proof {
            assert(a.deep_view().len() == a@.len());
            assert(b.deep_view().len() == b@.len());
        }
        return false;
    }
    let n = a.len();
    let mut i: usize = 0;
    while i < n
        invariant
            n == a@.len(),
            n == b@.len(),
            i <= n,
            forall|j: int| 0 <= j < i ==> a@[j]@ == b@[j]@,
        decreases n - i,
    {
        if !a[i].eq(&b[i]) {
            proof {
                assert(a.deep_view()[i as int] == a@[i as int]@);
                assert(b.deep_view()[i as int] == b@[i as int]@);
            }
            return false;
        }
        i += 1;
    }
    proof {
        assert(a.deep_view() =~= b.deep_view());
    }
    true
}

/// Compares two optional texts by contents.
fn opt_text_eq_exec(a: &Option<String>, b: &Option<String>) -> (r: bool)
    ensures
        r == opt_text_eq(*a, *b),
{
    match (a, b) {
        (Option::None, Option::None) => true,
        (Option::Some(x), Option::Some(y)) => x.eq(y),
        _ => false,
    }
}

impl PartialEq for SslOptions {
    fn eq(&self, other: &SslOptions) -> (r: bool) {
        match (self.reject_unauthorized, other.reject_unauthorized) {
            (Option::None, Option::None) => true,
            (Option::Some(x), Option::Some(y)) => x == y,
            _ => false,
        }
    }
}

impl vstd::std_specs::cmp::PartialEqSpecImpl for SslOptions {
    open spec fn obeys_eq_spec() -> bool {
        true
    }

    open spec fn eq_spec(&self, other: &SslOptions) -> bool {
        self.spec_eq(*other)
    }
}

impl PartialEq for SessionOptions {
    fn eq(&self, other: &SessionOptions) -> (r: bool) {
        let cp = match (&self.connect_points, &other.connect_points) {
            (Option::None, Option::None) => true,
            (Option::Some(x), Option::Some(y)) => text_list_eq(x, y),
            _ => false,
        };
        let ssl = match (&self.ssl_options, &other.ssl_options) {
            (Option::None, Option::None) => true,
            (Option::Some(x), Option::Some(y)) => x.eq(y),
            _ => false,
        };
        let cache = match (self.cache_size, other.cache_size) {
            (Option::None, Option::None) => true,
            (Option::Some(x), Option::Some(y)) => x == y,
            _ => false,
        };
        cp && ssl && cache && opt_text_eq_exec(&self.keyspace, &other.keyspace)
            && opt_text_eq_exec(&self.application_name, &other.application_name)
            && opt_text_eq_exec(&self.application_version, &other.application_version)
            && opt_text_eq_exec(&self.client_id, &other.client_id)
            && opt_text_eq_exec(&self.credentials_username, &other.credentials_username)
            && opt_text_eq_exec(&self.credentials_password, &other.credentials_password)
    }
}

impl vstd::std_specs::cmp::PartialEqSpecImpl for SessionOptions {
    open spec fn obeys_eq_spec() -> bool {
        true
    }

    open spec fn eq_spec(&self, other: &SessionOptions) -> bool {
        self.spec_eq(*other)
    }
}

/// Extraction of an optional text field: absent is `None`, a non-text
/// value is a type mismatch.
pub open spec fn spec_text_field(o: HostObject, f: FieldId) -> Result<
    Option<Seq<char>>,
    DecodeError,
> {
    match o.spec_lookup(field_key(f)) {
        Option::None => Ok(Option::None),
        Option::Some(HostValue::Text(s)) => Ok(Option::Some(s@)),
        Option::Some(_) => Err(DecodeError::TypeMismatch(f)),
    }
}

/// Extraction of an optional boolean field.
pub open spec fn spec_flag_field(o: HostObject, f: FieldId) -> Result<Option<bool>, DecodeError> {
    match o.spec_lookup(field_key(f)) {
        Option::None => Ok(Option::None),
        Option::Some(HostValue::Flag(b)) => Ok(Option::Some(b)),
        Option::Some(_) => Err(DecodeError::TypeMismatch(f)),
    }
}

/// Extraction of an optional unsigned 32-bit field: an integer outside
/// [0, 2^32 - 1] does not convert.
pub open spec fn spec_uint_field(o: HostObject, f: FieldId) -> Result<Option<u32>, DecodeError> {
    match o.spec_lookup(field_key(f)) {
        Option::None => Ok(Option::None),
        Option::Some(HostValue::Int(n)) => if 0 <= n <= 4294967295i64 {
            Ok(Option::Some(n as u32))
        } else {
            Err(DecodeError::TypeMismatch(f))
        },
        Option::Some(_) => Err(DecodeError::TypeMismatch(f)),
    }
}

/// Extraction of an optional list-of-texts field.
pub open spec fn spec_text_list_field(o: HostObject, f: FieldId) -> Result<
    Option<Seq<Seq<char>>>,
    DecodeError,
> {
    match o.spec_lookup(field_key(f)) {
        Option::None => Ok(Option::None),
        Option::Some(HostValue::TextList(v)) => Ok(Option::Some(v.deep_view())),
        Option::Some(_) => Err(DecodeError::TypeMismatch(f)),
    }
}

/// Decode of the nested SSL options object.
pub open spec fn spec_decode_ssl(o: HostObject) -> Result<SslOptions, DecodeError> {
    match spec_flag_field(o, FieldId::RejectUnauthorized) {
        Err(e) => Err(e),
        Ok(b) => Ok(SslOptions { reject_unauthorized: b }),
    }
}

/// Extraction of the optional nested SSL options field: absent is `None`
/// (not an all-`None` nested record); a failure inside the nested decode
/// propagates unchanged.
pub open spec fn spec_ssl_field(o: HostObject) -> Result<Option<SslOptions>, DecodeError> {
    match o.spec_lookup(field_key(FieldId::SslOptions)) {
        Option::None => Ok(Option::None),
        Option::Some(HostValue::Object(inner)) => match spec_decode_ssl(inner) {
            Err(e) => Err(e),
            Ok(ssl) => Ok(Option::Some(ssl)),
        },
        Option::Some(_) => Err(DecodeError::TypeMismatch(FieldId::SslOptions)),
    }
}

/// Decode of the session options record: each field is looked up under its
/// external key; an absent field is `None`; the first ill-typed field aborts
/// the decode with a `TypeMismatch` naming it.
pub open spec fn spec_decode_session(o: HostObject) -> Result<SessionOptionsView, DecodeError> {
    match spec_text_list_field(o, FieldId::ConnectPoints) {
        Err(e) => Err(e),
        Ok(connect_points) => match spec_text_field(o, FieldId::Keyspace) {
            Err(e) => Err(e),
            Ok(keyspace) => match spec_text_field(o, FieldId::ApplicationName) {
                Err(e) => Err(e),
                Ok(application_name) => match spec_text_field(o, FieldId::ApplicationVersion) {
                    Err(e) => Err(e),
                    Ok(application_version) => match spec_text_field(o, FieldId::ClientId) {
                        Err(e) => Err(e),
                        Ok(client_id) => match spec_text_field(o, FieldId::CredentialsUsername) {
                            Err(e) => Err(e),
                            Ok(credentials_username) => match spec_text_field(
                                o,
                                FieldId::CredentialsPassword,
                            ) {
                                Err(e) => Err(e),
                                Ok(credentials_password) => match spec_uint_field(
                                    o,
                                    FieldId::CacheSize,
                                ) {
                                    Err(e) => Err(e),
                                    Ok(cache_size) => match spec_ssl_field(o) {
                                        Err(e) => Err(e),
                                        Ok(ssl_options) => Ok(
                                            SessionOptionsView {
                                                connect_points,
                                                keyspace,
                                                application_name,
                                                application_version,
                                                client_id,
                                                credentials_username,
                                                credentials_password,
                                                cache_size,
                                                ssl_options,
                                            },
                                        ),
                                    },
                                },
                            },
                        },
                    },
                },
            },
        },
    }
}

/// Clones a list of texts.
fn clone_text_list(v: &Vec<String>) -> (r: Vec<String>)
    ensures
        r@ == v@,
{
    let n = v.len();
    let mut r: Vec<String> = Vec::new();
    let mut i: usize = 0;
    while i < n
        invariant
            n == v@.len(),
            i <= n,
            r@ =~= v@.subrange(0, i as int),
        decreases n - i,
    {
        r.push(v[i].clone());
        i += 1;
    }
    proof {
        assert(r@ =~= v@);
    }
    r
}

/// Extracts an optional text field from a host object.
fn text_field(o: &HostObject, f: FieldId) -> (r: Result<Option<String>, DecodeError>)
    ensures
        spec_text_field(*o, f) == (match r {
            Ok(v) => Ok::<Option<Seq<char>>, DecodeError>(opt_text_view(v)),
            Err(e) => Err(e),
        }),
{
    match o.lookup(field_key_str(f)) {
        Option::None => Ok(Option::None),
        Option::Some(v) => match v {
            HostValue::Text(s) => Ok(Option::Some(s.clone())),
            _ => Err(DecodeError::TypeMismatch(f)),
        },
    }
}

/// Extracts an optional boolean field from a host object.
fn flag_field(o: &HostObject, f: FieldId) -> (r: Result<Option<bool>, DecodeError>)
    ensures
        r == spec_flag_field(*o, f),
{
    match o.lookup(field_key_str(f)) {
        Option::None => Ok(Option::None),
        Option::Some(v) => match v {
            HostValue::Flag(b) => Ok(Option::Some(*b)),
            _ => Err(DecodeError::TypeMismatch(f)),
        },
    }
}

/// Extracts an optional unsigned 32-bit field from a host object.
fn uint_field(o: &HostObject, f: FieldId) -> (r: Result<Option<u32>, DecodeError>)
    ensures
        r == spec_uint_field(*o, f),
{
    match o.lookup(field_key_str(f)) {
        Option::None => Ok(Option::None),
        Option::Some(v) => match v {
            HostValue::Int(n) => if 0 <= *n && *n <= 4294967295i64 {
                Ok(Option::Some(*n as u32))
            } else {
                Err(DecodeError::TypeMismatch(f))
            },
            _ => Err(DecodeError::TypeMismatch(f)),
        },
    }
}

/// Extracts an optional list-of-texts field from a host object.
fn text_list_field(o: &HostObject, f: FieldId) -> (r: Result<Option<Vec<String>>, DecodeError>)
    ensures
        spec_text_list_field(*o, f) == (match r {
            Ok(v) => Ok::<Option<Seq<Seq<char>>>, DecodeError>(opt_text_list_view(v)),
            Err(e) => Err(e),
        }),
{
    match o.lookup(field_key_str(f)) {
        Option::None => Ok(Option::None),
        Option::Some(v) => match v {
            HostValue::TextList(l) => Ok(Option::Some(clone_text_list(l))),
            _ => Err(DecodeError::TypeMismatch(f)),
        },
    }
}

/// Decodes the nested SSL options object.
pub fn decode_ssl_options(o: &HostObject) -> (r: Result<SslOptions, DecodeError>)
    ensures
        r == spec_decode_ssl(*o),
{
    match flag_field(o, FieldId::RejectUnauthorized) {
        Err(e) => Err(e),
        Ok(b) => Ok(SslOptions { reject_unauthorized: b }),
    }
}

/// Extracts the optional nested SSL options field.
fn ssl_field(o: &HostObject) -> (r: Result<Option<SslOptions>, DecodeError>)
    ensures
        r == spec_ssl_field(*o),
{
    match o.lookup(field_key_str(FieldId::SslOptions)) {
        Option::None => Ok(Option::None),
        Option::Some(v) => match v {
            HostValue::Object(inner) => match decode_ssl_options(inner) {
                Err(e) => Err(e),
                Ok(ssl) => Ok(Option::Some(ssl)),
            },
            _ => Err(DecodeError::TypeMismatch(FieldId::SslOptions)),
        },
    }
}

/// Decodes the session options record from a host object.
///
/// Each field is looked up under its external (camel-cased) key. An absent
/// key yields `None` for that field; a key whose value has the wrong type
/// fails the whole decode with `TypeMismatch` naming the field; the nested
/// `sslOptions` object is decoded recursively and its failures propagate
/// unchanged. An empty object decodes to the all-`None` record.
pub fn decode_session_options(o: &HostObject) -> (r: Result<SessionOptions, DecodeError>)
    ensures
        spec_decode_session(*o) == (match r {
            Ok(rec) => Ok::<SessionOptionsView, DecodeError>(rec@),
            Err(e) => Err(e),
        }),
{
    let connect_points = match text_list_field(o, FieldId::ConnectPoints) {
        Ok(v) => v,
        Err(e) => { return Err(e); },
    };
    let keyspace = match text_field(o, FieldId::Keyspace) {
        Ok(v) => v,
        Err(e) => { return Err(e); },
    };
    let application_name = match text_field(o, FieldId::ApplicationName) {
        Ok(v) => v,
        Err(e) => { return Err(e); },
    };
    let application_version = match text_field(o, FieldId::ApplicationVersion) {
        Ok(v) => v,
        Err(e) => { return Err(e); },
    };
    let client_id = match text_field(o, FieldId::ClientId) {
        Ok(v) => v,
        Err(e) => { return Err(e); },
    };
    let credentials_username = match text_field(o, FieldId::CredentialsUsername) {
        Ok(v) => v,
        Err(e) => { return Err(e); },
    };
    let credentials_password = match text_field(o, FieldId::CredentialsPassword) {
        Ok(v) => v,
        Err(e) => { return Err(e); },
    };
    let cache_size = match uint_field(o, FieldId::CacheSize) {
        Ok(v) => v,
        Err(e) => { return Err(e); },
    };
    let ssl_options = match ssl_field(o) {
        Ok(v) => v,
        Err(e) => { return Err(e); },
    };
    Ok(
        SessionOptions {
            connect_points,
            keyspace,
            application_name,
            application_version,
            client_id,
            credentials_username,
            credentials_password,
            cache_size,
            ssl_options,
        },
    )
}


/// Record equality is field-wise equality: two records are equal exactly
/// when every corresponding field is equal; equivalently, when their
/// mathematical contents coincide.
pub proof fn lemma_record_eq_is_field_eq(a: SessionOptions, b: SessionOptions)
    ensures
        a.spec_eq(b) <==> a@ == b@,
{
    if a.spec_eq(b) {
        assert(a@ == b@);
    }
    if a@ == b@ {
        assert(opt_text_list_view(a.connect_points) == opt_text_list_view(b.connect_points));
        match (a.connect_points, b.connect_points) {
            (Option::Some(x), Option::Some(y)) => {},
            _ => {},
        }
        assert(a.spec_eq(b));
    }
}

/// Decoding is a pure function of the host object: two decodes of one
/// object always agree, so decoding the same object twice gives equal
/// records.
pub proof fn lemma_decode_deterministic(
    o: HostObject,
    r1: Result<SessionOptionsView, DecodeError>,
    r2: Result<SessionOptionsView, DecodeError>,
)
    requires
        r1 == spec_decode_session(o),
        r2 == spec_decode_session(o),
    ensures
        r1 == r2,
{
}

/// Decoding an empty host object yields the record with every field
/// unset, nested SSL options included.
pub proof fn lemma_decode_empty_object(o: HostObject)
    requires
        o.entries@.len() == 0,
    ensures
        spec_decode_session(o) == Ok::<SessionOptionsView, DecodeError>(
            (SessionOptionsView {
                connect_points: Option::None,
                keyspace: Option::None,
                application_name: Option::None,
                application_version: Option::None,
                client_id: Option::None,
                credentials_username: Option::None,
                credentials_password: Option::None,
                cache_size: Option::None,
                ssl_options: Option::None,
            }),
        ),
{
}

/// A successfully decoded record reads each field off its own key alone:
/// the field equals what its extractor yields, and nothing else in the
/// object bears on it.
pub proof fn lemma_decode_projection(o: HostObject, r: SessionOptionsView)
    requires
        spec_decode_session(o) == Ok::<SessionOptionsView, DecodeError>(r),
    ensures
        spec_text_list_field(o, FieldId::ConnectPoints) == Ok::<
            Option<Seq<Seq<char>>>,
            DecodeError,
        >(r.connect_points),
        spec_text_field(o, FieldId::Keyspace) == Ok::<Option<Seq<char>>, DecodeError>(r.keyspace),
        spec_text_field(o, FieldId::ApplicationName) == Ok::<Option<Seq<char>>, DecodeError>(
            r.application_name,
        ),
        spec_text_field(o, FieldId::ApplicationVersion) == Ok::<Option<Seq<char>>, DecodeError>(
            r.application_version,
        ),
        spec_text_field(o, FieldId::ClientId) == Ok::<Option<Seq<char>>, DecodeError>(r.client_id),
        spec_text_field(o, FieldId::CredentialsUsername) == Ok::<Option<Seq<char>>, DecodeError>(
            r.credentials_username,
        ),
        spec_text_field(o, FieldId::CredentialsPassword) == Ok::<Option<Seq<char>>, DecodeError>(
            r.credentials_password,
        ),
        spec_uint_field(o, FieldId::CacheSize) == Ok::<Option<u32>, DecodeError>(r.cache_size),
        spec_ssl_field(o) == Ok::<Option<SslOptions>, DecodeError>(r.ssl_options),
{
}

/// Changing one key changes the decoded record only in its own field:
/// fields whose keys read the same in two objects decode the same.
pub proof fn lemma_decode_fields_independent(
    o1: HostObject,
    o2: HostObject,
    r1: SessionOptionsView,
    r2: SessionOptionsView,
)
    requires
        spec_decode_session(o1) == Ok::<SessionOptionsView, DecodeError>(r1),
        spec_decode_session(o2) == Ok::<SessionOptionsView, DecodeError>(r2),
    ensures
        o1.spec_lookup(field_key(FieldId::ConnectPoints)) == o2.spec_lookup(
            field_key(FieldId::ConnectPoints),
        ) ==> r1.connect_points == r2.connect_points,
        o1.spec_lookup(field_key(FieldId::Keyspace)) == o2.spec_lookup(
            field_key(FieldId::Keyspace),
        ) ==> r1.keyspace == r2.keyspace,
        o1.spec_lookup(field_key(FieldId::ApplicationName)) == o2.spec_lookup(
            field_key(FieldId::ApplicationName),
        ) ==> r1.application_name == r2.application_name,
        o1.spec_lookup(field_key(FieldId::ApplicationVersion)) == o2.spec_lookup(
            field_key(FieldId::ApplicationVersion),
        ) ==> r1.application_version == r2.application_version,
        o1.spec_lookup(field_key(FieldId::ClientId)) == o2.spec_lookup(
            field_key(FieldId::ClientId),
        ) ==> r1.client_id == r2.client_id,
        o1.spec_lookup(field_key(FieldId::CredentialsUsername)) == o2.spec_lookup(
            field_key(FieldId::CredentialsUsername),
        ) ==> r1.credentials_username == r2.credentials_username,
        o1.spec_lookup(field_key(FieldId::CredentialsPassword)) == o2.spec_lookup(
            field_key(FieldId::CredentialsPassword),
        ) ==> r1.credentials_password == r2.credentials_password,
        o1.spec_lookup(field_key(FieldId::CacheSize)) == o2.spec_lookup(
            field_key(FieldId::CacheSize),
        ) ==> r1.cache_size == r2.cache_size,
        o1.spec_lookup(field_key(FieldId::SslOptions)) == o2.spec_lookup(
            field_key(FieldId::SslOptions),
        ) ==> r1.ssl_options == r2.ssl_options,
{
    lemma_decode_projection(o1, r1);
    lemma_decode_projection(o2, r2);
}

} // verus!
