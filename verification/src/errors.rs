//! The decode-error taxonomy and the bridge that turns an internal failure
//! into the single-message error value handed back to the host.

use vstd::prelude::*;
use vstd::string::StringExecFns;

verus! {

/// The fields that the decoders know, by their internal names.
#[derive(Clone, Copy, PartialEq, Eq, Structural, Debug)]
pub enum FieldId {
    Address,
    Port,
    ConnectPoints,
    Keyspace,
    ApplicationName,
    ApplicationVersion,
    ClientId,
    CredentialsUsername,
    CredentialsPassword,
    CacheSize,
    SslOptions,
    RejectUnauthorized,
}

/// Why a decode failed.
#[derive(Clone, Copy, PartialEq, Eq, Structural, Debug)]
pub enum DecodeError {
    /// A mandatory key was absent from the host object.
    MissingField(FieldId),
    /// A key was present but its value could not be converted to the
    /// declared type of the field.
    TypeMismatch(FieldId),
    /// A value was of the right type but failed domain validation
    /// (the only such validation is parsing an IP address literal).
    SemanticValidation(FieldId),
}

/// The error value that crosses the boundary back to the host:
/// a single descriptive message.
pub struct HostError {
    pub message: String,
}

/// The external key under which the host object carries a field.
pub open spec fn field_key(f: FieldId) -> Seq<char> {
    match f {
        FieldId::Address => "address"@,
        FieldId::Port => "port"@,
        FieldId::ConnectPoints => "connectPoints"@,
        FieldId::Keyspace => "keyspace"@,
        FieldId::ApplicationName => "applicationName"@,
        FieldId::ApplicationVersion => "applicationVersion"@,
        FieldId::ClientId => "clientId"@,
        FieldId::CredentialsUsername => "credentialsUsername"@,
        FieldId::CredentialsPassword => "credentialsPassword"@,
        FieldId::CacheSize => "cacheSize"@,
        FieldId::SslOptions => "sslOptions"@,
        FieldId::RejectUnauthorized => "rejectUnauthorized"@,
    }
}

/// The external key of a field, as a string slice.
pub fn field_key_str(f: FieldId) -> (r: &'static str)
    ensures
        r@ == field_key(f),
{
    match f {
        FieldId::Address => "address",
        FieldId::Port => "port",
        FieldId::ConnectPoints => "connectPoints",
        FieldId::Keyspace => "keyspace",
        FieldId::ApplicationName => "applicationName",
        FieldId::ApplicationVersion => "applicationVersion",
        FieldId::ClientId => "clientId",
        FieldId::CredentialsUsername => "credentialsUsername",
        FieldId::CredentialsPassword => "credentialsPassword",
        FieldId::CacheSize => "cacheSize",
        FieldId::SslOptions => "sslOptions",
        FieldId::RejectUnauthorized => "rejectUnauthorized",
    }
}

/// The message that the host sees for each decode failure.
pub open spec fn error_message(e: DecodeError) -> Seq<char> {
    match e {
        DecodeError::MissingField(f) => "Cannot retrieve socket address. Missing "@ + field_key(f)
            + " field"@,
        DecodeError::TypeMismatch(f) => "Could not convert the "@ + field_key(f)
            + " field to the expected type"@,
        DecodeError::SemanticValidation(_) => "Could not parse IP address: invalid IP address syntax"@,
    }
}

/// Builds the host-visible error value for an internal decode failure.
pub fn to_host_error(e: &DecodeError) -> (r: HostError)
    ensures
        r.message@ == error_message(*e),
{
    match e {
        DecodeError::MissingField(f) => {
            let mut m: String = "Cannot retrieve socket address. Missing ".to_owned();
            m.append(field_key_str(*f));
            m.append(" field");
            HostError { message: m }
        },
        DecodeError::TypeMismatch(f) => {
            let mut m: String = "Could not convert the ".to_owned();
            m.append(field_key_str(*f));
            m.append(" field to the expected type");
            HostError { message: m }
        },
        DecodeError::SemanticValidation(_) => {
            let m: String = "Could not parse IP address: invalid IP address syntax".to_owned();
            HostError { message: m }
        },
    }
}

} // verus!
