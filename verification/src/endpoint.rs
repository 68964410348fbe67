//! The endpoint decoder: builds a validated socket address (IP address
//! and port) from a host object with `address` and `port` keys.

use vstd::prelude::*;

use crate::errors::{field_key, field_key_str, DecodeError, FieldId};
use crate::host::{HostObject, HostValue};
use crate::ip::{lemma_parse_render_ip, parse_ip, spec_parse_ip, spec_render_ip, IpAddress};

verus! {

/// A validated network endpoint: an IP address and a port. Any port in
/// [0, 65535] is valid, including 0.
#[derive(PartialEq, Eq, Structural, Clone, Copy, Debug)]
pub struct SocketAddr {
    pub ip: IpAddress,
    pub port: u16,
}

/// The value produced by the endpoint decoder, holding the validated
/// socket address.
#[derive(PartialEq, Eq, Structural, Clone, Copy, Debug)]
pub struct SocketAddrWrapper {
    socket: SocketAddr,
}

impl SocketAddrWrapper {
    /// The socket address held inside.
    pub closed spec fn spec_inner(self) -> SocketAddr {
        self.socket
    }

    /// Hands the validated socket address out.
    pub fn into_inner(self) -> (r: SocketAddr)
        ensures
            r == self.spec_inner(),
    {
        self.socket
    }
}

/// Decode of an endpoint from a host object:
/// - no `address` key: `MissingField`;
/// - `address` present but not a text: `TypeMismatch`;
/// - no `port` key: `MissingField`;
/// - `port` present but not an integer in [0, 65535]: `TypeMismatch`;
/// - `address` text that is no IPv4 or IPv6 literal: `SemanticValidation`;
/// - otherwise the parsed address with the port exactly as supplied.
pub open spec fn spec_decode_endpoint(o: HostObject) -> Result<SocketAddr, DecodeError> {
    match o.spec_lookup(field_key(FieldId::Address)) {
        Option::None => Err(DecodeError::MissingField(FieldId::Address)),
        Option::Some(HostValue::Text(s)) => match o.spec_lookup(field_key(FieldId::Port)) {
            Option::None => Err(DecodeError::MissingField(FieldId::Port)),
            Option::Some(HostValue::Int(n)) => if 0 <= n <= 65535 {
                match spec_parse_ip(s@) {
                    Option::None => Err(DecodeError::SemanticValidation(FieldId::Address)),
                    Option::Some(ipa) => Ok(SocketAddr { ip: ipa, port: n as u16 }),
                }
            } else {
                Err(DecodeError::TypeMismatch(FieldId::Port))
            },
            Option::Some(_) => Err(DecodeError::TypeMismatch(FieldId::Port)),
        },
        Option::Some(_) => Err(DecodeError::TypeMismatch(FieldId::Address)),
    }
}

/// Decodes an endpoint from a host object. Succeeds exactly when the
/// object carries a text `address` holding an IP literal and an integer
/// `port` in [0, 65535]; each failure is the error that
/// `spec_decode_endpoint` names for it.
pub fn decode_endpoint(o: &HostObject) -> (r: Result<SocketAddrWrapper, DecodeError>)
    ensures
        spec_decode_endpoint(*o) == (match r {
            Ok(w) => Ok::<SocketAddr, DecodeError>(w.spec_inner()),
            Err(e) => Err(e),
        }),
{
    let addr_val = match o.lookup(field_key_str(FieldId::Address)) {
        Option::None => { return Err(DecodeError::MissingField(FieldId::Address)); },
        Option::Some(v) => v,
    };
    let addr_text = match addr_val {
        HostValue::Text(s) => s,
        _ => { return Err(DecodeError::TypeMismatch(FieldId::Address)); },
    };
    let port = match o.lookup(field_key_str(FieldId::Port)) {
        Option::None => { return Err(DecodeError::MissingField(FieldId::Port)); },
        Option::Some(v) => match v {
            HostValue::Int(n) => if 0 <= *n && *n <= 65535 {
                *n as u16
            } else {
                return Err(DecodeError::TypeMismatch(FieldId::Port));
            },
            _ => { return Err(DecodeError::TypeMismatch(FieldId::Port)); },
        },
    };
    match parse_ip(addr_text.as_str()) {
        Option::None => Err(DecodeError::SemanticValidation(FieldId::Address)),
        Option::Some(ipa) => Ok(SocketAddrWrapper { socket: SocketAddr { ip: ipa, port } }),
    }
}

/// A well-formed endpoint object decodes successfully: with a text
/// `address` that parses as an IP literal and an integer `port` in
/// [0, 65535], the decode returns exactly the parsed address and the
/// port as supplied; and rendering the decoded address parses back to
/// the same address (the textual form is kept, up to canonical
/// compression).
pub proof fn lemma_decode_endpoint_round_trip(o: HostObject, s: String, n: i64)
    requires
        o.spec_lookup(field_key(FieldId::Address)) == Some(HostValue::Text(s)),
        o.spec_lookup(field_key(FieldId::Port)) == Some(HostValue::Int(n)),
        0 <= n <= 65535,
        spec_parse_ip(s@) is Some,
    ensures
        spec_decode_endpoint(o) == Ok::<SocketAddr, DecodeError>(
            (SocketAddr { ip: spec_parse_ip(s@)->Some_0, port: n as u16 }),
        ),
        spec_parse_ip(spec_render_ip(spec_parse_ip(s@)->Some_0)) == spec_parse_ip(s@),
{
    lemma_parse_render_ip(spec_parse_ip(s@)->Some_0);
}

/// The endpoint decoder fails exactly as the error taxonomy says: a
/// missing `address` or `port` is `MissingField`, and a text `address`
/// that is no IP literal is `SemanticValidation`.
pub proof fn lemma_decode_endpoint_errors(o: HostObject)
    ensures
        o.spec_lookup(field_key(FieldId::Address)) is None ==> spec_decode_endpoint(o) == Err::<
            SocketAddr,
            DecodeError,
        >(DecodeError::MissingField(FieldId::Address)),
        (o.spec_lookup(field_key(FieldId::Address)) matches Some(HostValue::Text(_)) && o.spec_lookup(
            field_key(FieldId::Port),
        ) is None) ==> spec_decode_endpoint(o) == Err::<SocketAddr, DecodeError>(
            DecodeError::MissingField(FieldId::Port),
        ),
        (o.spec_lookup(field_key(FieldId::Address)) matches Some(HostValue::Text(s)) && (o.spec_lookup(
            field_key(FieldId::Port),
        ) matches Some(HostValue::Int(n)) && 0 <= n <= 65535) && spec_parse_ip(s@) is None)
            ==> spec_decode_endpoint(o) == Err::<SocketAddr, DecodeError>(
            DecodeError::SemanticValidation(FieldId::Address),
        ),
{
}

} // verus!
