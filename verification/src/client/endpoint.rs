//! The addresses under which nodes are reached.

use crate::client::text::{decimal, decimal_text, starts_with};
use vstd::prelude::*;
use vstd::string::*;

verus! {

/// The address names its scheme.
pub open spec fn has_scheme(endpoint: Seq<char>) -> bool {
    "http://"@.is_prefix_of(endpoint) || "https://"@.is_prefix_of(endpoint)
}

/// The address with a scheme: plain HTTP where it names none.
pub open spec fn normalized(endpoint: Seq<char>) -> Seq<char> {
    if has_scheme(endpoint) {
        endpoint
    } else {
        "http://"@ + endpoint
    }
}

/// The address with a scheme: plain HTTP where it names none.
pub fn normalize_endpoint(endpoint: &str) -> (address: String)
    ensures
        address@ == normalized(endpoint@),
{
    if starts_with(endpoint, "http://") || starts_with(endpoint, "https://") {
        endpoint.to_owned()
    } else {
        String::from_str("http://").concat(endpoint)
    }
}

/// The address of a host and a port.
pub open spec fn endpoint_text(host: Seq<char>, port: u32) -> Seq<char> {
    normalized(host + ":"@ + decimal_text(port as nat))
}

/// The address of a host and a port.
pub fn endpoint(host: &str, port: u32) -> (address: String)
    ensures
        address@ == endpoint_text(host@, port),
{
    let plain = String::from_str(host).concat(":").concat(decimal(port).as_str());
    normalize_endpoint(plain.as_str())
}

/// A normalized address has a scheme, ends with what was given, and stays as it is when it
/// is normalized again.
pub proof fn law_normalizing_is_settled(endpoint: Seq<char>)
    ensures
        has_scheme(normalized(endpoint)),
        normalized(normalized(endpoint)) == normalized(endpoint),
        endpoint.is_suffix_of(normalized(endpoint)),
{
    let address = normalized(endpoint);
    if !has_scheme(endpoint) {
        let scheme = "http://"@;
        assert(address.subrange(0, scheme.len() as int) =~= scheme);
        assert(address.subrange(scheme.len() as int, address.len() as int) =~= endpoint);
    } else {
        assert(address.subrange(0, address.len() as int) =~= endpoint);
    }
}

} // verus!
