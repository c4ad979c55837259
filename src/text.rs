//! Text carried in replies.
use pnet::util::core_net::IpAddr;
use vstd::std_specs::iter::IteratorSpec;
use vstd::prelude::*;

verus! {

/// Bytes read one character per byte (ISO 8859-1).
pub open spec fn latin1(b: Seq<u8>) -> Seq<char> {
    b.map_values(|x: u8| x as char)
}

/// Relies on std's `FromIterator<char>` for `String`: the string holds the
/// characters in order.
#[verifier::external_body]
pub(crate) fn string_from_chars(cs: &[char]) -> (r: String)
    ensures
        r@ == cs@,
{
    cs.iter().collect()
}

/// The characters of the text in order.
pub(crate) fn chars_of(s: &str) -> (r: Vec<char>)
    ensures
        r@ == s@,
{
    broadcast use vstd::string::axiom_spec_iter, vstd::string::next_postcondition;

    let mut it = s.chars();
    let mut out: Vec<char> = Vec::new();
    loop
        invariant
            out@ + it.remaining() == s@,
            it.decrease() is Some,
        ensures
            out@ == s@,
        decreases it.decrease()->0,
    {
        match it.next() {
            Some(c) => {
                out.push(c);
                assert(out@ + it.remaining() =~= s@);
            },
            None => {
                assert(out@ =~= s@);
                break ;
            },
        }
    }
    out
}

/// What `String::from_utf8` makes of `b`: the decoded characters, or nothing
/// where `b` is not UTF-8.
pub uninterp spec fn utf8_decoding(b: Seq<u8>) -> Option<Seq<char>>;

/// Relies on std's `String::from_utf8`: `Ok` exactly when the bytes are UTF-8,
/// with the decoded text.
#[verifier::external_body]
pub(crate) fn decode_utf8(b: Vec<u8>) -> (r: Option<String>)
    ensures
        match r {
            Some(s) => utf8_decoding(b@) == Some(s@),
            None => utf8_decoding(b@) is None,
        },
{
    String::from_utf8(b).ok()
}

/// An IP address: IPv4 as its 32 bits, IPv6 as its 128 bits, most
/// significant first.
#[derive(Clone, Copy, Debug, PartialEq, Eq, Structural)]
pub enum HostAddr {
    V4(u32),
    V6(u128),
}

/// The address that `IpAddr::from_str` reads from `s`, if any.
pub uninterp spec fn ip_text_value(s: Seq<char>) -> Option<HostAddr>;

/// Relies on std's `IpAddr::from_str`: the IPv4 or IPv6 address the text
/// denotes, nothing where it is not an address.
#[verifier::external_body]
pub(crate) fn parse_ip(s: &str) -> (r: Option<HostAddr>)
    ensures
        r == ip_text_value(s@),
{
    match s.parse::<IpAddr>() {
        Ok(IpAddr::V4(a)) => Some(HostAddr::V4(u32::from(a))),
        Ok(IpAddr::V6(a)) => Some(HostAddr::V6(u128::from(a))),
        Err(_) => None,
    }
}

} // verus!
