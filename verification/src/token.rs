//! Stateless retry tokens: the bytes `quiche`, the client's IP address and the
//! original destination connection ID.
use vstd::prelude::*;
use crate::bytes::{copy_range, matches_at, push_all};
use crate::net::{ip_octets, IpAddr, SockAddr};

verus! {

/// The static bytes that start every token: ASCII `quiche`.
pub open spec fn token_prefix() -> Seq<u8> {
    seq![0x71u8, 0x75u8, 0x69u8, 0x63u8, 0x68u8, 0x65u8]
}

/// The token minted for a client address and an original destination
/// connection ID.
pub open spec fn spec_mint_token(dcid: Seq<u8>, ip: IpAddr) -> Seq<u8> {
    token_prefix() + ip_octets(ip) + dcid
}

/// The connection ID that a token carries for a client address, if the token
/// starts with the prefix and the address.
pub open spec fn spec_validate_token(ip: IpAddr, token: Seq<u8>) -> Option<Seq<u8>> {
    let a = ip_octets(ip);
    if token.len() >= 6 && token.take(6) == token_prefix() && token.len() - 6 >= a.len()
        && token.subrange(6, 6 + a.len() as int) == a {
        Some(token.skip(6 + a.len() as int))
    } else {
        None
    }
}

/// Builds a stateless retry token from the original destination connection
/// ID and the client's address: `quiche`, then the IP octets, then the ID.
pub fn mint_token(dcid: &[u8], src: &SockAddr) -> (token: Vec<u8>)
    ensures
        token@ == spec_mint_token(dcid@, src.ip),
{
    let mut token: Vec<u8> = Vec::new();
    let prefix: [u8; 6] = [0x71, 0x75, 0x69, 0x63, 0x68, 0x65];
    push_all(&mut token, prefix.as_slice());
    let addr = src.ip.octets();
    push_all(&mut token, addr.as_slice());
    push_all(&mut token, dcid);
    assert(prefix@ =~= token_prefix());
    token
}

/// Checks a stateless retry token against the client's address and returns
/// the original destination connection ID that it carries.
pub fn validate_token(src: &SockAddr, token: &[u8]) -> (odcid: Option<Vec<u8>>)
    ensures
        match odcid {
            Some(v) => spec_validate_token(src.ip, token@) == Some(v@),
            None => spec_validate_token(src.ip, token@) is None,
        },
{
    if token.len() < 6 {
        return None;
    }
    let prefix: [u8; 6] = [0x71, 0x75, 0x69, 0x63, 0x68, 0x65];
    assert(prefix@ =~= token_prefix());
    if !matches_at(token, 0, prefix.as_slice()) {
        assert(token@.subrange(0, 6) =~= token@.take(6));
        return None;
    }
    assert(token@.subrange(0, 6) =~= token@.take(6));
    let addr = src.ip.octets();
    let rest_len = token.len() - 6;
    if rest_len < addr.len() || !matches_at(token, 6, addr.as_slice()) {
        return None;
    }
    let out = copy_range(token, 6 + addr.len(), token.len());
    assert(out@ =~= token@.skip(6 + addr@.len() as int));
    Some(out)
}

/// A token minted for an address and a connection ID validates for that
/// address and gives back the same connection ID.
pub proof fn lemma_validate_minted(dcid: Seq<u8>, ip: IpAddr)
    ensures
        spec_validate_token(ip, spec_mint_token(dcid, ip)) == Some(dcid),
{
    let t = spec_mint_token(dcid, ip);
    let a = ip_octets(ip);
    assert(t.take(6) =~= token_prefix());
    assert(t.subrange(6, 6 + a.len() as int) =~= a);
    assert(t.skip(6 + a.len() as int) =~= dcid);
}

/// A token that does not start with the prefix is refused for every address.
pub proof fn lemma_validate_needs_prefix(ip: IpAddr, token: Seq<u8>)
    requires
        token.len() < 6 || token.take(6) != token_prefix(),
    ensures
        spec_validate_token(ip, token) is None,
{
}

/// A token minted for one IPv4 address is refused for every other IPv4
/// address.
pub proof fn lemma_validate_other_v4(dcid: Seq<u8>, x: u32, y: u32)
    requires
        x != y,
    ensures
        spec_validate_token(IpAddr::V4(y), spec_mint_token(dcid, IpAddr::V4(x))) is None,
{
    let t = spec_mint_token(dcid, IpAddr::V4(x));
    let a = ip_octets(IpAddr::V4(x));
    assert(t.subrange(6, 10) =~= a);
    if t.subrange(6, 10) == ip_octets(IpAddr::V4(y)) {
        crate::net::lemma_octets_v4_injective(x, y);
    }
}

/// A token minted for one IPv6 address is refused for every other IPv6
/// address.
pub proof fn lemma_validate_other_v6(dcid: Seq<u8>, x: u128, y: u128)
    requires
        x != y,
    ensures
        spec_validate_token(IpAddr::V6(y), spec_mint_token(dcid, IpAddr::V6(x))) is None,
{
    let t = spec_mint_token(dcid, IpAddr::V6(x));
    let a = ip_octets(IpAddr::V6(x));
    assert(t.subrange(6, 22) =~= a);
    if t.subrange(6, 22) == ip_octets(IpAddr::V6(y)) {
        crate::net::lemma_octets_v6_injective(x, y);
    }
}

} // verus!
