use grpc_http3::net::{IpAddr, SockAddr};
use grpc_http3::token::{mint_token, validate_token};

fn v4(a: u8, b: u8, c: u8, d: u8, port: u16) -> SockAddr {
    SockAddr { ip: IpAddr::V4(u32::from_be_bytes([a, b, c, d])), port }
}

#[test]
fn mint_token_layout() {
    let from = v4(127, 0, 0, 1, 4433);
    let token = mint_token(&[9, 8, 7], &from);
    assert_eq!(token, vec![b'q', b'u', b'i', b'c', b'h', b'e', 127, 0, 0, 1, 9, 8, 7]);
}

#[test]
fn validate_minted_token_gives_dcid() {
    let from = v4(10, 1, 2, 3, 1000);
    let dcid = [1u8, 2, 3, 4, 5, 6, 7, 8];
    let token = mint_token(&dcid, &from);
    assert_eq!(validate_token(&from, &token), Some(dcid.to_vec()));
}

#[test]
fn validate_rejects_other_address() {
    let token = mint_token(&[1, 2], &v4(10, 1, 2, 3, 1));
    assert_eq!(validate_token(&v4(10, 1, 2, 4, 1), &token), None);
}

#[test]
fn validate_rejects_short_and_bad_prefix() {
    let from = v4(127, 0, 0, 1, 1);
    assert_eq!(validate_token(&from, b"quic"), None);
    assert_eq!(validate_token(&from, b"quichX\x7f\x00\x00\x01"), None);
}

#[test]
fn validate_ipv6_token() {
    let from = SockAddr { ip: IpAddr::V6(1), port: 443 };
    let token = mint_token(&[42], &from);
    assert_eq!(token.len(), 6 + 16 + 1);
    assert_eq!(&token[6..22], &[0u8, 0, 0, 0, 0, 0, 0, 0, 0, 0, 0, 0, 0, 0, 0, 1]);
    assert_eq!(validate_token(&from, &token), Some(vec![42]));
}
