use shin::codec::{DecodeError, EncodeError};
use shin::crypto::kx::KexGroup;
use shin::proto::{
    Alpn, CertType, CertVerify, KeyShare, ServerName, SignatureAlgorithms, SupportedGroups,
    SupportedVersions,
};

#[test]
fn alpn_encode_ok() {
    let protocols = vec![b"h3".to_vec(), b"hq".to_vec()];
    assert!(Alpn::encode(&protocols).is_ok());
}

#[test]
fn alpn_encode_oversized_protocol() {
    let protocols = vec![vec![0u8; 256]];
    assert_eq!(Alpn::encode(&protocols), Err(EncodeError::Overflow));
}

#[test]
fn server_name_encode_ok() {
    assert!(ServerName::encode(b"example.com").is_ok());
}

#[test]
fn server_name_encode_oversized() {
    let hostname = vec![b'a'; 65536];
    assert_eq!(ServerName::encode(&hostname), Err(EncodeError::Overflow));
}

#[test]
fn alpn_bytes_are_nested_vectors() {
    let wire = Alpn::encode(&[b"h2".to_vec(), b"x".to_vec()]).unwrap();
    assert_eq!(wire, vec![0, 5, 2, b'h', b'2', 1, b'x']);
    assert_eq!(Alpn::decode(&wire), Ok(vec![b"h2".to_vec(), b"x".to_vec()]));
    assert_eq!(Alpn::decode(&wire[..6]), Err(DecodeError::UnexpectedEnd));
    let mut longer = wire.clone();
    longer.push(0);
    assert_eq!(Alpn::decode(&longer), Err(DecodeError::Trailing));
}

#[test]
fn server_name_bytes() {
    assert_eq!(ServerName::encode(b"ab").unwrap(), vec![0, 5, 0, 0, 2, b'a', b'b']);
}

#[test]
fn supported_versions_bodies() {
    assert_eq!(SupportedVersions::client_encode(), vec![2, 3, 4]);
    assert_eq!(SupportedVersions::server_encode(), vec![3, 4]);
    assert_eq!(SupportedVersions::client_decode(&[4, 3, 4, 3, 3]), Ok(vec![0x0304, 0x0303]));
    assert_eq!(SupportedVersions::server_decode(&[3, 4]), Ok(0x0304));
    assert_eq!(SupportedVersions::client_decode(&[3, 3, 4, 3]), Err(DecodeError::UnexpectedEnd));
}

#[test]
fn supported_groups_body() {
    assert_eq!(SupportedGroups::encode(), vec![0, 6, 0, 0x1d, 0, 0x17, 0x11, 0xec]);
    assert_eq!(SupportedGroups::decode(&[0, 2, 0, 0x1d]), Ok(vec![0x001d]));
}

#[test]
fn signature_algorithms_bodies() {
    assert_eq!(SignatureAlgorithms::rpk_encode(), vec![0, 2, 8, 7]);
    assert_eq!(
        SignatureAlgorithms::x509_encode(),
        vec![0, 12, 4, 3, 8, 4, 5, 3, 8, 5, 8, 6, 8, 7]
    );
    assert!(SignatureAlgorithms::x509_supported(0x0807));
    assert!(!SignatureAlgorithms::x509_supported(0x0401));
}

#[test]
fn key_share_prefers_the_servers_order() {
    // Shares for P-256 and X25519: the server takes X25519 first.
    let mut entries = vec![0x00, 0x17, 0, 2, 9, 9];
    entries.extend_from_slice(&[0x00, 0x1d, 0, 1, 7]);
    let mut body = vec![0, entries.len() as u8];
    body.extend_from_slice(&entries);
    assert_eq!(
        KeyShare::select_client_entry(&body, &KexGroup::SUPPORTED),
        Ok(Some((KexGroup::X25519, vec![7])))
    );
    assert_eq!(
        KeyShare::select_client_entry(&[0, 5, 0xaa, 0xaa, 0, 1, 7], &KexGroup::SUPPORTED),
        Ok(None)
    );
    assert_eq!(
        KeyShare::select_client_entry(&[0, 4, 0, 0x1d, 0, 1], &KexGroup::SUPPORTED),
        Err(DecodeError::UnexpectedEnd)
    );
    assert_eq!(KeyShare::hrr_encode(KexGroup::X25519), vec![0, 0x1d]);
    assert_eq!(KeyShare::hrr_selected_group(&[0, 0x17]), Ok(0x17));
    assert_eq!(KeyShare::server_encode(KexGroup::Secp256r1, &[1, 2]), vec![0, 0x17, 0, 2, 1, 2]);
    assert_eq!(KeyShare::server_decode(&[0, 0x17, 0, 2, 1, 2]), Ok((0x17, vec![1, 2])));
}

#[test]
fn cert_types() {
    assert_eq!(CertType::encode_list(2), vec![1, 2]);
    assert_eq!(CertType::encode_single(0), vec![0]);
    assert_eq!(CertType::decode_list(&[2, 0, 2]), Ok(vec![0, 2]));
    assert_eq!(CertType::decode_list(&[2, 0]), Err(DecodeError::UnexpectedEnd));
}

#[test]
fn certificate_verify_message_names_the_signer() {
    let m = CertVerify::message(&[0xab; 32], true);
    assert_eq!(m.len(), 64 + 33 + 1 + 32);
    assert_eq!(&m[..64], &[0x20u8; 64][..]);
    assert_eq!(&m[64..97], &b"TLS 1.3, server CertificateVerify"[..]);
    assert_eq!(m[97], 0);
    assert_eq!(&m[98..], &[0xabu8; 32][..]);
    let c = CertVerify::message(&[0xab; 32], false);
    assert_eq!(&c[64..97], &b"TLS 1.3, client CertificateVerify"[..]);
}
