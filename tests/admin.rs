use elena_core::admin::{parse_admin_request, parse_decimal, split_words, AdminParseError, AdminRequest};
use elena_core::graph::digest_from_slice;
use elena_core::node::default_admin;

#[test]
fn words_split_on_ascii_whitespace() {
    assert_eq!(split_words(b"  send\tab  12\r\n"), vec![b"send".to_vec(), b"ab".to_vec(), b"12".to_vec()]);
    assert!(split_words(b" \t ").is_empty());
}

#[test]
fn decimal_parsing_matches_std() {
    assert_eq!(parse_decimal(b"42", u64::MAX), Some(42));
    assert_eq!(parse_decimal(b"+7", u64::MAX), Some(7));
    assert_eq!(parse_decimal(b"18446744073709551615", u64::MAX), Some(u64::MAX));
    assert_eq!(parse_decimal(b"18446744073709551616", u64::MAX), None);
    assert_eq!(parse_decimal(b"", u64::MAX), None);
    assert_eq!(parse_decimal(b"+", u64::MAX), None);
    assert_eq!(parse_decimal(b"-1", u64::MAX), None);
    assert_eq!(parse_decimal(b"12x", u64::MAX), None);
}

#[test]
fn send_request_decodes_key_and_amount() {
    match parse_admin_request(b"send 0aFF 250\n") {
        Ok(AdminRequest::Send { to, amount }) => {
            assert_eq!(to, vec![0x0a, 0xff]);
            assert_eq!(amount, 250);
        }
        _ => panic!("expected a send request"),
    }
    assert!(matches!(parse_admin_request(b"send 0aff x"), Err(AdminParseError::InvalidAmount)));
    assert!(matches!(parse_admin_request(b"send 0af 1"), Err(AdminParseError::InvalidPubkeyHex)));
    assert!(matches!(parse_admin_request(b"send zz 1"), Err(AdminParseError::InvalidPubkeyHex)));
    assert!(matches!(parse_admin_request(b"send 0aff"), Ok(AdminRequest::Unknown)));
}

#[test]
fn other_requests() {
    assert!(matches!(parse_admin_request(b"stats"), Ok(AdminRequest::Stats)));
    assert!(matches!(parse_admin_request(b" pubkey "), Ok(AdminRequest::Pubkey)));
    assert!(matches!(parse_admin_request(b"params"), Ok(AdminRequest::Params)));
    assert!(matches!(parse_admin_request(b"recent_txs"), Ok(AdminRequest::RecentTxs(20))));
    assert!(matches!(parse_admin_request(b"recent_txs 5"), Ok(AdminRequest::RecentTxs(5))));
    assert!(matches!(parse_admin_request(b"recent_txs abc"), Ok(AdminRequest::RecentTxs(20))));
    match parse_admin_request(b"stake 0.25") {
        Ok(AdminRequest::Stake(text)) => assert_eq!(text, b"0.25".to_vec()),
        _ => panic!("expected a stake request"),
    }
    assert!(matches!(parse_admin_request(b"stake"), Ok(AdminRequest::Unknown)));
    assert!(matches!(parse_admin_request(b"hello"), Ok(AdminRequest::Unknown)));
    assert!(matches!(parse_admin_request(b"   "), Err(AdminParseError::Empty)));
}

#[test]
fn digests_need_sixty_four_bytes() {
    assert_eq!(digest_from_slice(&[3u8; 64]), Some([3u8; 64]));
    assert_eq!(digest_from_slice(&[3u8; 63]), None);
    assert_eq!(default_admin(), "127.0.0.1:9190");
}
