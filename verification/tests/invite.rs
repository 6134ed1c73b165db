use swarm_cli::invite::{check_invite_fresh, hex_decode, invite_payload, invite_token, InviteError, MAX_INVITE_TOKEN_CHARS};

#[test]
fn invite_tokens_round_trip() {
    let payload = vec![0x00, 0x7f, 0xab, 0xff];
    let token = invite_token(&payload).unwrap();
    assert_eq!(token, "scinvite:007fabff");
    assert_eq!(invite_payload(&token).unwrap(), payload);
    assert_eq!(invite_payload("scinvite:007FABFF").unwrap(), payload);
    assert_eq!(invite_payload("scinvite:").unwrap(), Vec::<u8>::new());
}

#[test]
fn malformed_or_oversized_tokens_are_refused() {
    assert_eq!(invite_payload("invite:00"), Err(InviteError::MissingPrefix));
    assert_eq!(invite_payload("scinvite:0"), Err(InviteError::NotHex));
    assert_eq!(invite_payload("scinvite:zz"), Err(InviteError::NotHex));
    let long = format!("scinvite:{}", "0".repeat(MAX_INVITE_TOKEN_CHARS));
    assert_eq!(invite_payload(&long), Err(InviteError::TooLong));
    assert_eq!(invite_token(&vec![0u8; (MAX_INVITE_TOKEN_CHARS - 9) / 2 + 1]), Err(InviteError::TooLong));
    assert!(invite_token(&vec![0u8; (MAX_INVITE_TOKEN_CHARS - 9) / 2]).is_ok());
    let chars: Vec<char> = "0aF9".chars().collect();
    assert_eq!(hex_decode(&chars), Some(vec![0x0a, 0xf9]));
}

#[test]
fn expired_invite_is_rejected() {
    assert_eq!(check_invite_fresh(1_000, 999), Ok(()));
    assert_eq!(check_invite_fresh(1_000, 1_000), Err(InviteError::Expired));
    assert_eq!(InviteError::Expired.message(), "invite expired");
}

#[test]
fn automatic_hints_without_a_reachable_path_explain_the_remedy() {
    let error = swarm_cli::invite::automatic_bootstrap_addrs(Vec::new(), "NAT is symmetric.").unwrap_err();
    assert!(error.contains("no proven reachable"));
    assert!(error.contains("NAT is symmetric."));
    assert!(error.contains("Remediation"));
    let addrs = vec!["/ip4/1.1.1.1/udp/41000/quic-v1".to_string()];
    assert_eq!(swarm_cli::invite::automatic_bootstrap_addrs(addrs.clone(), "ok").unwrap(), addrs);
}
