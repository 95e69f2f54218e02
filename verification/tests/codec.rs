use cashtokens::parse::{
    has_any_prefix_token, parse_script, ParseError, HAS_AMOUNT, HAS_COMMITMENT_LENGTH, HAS_NFT,
    NFT_MINTING, NFT_MUTABLE,
};
use cashtokens::tx::{Tx, TxOutput};

fn prefix(flags: u8) -> Vec<u8> {
    let mut s = vec![0xef];
    s.extend_from_slice(&[0u8; 32]);
    s.push(flags);
    s
}

#[test]
fn empty_script_is_absent() {
    let r = parse_script(&Vec::new());
    assert!(matches!(r, Ok(None)));
}

#[test]
fn other_prefix_is_absent() {
    let r = parse_script(&vec![0x6a, 0xef, 0x01]);
    assert!(matches!(r, Ok(None)));
}

#[test]
fn short_category_is_missing_category() {
    let mut s = vec![0xef];
    s.extend_from_slice(&[0u8; 10]);
    let r = parse_script(&s);
    assert!(matches!(r, Err(ParseError::MissingCategory)));
}

#[test]
fn missing_flags_byte_is_missing_capabilities() {
    let mut s = vec![0xef];
    s.extend_from_slice(&[0u8; 32]);
    let r = parse_script(&s);
    assert!(matches!(r, Err(ParseError::MissingCapabilities)));
}

#[test]
fn unknown_flag_bits_are_rejected() {
    for flags in [0x04u8, 0x08, 0x80, 0x14, 0x84] {
        let r = parse_script(&prefix(flags));
        match r {
            Err(ParseError::InvalidCapabilities(b)) => assert_eq!(b, flags),
            _ => panic!("flags {flags:#04x} must be rejected"),
        }
    }
}

#[test]
fn mutable_and_minting_together_are_rejected() {
    let flags = NFT_MUTABLE | NFT_MINTING;
    let r = parse_script(&prefix(flags));
    match r {
        Err(ParseError::InvalidCapabilities(b)) => assert_eq!(b, 0x03),
        _ => panic!("mutable+minting must be rejected"),
    }
}

#[test]
fn whitelist_decides_every_flag_byte() {
    for flags in 0u8..=255 {
        let mut s = prefix(flags);
        // enough trailing zero bytes for an empty commitment and a zero
        // amount, whichever fields the flags ask for
        s.push(0x00);
        s.push(0x00);
        let valid = flags & 0x8c == 0 && !(flags & 0x01 != 0 && flags & 0x02 != 0);
        let r = parse_script(&s);
        if valid {
            assert!(r.is_ok(), "flags {flags:#04x} must be accepted");
        } else {
            match r {
                Err(ParseError::InvalidCapabilities(b)) => assert_eq!(b, flags),
                _ => panic!("flags {flags:#04x} must be rejected"),
            }
        }
    }
}

#[test]
fn amount_example() {
    let mut s = prefix(HAS_AMOUNT);
    s.push(0x05);
    let d = parse_script(&s).unwrap().unwrap();
    assert_eq!(d.token_id.txid.bytes, vec![0u8; 32]);
    assert_eq!(d.capabilities.bits, 0x10);
    assert_eq!(d.amount, 5);
    assert!(d.commitment.is_empty());
    assert!(d.script.is_empty());
}

#[test]
fn nft_without_commitment_example() {
    let s = prefix(HAS_NFT);
    let d = parse_script(&s).unwrap().unwrap();
    assert_eq!(d.capabilities.bits, 0x20);
    assert_eq!(d.amount, 0);
    assert!(d.commitment.is_empty());
    assert!(d.script.is_empty());
}

#[test]
fn commitment_and_residual_script() {
    let mut s = prefix(HAS_COMMITMENT_LENGTH | HAS_NFT);
    s.push(0x03);
    s.extend_from_slice(b"abc");
    s.extend_from_slice(&[0x51, 0x52]);
    let d = parse_script(&s).unwrap().unwrap();
    assert_eq!(d.commitment, b"abc".to_vec());
    assert_eq!(d.script, vec![0x51, 0x52]);
    assert_eq!(d.amount, 0);
}

#[test]
fn wide_amount_encodings() {
    let mut s = prefix(HAS_AMOUNT);
    s.extend_from_slice(&[0xfd, 0x34, 0x12]);
    assert_eq!(parse_script(&s).unwrap().unwrap().amount, 0x1234);

    let mut s = prefix(HAS_AMOUNT);
    s.extend_from_slice(&[0xfe, 0x78, 0x56, 0x34, 0x12]);
    assert_eq!(parse_script(&s).unwrap().unwrap().amount, 0x12345678);

    let mut s = prefix(HAS_AMOUNT);
    s.extend_from_slice(&[0xff, 0xef, 0xcd, 0xab, 0x89, 0x67, 0x45, 0x23, 0x01]);
    assert_eq!(parse_script(&s).unwrap().unwrap().amount, 0x0123456789abcdef);
}

#[test]
fn truncated_commitment_length_fails() {
    let s = prefix(HAS_COMMITMENT_LENGTH);
    let r = parse_script(&s);
    assert!(matches!(r, Err(ParseError::InvalidCommitmentLength)));
}

#[test]
fn truncated_wide_length_prefix_fails() {
    let mut s = prefix(HAS_COMMITMENT_LENGTH);
    s.extend_from_slice(&[0xfd, 0x01]);
    let r = parse_script(&s);
    assert!(matches!(r, Err(ParseError::InvalidCommitmentLength)));
}

#[test]
fn short_commitment_reports_declared_length() {
    let mut s = prefix(HAS_COMMITMENT_LENGTH);
    s.push(0x05);
    s.extend_from_slice(&[0xaa, 0xbb]);
    match parse_script(&s) {
        Err(ParseError::InvalidCommitment(len)) => assert_eq!(len, 5),
        _ => panic!("short commitment must be rejected"),
    }
}

#[test]
fn truncated_amount_fails() {
    let s = prefix(HAS_AMOUNT);
    let r = parse_script(&s);
    assert!(matches!(r, Err(ParseError::InvalidAmount)));
}

#[test]
fn parse_then_encode_round_trips() {
    let mut s = vec![0xef];
    s.extend_from_slice(&[7u8; 32]);
    s.push(HAS_COMMITMENT_LENGTH | HAS_NFT | HAS_AMOUNT);
    s.push(0x02);
    s.extend_from_slice(&[0xde, 0xad]);
    s.push(0x2a);
    s.extend_from_slice(&[0x76, 0xa9]);
    let d = parse_script(&s).unwrap().unwrap();

    let mut encoded = vec![0xef];
    encoded.extend_from_slice(&d.token_id.txid.bytes);
    encoded.push(d.capabilities.bits);
    encoded.push(d.commitment.len() as u8);
    encoded.extend_from_slice(&d.commitment);
    encoded.push(d.amount as u8);
    encoded.extend_from_slice(&d.script);
    assert_eq!(encoded, s);
}

#[test]
fn prefix_token_detection() {
    let tx = Tx {
        inputs: Vec::new(),
        outputs: vec![
            TxOutput { script: Vec::new() },
            TxOutput { script: vec![0x6a, 0x01] },
            TxOutput { script: vec![0xef] },
        ],
    };
    assert!(has_any_prefix_token(&tx));

    let tx = Tx {
        inputs: Vec::new(),
        outputs: vec![TxOutput { script: Vec::new() }, TxOutput { script: vec![0x6a, 0xef] }],
    };
    assert!(!has_any_prefix_token(&tx));
}
