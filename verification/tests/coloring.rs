use cashtokens::color::{color, ColoredTx, TokenVariant, TxType};
use cashtokens::parse::{ParseError, HAS_AMOUNT, HAS_NFT};
use cashtokens::tx::{OutPoint, Tx, TxId, TxInput, TxOutput};

fn token_script(id: [u8; 32], flags: u8, tail: &[u8]) -> Vec<u8> {
    let mut s = vec![0xef];
    s.extend_from_slice(&id);
    s.push(flags);
    s.extend_from_slice(tail);
    s
}

fn mk_tx(inputs: Vec<([u8; 32], u32)>, outputs: Vec<Vec<u8>>) -> Tx {
    Tx {
        inputs: inputs
            .into_iter()
            .map(|(txid, out_idx)| TxInput {
                prev_out: OutPoint { txid: TxId { bytes: txid.to_vec() }, out_idx },
            })
            .collect(),
        outputs: outputs.into_iter().map(|script| TxOutput { script }).collect(),
    }
}

fn fresh(n: usize) -> ColoredTx {
    let mut outputs = Vec::new();
    for _ in 0..n {
        outputs.push(None);
    }
    ColoredTx { sections: Vec::new(), outputs, failed_parsings: Vec::new() }
}

#[test]
fn colors_amount_output() {
    let tx = mk_tx(Vec::new(), vec![token_script([0; 32], HAS_AMOUNT, &[0x05])]);
    let mut colored = fresh(1);
    color(&mut colored, &tx);
    assert_eq!(colored.sections.len(), 1);
    assert_eq!(colored.sections[0].tx_type, TxType::SEND);
    assert!(colored.sections[0].genesis_info.is_none());
    assert_eq!(colored.sections[0].required_input_sum, 0);
    assert!(!colored.sections[0].has_colored_out_of_range);
    assert!(colored.failed_parsings.is_empty());
    let out = colored.outputs[0].as_ref().unwrap();
    assert_eq!(out.token_idx, 0);
    match &out.variant {
        TokenVariant::Amount(a) => assert_eq!(*a, 5),
        _ => panic!("expected a fungible amount"),
    }
}

#[test]
fn colors_nft_output() {
    let tx = mk_tx(Vec::new(), vec![token_script([0; 32], HAS_NFT, &[])]);
    let mut colored = fresh(1);
    color(&mut colored, &tx);
    let out = colored.outputs[0].as_ref().unwrap();
    match &out.variant {
        TokenVariant::Commitment(c) => {
            assert_eq!(c.amount, 0);
            assert_eq!(c.capabilities, 0x20);
            assert!(c.commitment.is_empty());
        }
        _ => panic!("expected a non-fungible commitment"),
    }
}

#[test]
fn invalid_output_is_logged_not_colored() {
    let script = token_script([0; 32], 0x03, &[]);
    let tx = mk_tx(Vec::new(), vec![script.clone()]);
    let mut colored = fresh(1);
    color(&mut colored, &tx);
    assert!(colored.sections.is_empty());
    assert!(colored.outputs[0].is_none());
    assert_eq!(colored.failed_parsings.len(), 1);
    let failed = &colored.failed_parsings[0];
    assert_eq!(failed.error, ParseError::InvalidCapabilities(0x03));
    assert_eq!(failed.bytes, script);
    assert!(failed.pushdata_idx.is_none());
}

#[test]
fn one_bad_output_does_not_abort_the_rest() {
    let tx = mk_tx(
        Vec::new(),
        vec![
            token_script([1; 32], 0x80, &[]),
            token_script([2; 32], HAS_AMOUNT, &[0x07]),
        ],
    );
    let mut colored = fresh(2);
    color(&mut colored, &tx);
    assert_eq!(colored.failed_parsings.len(), 1);
    assert_eq!(colored.sections.len(), 1);
    assert!(colored.outputs[0].is_none());
    assert!(colored.outputs[1].is_some());
}

#[test]
fn groups_outputs_by_category() {
    let a = [0xaa; 32];
    let b = [0xbb; 32];
    let tx = mk_tx(
        Vec::new(),
        vec![
            token_script(a, HAS_AMOUNT, &[0x01]),
            token_script(b, HAS_AMOUNT, &[0x02]),
            token_script(a, HAS_AMOUNT, &[0x03]),
        ],
    );
    let mut colored = fresh(3);
    color(&mut colored, &tx);
    assert_eq!(colored.sections.len(), 2);
    assert_eq!(colored.sections[0].meta.token_id.txid.bytes, a.to_vec());
    assert_eq!(colored.sections[1].meta.token_id.txid.bytes, b.to_vec());
    let idx0 = colored.outputs[0].as_ref().unwrap().token_idx;
    let idx1 = colored.outputs[1].as_ref().unwrap().token_idx;
    let idx2 = colored.outputs[2].as_ref().unwrap().token_idx;
    assert_eq!(idx0, idx2);
    assert_eq!(idx0, 0);
    assert_eq!(idx1, 1);
}

#[test]
fn genesis_detected_from_matching_input() {
    let x = [0x42; 32];
    let tx = mk_tx(vec![([0x11; 32], 3), (x, 0)], vec![token_script(x, HAS_AMOUNT, &[0x01])]);
    let mut colored = fresh(1);
    color(&mut colored, &tx);
    assert_eq!(colored.sections.len(), 1);
    assert_eq!(colored.sections[0].tx_type, TxType::GENESIS);
    let info = colored.sections[0].genesis_info.unwrap();
    assert_eq!(info.pregenesis_input_idx, Some(1));
}

#[test]
fn no_matching_input_means_send() {
    let x = [0x42; 32];
    // an input of the right transaction but the wrong output index does not
    // make a genesis
    let tx = mk_tx(vec![(x, 1)], vec![token_script(x, HAS_AMOUNT, &[0x01])]);
    let mut colored = fresh(1);
    color(&mut colored, &tx);
    assert_eq!(colored.sections.len(), 1);
    assert_eq!(colored.sections[0].tx_type, TxType::SEND);
    assert!(colored.sections[0].genesis_info.is_none());
}

#[test]
fn outputs_without_prefix_are_skipped() {
    let tx = mk_tx(
        Vec::new(),
        vec![vec![0x6a, 0x01], Vec::new(), token_script([5; 32], HAS_AMOUNT, &[0x09])],
    );
    let mut colored = fresh(3);
    color(&mut colored, &tx);
    assert!(colored.outputs[0].is_none());
    assert!(colored.outputs[1].is_none());
    assert!(colored.outputs[2].is_some());
    assert!(colored.failed_parsings.is_empty());
    assert_eq!(colored.sections.len(), 1);
}
