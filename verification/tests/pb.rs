use thegarii::pb::{bd, be, Block, ProofOfAccess, Tag, Transaction};
use thegarii::result::Base64DecodeError;
use thegarii::types;
use thegarii::Error;

fn tag(name: &str, value: &str) -> types::Tag {
    types::Tag { name: name.to_string(), value: value.to_string() }
}

fn tx(id: &str, tags: Vec<types::Tag>) -> types::Transaction {
    types::Transaction {
        format: 2,
        id: id.to_string(),
        last_tx: "AQ".to_string(),
        owner: "Ag".to_string(),
        tags,
        target: "".to_string(),
        quantity: "10".to_string(),
        data: "Aw".to_string(),
        data_size: "1".to_string(),
        data_root: "BA".to_string(),
        signature: "BQ".to_string(),
        reward: "7".to_string(),
    }
}

fn block() -> types::FirehoseBlock {
    types::FirehoseBlock {
        nonce: "AQ".to_string(),
        previous_block: "Ag".to_string(),
        timestamp: 1,
        last_retarget: 2,
        diff: "3".to_string(),
        height: 100,
        hash: "Aw".to_string(),
        indep_hash: "BA".to_string(),
        txs: vec![tx("BQ", vec![tag("Bg", "Bw")])],
        tags: vec![tag("CA", "CQ")],
        wallet_list: "Cg".to_string(),
        reward_addr: "unclaimed".to_string(),
        reward_pool: "4".to_string(),
        weave_size: "5".to_string(),
        block_size: "6".to_string(),
        cumulative_diff: Some("7".to_string()),
        hash_list_merkle: Some("Cw".to_string()),
        tx_root: Some("DA".to_string()),
        poa: Some(types::Poa {
            option: "1".to_string(),
            tx_path: "DQ".to_string(),
            data_path: "Dg".to_string(),
            chunk: "Dw".to_string(),
        }),
    }
}

#[test]
fn bd_decodes_base64_url() {
    assert_eq!(bd("aGVsbG8"), Ok(b"hello".to_vec()));
    assert_eq!(bd("-_8"), Ok(vec![0xfb, 0xff]));
    assert_eq!(bd(""), Ok(vec![]));
}

#[test]
fn bd_unclaimed_is_empty() {
    assert_eq!(bd("unclaimed"), Ok(vec![]));
}

#[test]
fn bd_reports_decode_errors() {
    assert_eq!(bd("!!!!"), Err(Error::Base64Decode(Base64DecodeError::InvalidByte(0, b'!'))));
    assert!(matches!(bd("unclaimed!"), Err(Error::Base64Decode(_))));
}

#[test]
fn tag_conversion() {
    let t = Tag::try_from(tag("AQ", "Ag")).unwrap();
    assert_eq!(t.name, vec![1]);
    assert_eq!(t.value, vec![2]);
    assert!(matches!(Tag::try_from(tag("AQ", "*")), Err(Error::Base64Decode(_))));
}

#[test]
fn poa_conversion() {
    let p = ProofOfAccess::try_from(types::Poa {
        option: "2".to_string(),
        tx_path: "AQ".to_string(),
        data_path: "Ag".to_string(),
        chunk: "Aw".to_string(),
    })
    .unwrap();
    assert_eq!(p.option, "2");
    assert_eq!((p.tx_path, p.data_path, p.chunk), (vec![1], vec![2], vec![3]));
}

#[test]
fn transaction_conversion() {
    let t = Transaction::try_from(tx("BQ", vec![tag("Bg", "Bw")])).unwrap();
    assert_eq!(t.format, 2);
    assert_eq!(t.id, vec![5]);
    assert_eq!(t.last_tx, vec![1]);
    assert_eq!(t.owner, vec![2]);
    assert_eq!(t.tags.len(), 1);
    assert_eq!(t.tags[0].name, vec![6]);
    assert_eq!(t.target, Vec::<u8>::new());
    assert_eq!(t.quantity, "10");
    assert_eq!(t.data, vec![3]);
    assert_eq!(t.data_size, "1");
    assert_eq!(t.data_root, vec![4]);
    assert_eq!(t.signature, vec![5]);
    assert_eq!(t.reward, "7");
}

#[test]
fn transaction_conversion_first_error_wins() {
    let mut bad = tx("#AAA", vec![tag("%AAA", "Bw")]);
    assert_eq!(
        Transaction::try_from(bad.clone()).err(),
        Some(Error::Base64Decode(Base64DecodeError::InvalidByte(0, b'#')))
    );
    bad.id = "AQ".to_string();
    assert_eq!(
        Transaction::try_from(bad).err(),
        Some(Error::Base64Decode(Base64DecodeError::InvalidByte(0, b'%')))
    );
}

#[test]
fn block_conversion() {
    let b = Block::try_from(block()).unwrap();
    assert_eq!(b.ver, 1);
    assert_eq!(b.indep_hash, vec![4]);
    assert_eq!(b.nonce, vec![1]);
    assert_eq!(b.previous_block, vec![2]);
    assert_eq!(b.timestamp, 1);
    assert_eq!(b.last_retarget, 2);
    assert_eq!(b.diff, "3");
    assert_eq!(b.height, 100);
    assert_eq!(b.hash, vec![3]);
    assert_eq!(b.tx_root, Some(vec![12]));
    assert_eq!(b.txs.len(), 1);
    assert_eq!(b.txs[0].id, vec![5]);
    assert_eq!(b.wallet_list, vec![10]);
    assert_eq!(b.reward_addr, Vec::<u8>::new());
    assert_eq!(b.tags.len(), 1);
    assert_eq!(b.tags[0].value, vec![9]);
    assert_eq!(b.reward_pool, "4");
    assert_eq!(b.weave_size, "5");
    assert_eq!(b.block_size, "6");
    assert_eq!(b.cumulative_diff, Some("7".to_string()));
    assert!(b.hash_list.is_empty());
    assert_eq!(b.hash_list_merkle, Some(vec![11]));
    let poa = b.poa.unwrap();
    assert_eq!(poa.chunk, vec![15]);
}

#[test]
fn block_conversion_drops_optional_fields_that_do_not_decode() {
    let mut fb = block();
    fb.tx_root = Some("***".to_string());
    fb.hash_list_merkle = None;
    fb.poa.as_mut().unwrap().chunk = "?".to_string();
    let b = Block::try_from(fb).unwrap();
    assert_eq!(b.tx_root, None);
    assert_eq!(b.hash_list_merkle, None);
    assert!(b.poa.is_none());
}

#[test]
fn block_conversion_errors() {
    let mut fb = block();
    fb.txs[0].signature = "$AAA".to_string();
    fb.wallet_list = "&AAA".to_string();
    assert_eq!(
        Block::try_from(fb).err(),
        Some(Error::Base64Decode(Base64DecodeError::InvalidByte(0, b'$')))
    );
    let mut fb = block();
    fb.tags[0].name = "@AAA".to_string();
    assert_eq!(
        Block::try_from(fb).err(),
        Some(Error::Base64Decode(Base64DecodeError::InvalidByte(0, b'@')))
    );
}

#[test]
fn be_then_bd_gives_bytes_back() {
    for n in 0..40u8 {
        let bytes: Vec<u8> = (0..n).map(|i| i.wrapping_mul(37).wrapping_add(n)).collect();
        let text = be(&bytes);
        assert_eq!(text, base64_url::encode(&bytes));
        assert_eq!(text.len() % 4 != 1, true);
        assert_eq!(bd(&text), Ok(bytes));
    }
    assert_eq!(be(b"hello"), "aGVsbG8");
}
