use biddychain::block::Block;
use biddychain::chain::Chain;
use biddychain::codec;
use biddychain::hashing;
use biddychain::message::Message;

fn forged(i: u32) -> String {
    format!("4249{:060}", i)
}

fn sample_block() -> Block {
    let data = Message {
        to: String::from("AA"),
        from: String::from("BB"),
        text: String::from("sealed text"),
        signing_key: Some(String::from("CAFEBABE")),
    };
    let mut b = Block::new(data, String::from("AB"), Some(forged(0)), 1);
    b.hash = forged(1);
    b.seed = 7;
    b
}

#[test]
fn block_round_trip_is_field_wise_identical() {
    let b = sample_block();
    let bytes = b.print_block();
    let d = codec::decode_block(&bytes).unwrap();
    assert!(d == b);
}

#[test]
fn genesis_block_round_trip() {
    let b = Block::new(
        Message::new(String::from("AA"), String::from("BB"), String::from("gen")),
        String::from("AB"),
        None,
        0,
    );
    let bytes = b.print_block();
    let d = codec::decode_block(&bytes).unwrap();
    assert!(d == b);
}

#[test]
fn chain_round_trip_is_field_wise_identical() {
    let mut chain = Chain::new();
    let mut prev: Option<String> = None;
    let mut originals: Vec<Block> = Vec::new();
    for i in 0..3u32 {
        let mut b = Block::new(
            Message::new(String::from("AA"), String::from("BB"), format!("payload {}", i)),
            String::from("AB"),
            prev.clone(),
            i,
        );
        b.hash = forged(i);
        prev = Some(b.hash.clone());
        originals.push(b.clone());
        assert!(chain.add_block(b).is_ok());
    }
    let cp = chain.prepare_checkpoint().unwrap();
    let decoded = codec::decode_chain(&cp.data).unwrap();
    assert_eq!(decoded.len(), originals.len());
    for (d, o) in decoded.iter().zip(originals.iter()) {
        assert!(d == o);
    }
}

#[test]
fn decode_rejects_wrong_version() {
    let b = sample_block();
    let mut chain = Chain::new();
    let mut genesis = b;
    genesis.node_id = 0;
    genesis.previous_hash = None;
    genesis.hash = forged(0);
    assert!(chain.add_block(genesis).is_ok());
    let cp = chain.prepare_checkpoint().unwrap();
    let mut bytes = cp.data;
    bytes[0] = bytes[0].wrapping_add(1);
    assert!(codec::decode_chain(&bytes).is_none());
}

#[test]
fn decode_rejects_truncated_input() {
    let b = sample_block();
    let mut bytes = b.print_block();
    bytes.pop();
    assert!(codec::decode_block(&bytes).is_none());
    assert!(codec::decode_block(&Vec::new()).is_none());
}

#[test]
fn decode_rejects_trailing_garbage() {
    let b = sample_block();
    let mut bytes = b.print_block();
    bytes.push(0);
    assert!(codec::decode_block(&bytes).is_none());
}

#[test]
fn upper_hex_rendering() {
    let bytes: Vec<u8> = vec![0x00, 0xAB, 0xFF, 0x4F];
    assert_eq!(hashing::to_upper_hex(&bytes), "00ABFF4F");
}

#[test]
fn decimal_rendering() {
    let mut s = String::new();
    hashing::push_decimal(&mut s, 0);
    assert_eq!(s, "0");
    let mut s2 = String::new();
    hashing::push_decimal(&mut s2, 12034);
    assert_eq!(s2, "12034");
    let mut s3 = String::new();
    hashing::push_decimal(&mut s3, u32::MAX);
    assert_eq!(s3, "4294967295");
}
