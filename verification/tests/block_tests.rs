use biddychain::block::Block;
use biddychain::message::Message;

fn msg(text: &str) -> Message {
    Message::new(String::from("AA"), String::from("BB"), String::from(text))
}

fn forged(i: u32) -> String {
    format!("4249{:060}", i)
}

#[test]
fn created_block_hash_is_64_upper_hex_chars() {
    let b = Block::new(msg("hello"), String::from("AB"), None, 0);
    assert_eq!(b.hash.len(), 64);
    assert!(b.hash.chars().all(|c| c.is_ascii_hexdigit()));
    assert!(!b.hash.chars().any(|c| c.is_ascii_lowercase()));
}

#[test]
fn block_hash_matches_the_documented_formula() {
    // SHA-256("K" + canonical payload + "" + "0" + "0"), uppercase hex.
    let m = Message::new(String::from("A"), String::from("B"), String::from("hi"));
    let b = Block::new(m, String::from("K"), None, 0);
    assert_eq!(
        b.hash,
        "8919A4E661E6C0EDA781B308D9AB04507D86E0083C268F1DFB5C073511A4D652"
    );
    // With a predecessor hash and a nonzero id, the preimage takes the
    // fields in the order: author, payload, predecessor, seed, id.
    let m2 = Message::new(String::from("A"), String::from("B"), String::from("hi"));
    let b2 = Block::new(m2, String::from("K"), Some(String::from("4249AA")), 3);
    assert_eq!(
        b2.hash,
        "144BCABCB2606B2A67F35EE9EE7E8CD7CAD33C540E0F968A8A95A469FC186440"
    );
}

#[test]
fn block_hash_is_deterministic() {
    let a = Block::new(msg("x"), String::from("AB"), None, 0);
    let b = Block::new(msg("x"), String::from("AB"), None, 0);
    assert_eq!(a.hash, b.hash);
    let c = Block::new(msg("y"), String::from("AB"), None, 0);
    assert_ne!(a.hash, c.hash);
}

#[test]
fn mined_genesis_validates() {
    let mut b = Block::new(msg("gen"), String::from("AB"), None, 0);
    assert!(b.finalize());
    assert!(b.hash.starts_with("4249"));
    assert_eq!(b.hash.len(), 64);
    assert!(b.validate_block());
}

#[test]
fn mining_keeps_the_other_fields() {
    let mut b = Block::new(msg("gen"), String::from("AB"), None, 0);
    assert!(b.finalize());
    assert_eq!(b.node_id, 0);
    assert_eq!(b.previous_hash, None);
    assert_eq!(b.data.text, "gen");
    assert_eq!(b.author_public_key, "AB");
}

#[test]
fn validate_checks_target_prefix() {
    let mut b = Block::new(msg("v"), String::from("AB"), None, 0);
    b.hash = forged(0);
    assert!(b.validate_block());
    b.hash = format!("4248{:060}", 0);
    assert!(!b.validate_block());
    b.hash = String::from("424");
    assert!(!b.validate_block());
}

#[test]
fn validate_genesis_rule() {
    let mut b = Block::new(msg("v"), String::from("AB"), None, 1);
    b.hash = forged(0);
    assert!(!b.validate_block());
    b.node_id = 0;
    assert!(b.validate_block());
}

#[test]
fn validate_checks_predecessor_prefix() {
    let mut b = Block::new(msg("v"), String::from("AB"), Some(forged(1)), 1);
    b.hash = forged(0);
    assert!(b.validate_block());
    b.previous_hash = Some(format!("0000{:060}", 1));
    assert!(!b.validate_block());
}

#[test]
fn canonical_form_is_fixed_layout() {
    let m = Message::new(String::from("A"), String::from("B"), String::from("hi"));
    assert_eq!(m.to_string(), "to:\nA\nfrom:\nB\ntext:\nhi\n\nsigning_key:\n");
    let m2 = Message {
        to: String::from("A"),
        from: String::from("B"),
        text: String::from("hi"),
        signing_key: Some(String::from("CAFE")),
    };
    assert_eq!(m2.to_string(), "to:\nA\nfrom:\nB\ntext:\nhi\n\nsigning_key:\nCAFE");
}
