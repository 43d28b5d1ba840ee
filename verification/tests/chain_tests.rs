use biddychain::block::Block;
use biddychain::chain::{Chain, ChainError};
use biddychain::message::Message;

fn msg(text: &str) -> Message {
    Message::new(String::from("AA"), String::from("BB"), String::from(text))
}

fn forged(i: u32) -> String {
    format!("4249{:060}", i)
}

/// A block whose hash is forged to meet the target: `validate_block` is a
/// format check only, so these pass it and make chain scenarios cheap.
fn forged_block(id: u32, prev: Option<String>) -> Block {
    let mut b = Block::new(msg("payload"), String::from("AB"), prev, id);
    b.hash = forged(id);
    b
}

#[test]
fn scenario_mined_chain_accepts_then_rejects_second_genesis() {
    let mut chain = Chain::new();

    let mut genesis = Block::new(msg("gen"), String::from("AB"), None, 0);
    assert!(genesis.finalize());
    let genesis_hash = genesis.hash.clone();
    assert_eq!(chain.add_block(genesis), Ok(()));

    let mut second = Block::new(msg("second"), String::from("AB"), Some(genesis_hash), 1);
    assert!(second.finalize());
    assert_eq!(chain.add_block(second), Ok(()));

    let mut third = Block::new(msg("third"), String::from("AB"), None, 1);
    assert!(third.finalize());
    assert_eq!(chain.add_block(third), Err(ChainError::InvalidChain));
}

#[test]
fn linked_chain_verifies_on_tip() {
    let mut chain = Chain::new();
    let mut prev: Option<String> = None;
    for i in 0..5u32 {
        let b = forged_block(i, prev.clone());
        prev = Some(b.hash.clone());
        assert_eq!(chain.add_block(b), Ok(()));
    }
    // A fresh copy of the tip still walks the whole chain successfully.
    let tip_copy = forged_block(4, Some(forged(3)));
    assert!(chain.verify_chain(&tip_copy));
}

#[test]
fn flipped_predecessor_reference_is_rejected() {
    let mut chain = Chain::new();
    let mut prev: Option<String> = None;
    for i in 0..5u32 {
        let b = forged_block(i, prev.clone());
        prev = Some(b.hash.clone());
        assert_eq!(chain.add_block(b), Ok(()));
    }
    // One flipped character in the referenced hash and the walk finds no
    // parent; a non-genesis orphan is rejected.
    let mut flipped = forged(4);
    flipped.replace_range(63..64, "5");
    let candidate = forged_block(5, Some(flipped));
    assert!(!chain.verify_chain(&candidate));
    let honest = forged_block(5, Some(forged(4)));
    assert!(chain.verify_chain(&honest));
}

#[test]
fn orphan_non_genesis_rejected() {
    let mut chain = Chain::new();
    assert_eq!(chain.add_block(forged_block(0, None)), Ok(()));
    // Prefixed but locally absent predecessor, sequence id not 0.
    let orphan = forged_block(7, Some(format!("4249{:059}9", 1)));
    assert_eq!(chain.add_block(orphan), Err(ChainError::InvalidChain));
}

#[test]
fn orphan_accepted_only_into_an_empty_working_set() {
    // With nothing held locally there is no history left to corroborate
    // against: the candidate re-roots the working set (the state right
    // after a checkpoint flush). As soon as anything is held, a dangling
    // reference that skips it is rejected.
    let mut chain = Chain::new();
    let orphan = forged_block(3, Some(forged(2)));
    assert_eq!(chain.add_block(orphan), Ok(()));
    let skipping = forged_block(9, Some(forged(8)));
    assert_eq!(chain.add_block(skipping), Err(ChainError::InvalidChain));
}

#[test]
fn invalid_block_rejected_by_walk() {
    let mut chain = Chain::new();
    let mut bad = forged_block(0, None);
    bad.hash = format!("0000{:060}", 0);
    assert_eq!(chain.add_block(bad), Err(ChainError::InvalidChain));
}

#[test]
fn next_block_context_follows_the_tip() {
    let mut chain = Chain::new();
    assert_eq!(chain.next_block_context(), Some((None, 0)));
    assert_eq!(chain.add_block(forged_block(0, None)), Ok(()));
    assert_eq!(chain.next_block_context(), Some((Some(forged(0)), 1)));
    assert_eq!(chain.add_block(forged_block(1, Some(forged(0)))), Ok(()));
    assert_eq!(chain.next_block_context(), Some((Some(forged(1)), 2)));
}

#[test]
fn next_block_context_is_absent_while_the_tip_dangles() {
    let mut chain = Chain::new();
    assert_eq!(chain.add_block(forged_block(0, None)), Ok(()));
    chain.clear_working_set();
    // The tip bookkeeping survives the flush, but the tip block is no
    // longer held locally, so no reference can be built from it.
    assert_eq!(chain.next_block_context(), None);
}

#[test]
fn reinserting_a_hash_replaces_not_grows() {
    let mut chain = Chain::new();
    assert_eq!(chain.add_block(forged_block(0, None)), Ok(()));
    assert_eq!(chain.add_block(forged_block(0, None)), Ok(()));
    assert_eq!(chain.len(), 1);
}
