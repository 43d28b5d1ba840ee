use biddychain::block::Block;
use biddychain::chain::{Chain, ChainError};
use biddychain::codec;
use biddychain::message::Message;

fn msg(text: &str) -> Message {
    Message::new(String::from("AA"), String::from("BB"), String::from(text))
}

fn forged(i: u32) -> String {
    format!("4249{:060}", i)
}

fn forged_block(id: u32, prev: Option<String>) -> Block {
    let mut b = Block::new(msg("payload"), String::from("AB"), prev, id);
    b.hash = forged(id);
    b
}

fn linked_chain(n: u32) -> Chain {
    let mut chain = Chain::new();
    let mut prev: Option<String> = None;
    for i in 0..n {
        let b = forged_block(i, prev.clone());
        prev = Some(b.hash.clone());
        assert_eq!(chain.add_block(b), Ok(()));
    }
    chain
}

#[test]
fn scenario_fifty_inserts_one_snapshot_then_empty() {
    let mut chain = Chain::new();
    let mut prev: Option<String> = None;
    for i in 0..50u32 {
        assert!(!chain.needs_checkpoint());
        let b = forged_block(i, prev.clone());
        prev = Some(b.hash.clone());
        assert_eq!(chain.add_block(b), Ok(()));
    }
    assert!(chain.needs_checkpoint());

    let cp = chain.prepare_checkpoint().unwrap();
    assert_eq!(cp.file_name, "chain-0-49.chain.part");
    // Preparing alone clears nothing: that waits for the successful write.
    assert_eq!(chain.len(), 50);
    chain.clear_working_set();
    assert_eq!(chain.len(), 0);

    // The snapshot holds the whole flushed working set.
    let blocks = codec::decode_chain(&cp.data).unwrap();
    assert_eq!(blocks.len(), 50);
    for (i, b) in blocks.iter().enumerate() {
        assert_eq!(b.node_id, i as u32);
        assert_eq!(b.hash, forged(i as u32));
    }
}

#[test]
fn mining_resumes_after_a_flush() {
    let mut chain = Chain::new();
    let mut prev: Option<String> = None;
    for i in 0..50u32 {
        let b = forged_block(i, prev.clone());
        prev = Some(b.hash.clone());
        assert_eq!(chain.add_block(b), Ok(()));
    }
    let cp = chain.prepare_checkpoint().unwrap();
    assert_eq!(cp.file_name, "chain-0-49.chain.part");
    chain.clear_working_set();

    // The next block still references the flushed tip; it re-roots the
    // now-empty working set, and the next snapshot range starts where
    // the previous one ended.
    let b50 = forged_block(50, prev.clone());
    let b50_hash = b50.hash.clone();
    assert_eq!(chain.add_block(b50), Ok(()));
    assert_eq!(chain.next_block_context(), Some((Some(b50_hash), 51)));
    assert_eq!(chain.add_block(forged_block(51, Some(forged(50)))), Ok(()));
    assert_eq!(chain.get_min_max_block_id(), Some((50, 51)));
}

#[test]
fn flush_on_empty_store_fails() {
    let chain = Chain::new();
    assert!(chain.get_min_max_block_id().is_none());
    assert_eq!(chain.prepare_checkpoint().err(), Some(ChainError::SaveError));
}

#[test]
fn min_max_ids_span_the_working_set() {
    let chain = linked_chain(4);
    assert_eq!(chain.get_min_max_block_id(), Some((0, 3)));
}

#[test]
fn min_max_ids_stop_at_a_checkpoint_boundary() {
    let mut chain = Chain::new();
    // An orphan root whose reference dangles (as after a flush) re-roots
    // the empty working set, and the walk for the id range stops at the
    // boundary.
    assert_eq!(chain.add_block(forged_block(0, Some(forged(9)))), Ok(()));
    assert_eq!(chain.get_min_max_block_id(), Some((0, 0)));
    assert_eq!(chain.add_block(forged_block(1, Some(forged(0)))), Ok(()));
    assert_eq!(chain.get_min_max_block_id(), Some((0, 1)));
}
