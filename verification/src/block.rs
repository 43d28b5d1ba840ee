//! Blocks: creation, proof-of-work mining, and format validation.
//!
//! A block's hash is the uppercase-hex SHA-256 digest of its author key,
//! canonical payload, predecessor hash (empty for genesis), seed and
//! sequence id, in that order. Mining searches seeds upward until the hash
//! meets the fixed target prefix.

use crate::hashing;
use crate::hashing::{dec_str_of, hex_upper_of, sha256_of};
use crate::message::{spec_canonical, Message, MessageView};
use crate::starts_with_target;
use vstd::prelude::*;

verus! {

/// The view of an optional string: its characters, if present.
pub open spec fn opt_str_view(o: Option<String>) -> Option<Seq<char>> {
    match o {
        Some(s) => Some(s@),
        None => None,
    }
}

/// A ledger entry. `node_id` is the position in the author's own chain
/// (0 for genesis), `previous_hash` the predecessor's content hash (absent
/// only for genesis), and `seed` the nonce found by mining.
#[derive(Clone)]
pub struct Block {
    pub node_id: u32,
    pub previous_hash: Option<String>,
    pub hash: String,
    pub data: Message,
    pub author_public_key: String,
    pub seed: u32,
}

/// The mathematical model of a block.
pub struct BlockView {
    pub node_id: u32,
    pub previous_hash: Option<Seq<char>>,
    pub hash: Seq<char>,
    pub data: MessageView,
    pub author_public_key: Seq<char>,
    pub seed: u32,
}

impl View for Block {
    type V = BlockView;

    open spec fn view(&self) -> BlockView {
        BlockView {
            node_id: self.node_id,
            previous_hash: opt_str_view(self.previous_hash),
            hash: self.hash@,
            data: self.data@,
            author_public_key: self.author_public_key@,
            seed: self.seed,
        }
    }
}

/// The string that is hashed to produce a block's hash: author key,
/// canonical payload, predecessor hash or nothing, then seed and sequence
/// id in decimal.
pub open spec fn spec_preimage(
    author: Seq<char>,
    data: MessageView,
    previous_hash: Option<Seq<char>>,
    seed: u32,
    node_id: u32,
) -> Seq<char> {
    author + spec_canonical(data) + (match previous_hash {
        Some(h) => h,
        None => Seq::empty(),
    }) + dec_str_of(seed as nat) + dec_str_of(node_id as nat)
}

/// A block's hash as a function of its fields: the uppercase-hex SHA-256
/// digest of the preimage string.
pub open spec fn spec_block_hash(
    author: Seq<char>,
    data: MessageView,
    previous_hash: Option<Seq<char>>,
    seed: u32,
    node_id: u32,
) -> Seq<char> {
    hex_upper_of(sha256_of(spec_preimage(author, data, previous_hash, seed, node_id)))
}

impl BlockView {
    /// The hash this block would have with the given seed.
    pub open spec fn hash_at(self, seed: u32) -> Seq<char> {
        spec_block_hash(self.author_public_key, self.data, self.previous_hash, seed, self.node_id)
    }

    /// Well-formed: the stored hash is the hash of the stored fields.
    pub open spec fn wf(self) -> bool {
        self.hash == self.hash_at(self.seed)
    }
}

/// What `validate_block` checks: the hash meets the target, a genesis
/// block carries sequence id 0, and a referenced predecessor hash itself
/// meets the target. The check is shallow: it never re-derives the hash
/// from the fields.
pub open spec fn spec_validate(b: BlockView) -> bool {
    &&& starts_with_target(b.hash)
    &&& match b.previous_hash {
        Some(h) => starts_with_target(h),
        None => b.node_id == 0,
    }
}

/// Whether a string begins with the proof-of-work target prefix.
pub fn meets_target(h: &String) -> (r: bool)
    ensures
        r == starts_with_target(h@),
{
    let s = h.as_str();
    if s.unicode_len() < 4 {
        return false;
    }
    s.get_char(0) == '4' && s.get_char(1) == '2' && s.get_char(2) == '4' && s.get_char(3) == '9'
}

fn generate_block_hash(
    author: &String,
    data: &Message,
    previous_hash: &Option<String>,
    seed: u32,
    node_id: u32,
) -> (r: String)
    ensures
        r@ == spec_block_hash(author@, data@, opt_str_view(*previous_hash), seed, node_id),
{
    let mut s = String::new();
    s.append(author.as_str());
    let canon = data.to_string();
    s.append(canon.as_str());
    match previous_hash {
        Some(h) => s.append(h.as_str()),
        None => {},
    }
    hashing::push_decimal(&mut s, seed);
    hashing::push_decimal(&mut s, node_id);
    proof {
        assert(s@ =~= spec_preimage(author@, data@, opt_str_view(*previous_hash), seed, node_id));
    }
    let digest = hashing::sha256_str(s.as_str());
    hashing::to_upper_hex(&digest)
}

impl Block {
    /// Builds an unmined block: seed 0 and the hash of the fields as they
    /// stand. The author's identity arrives already hex-encoded.
    pub fn new(
        data: Message,
        author_public_key: String,
        previous_hash: Option<String>,
        node_id: u32,
    ) -> (b: Block)
        ensures
            b@.node_id == node_id,
            b@.previous_hash == opt_str_view(previous_hash),
            b@.data == data@,
            b@.author_public_key == author_public_key@,
            b@.seed == 0,
            b@.wf(),
    {
        let hash = generate_block_hash(&author_public_key, &data, &previous_hash, 0, node_id);
        Block { node_id, previous_hash, hash, data, author_public_key, seed: 0 }
    }

    /// Mines the block: searches seeds upward from the current one until
    /// the hash meets the target prefix, recomputing the hash each step.
    ///
    /// Returns true on success, which in practice is the only outcome: the
    /// search fails only if no remaining 32-bit seed yields a target
    /// hash. Either way the search itself terminates, and on success the
    /// final seed is the least workable one at or above the starting seed.
    pub fn finalize(&mut self) -> (r: bool)
        requires
            old(self)@.wf(),
        ensures
            final(self)@.wf(),
            final(self)@.node_id == old(self)@.node_id,
            final(self)@.previous_hash == old(self)@.previous_hash,
            final(self)@.data == old(self)@.data,
            final(self)@.author_public_key == old(self)@.author_public_key,
            old(self)@.seed <= final(self)@.seed,
            r == starts_with_target(final(self)@.hash),
            forall|s: u32|
                old(self)@.seed <= s < final(self)@.seed ==> !starts_with_target(
                    old(self)@.hash_at(s),
                ),
            !r ==> forall|s: u32|
                old(self)@.seed <= s ==> !starts_with_target(old(self)@.hash_at(s)),
    {
        let ghost orig: BlockView = old(self)@;
        loop
            invariant
                orig == old(self)@,
                self@.wf(),
                self@.node_id == orig.node_id,
                self@.previous_hash == orig.previous_hash,
                self@.data == orig.data,
                self@.author_public_key == orig.author_public_key,
                orig.seed <= self@.seed,
                forall|s: u32|
                    orig.seed <= s < self@.seed ==> !starts_with_target(orig.hash_at(s)),
            decreases u32::MAX - self.seed,
        {
            proof {
                assert(self@.hash_at(self@.seed) == orig.hash_at(self@.seed));
            }
            if meets_target(&self.hash) {
                return true;
            }
            if self.seed == u32::MAX {
                return false;
            }
            self.seed = self.seed + 1;
            self.hash = generate_block_hash(
                &self.author_public_key,
                &self.data,
                &self.previous_hash,
                self.seed,
                self.node_id,
            );
        }
    }

    /// This block in the checkpoint byte format.
    pub fn print_block(&self) -> (r: Vec<u8>)
        ensures
            r@ == crate::codec::spec_enc_block(self@),
    {
        crate::codec::encode_block(self)
    }

    /// The shallow self-consistency check: target prefix, genesis rule,
    /// and target prefix of a referenced predecessor hash. A forged hash
    /// with the right prefix passes; tamper detection along a chain is
    /// `verify_chain`'s business.
    pub fn validate_block(&self) -> (r: bool)
        ensures
            r == spec_validate(self@),
    {
        if !meets_target(&self.hash) {
            return false;
        }
        match &self.previous_hash {
            Some(hash) => {
                if !meets_target(hash) {
                    return false;
                }
            },
            None => {
                if self.node_id != 0 {
                    return false;
                }
            },
        }
        true
    }
}

impl PartialEq for Block {
    fn eq(&self, other: &Block) -> (r: bool) {
        self.node_id == other.node_id && (match (&self.previous_hash, &other.previous_hash) {
            (Some(a), Some(b)) => *a == *b,
            (None, None) => true,
            _ => false,
        }) && self.hash == other.hash && self.data == other.data && self.author_public_key
            == other.author_public_key && self.seed == other.seed
    }
}

impl vstd::std_specs::cmp::PartialEqSpecImpl for Block {
    open spec fn obeys_eq_spec() -> bool {
        true
    }

    open spec fn eq_spec(&self, other: &Block) -> bool {
        self@ == other@
    }
}

/// The format check is exactly the target-prefix test on the block's own
/// hash together with the genesis rule, provided any referenced
/// predecessor hash itself meets the target.
pub proof fn lemma_validate_characterization(b: BlockView)
    requires
        b.previous_hash matches Some(h) ==> starts_with_target(h),
    ensures
        spec_validate(b) <==> (starts_with_target(b.hash) && (b.previous_hash is None
            ==> b.node_id == 0)),
{
}

/// A finalized block validates: once its own hash meets the target, it
/// passes `validate_block` whenever its predecessor reference (if any)
/// meets the target and it carries sequence id 0 when it references
/// nothing.
pub proof fn lemma_finalized_validates(b: BlockView)
    requires
        starts_with_target(b.hash),
        b.previous_hash matches Some(h) ==> starts_with_target(h),
        b.previous_hash is None ==> b.node_id == 0,
    ensures
        spec_validate(b),
{
}

} // verus!
