//! The checkpoint byte format: a versioned, self-describing encoding of
//! blocks and of the whole working set, together with its decoder and the
//! proof that decoding inverts encoding.
//!
//! Layout: integers are little-endian; a string is its character count as
//! a 64-bit integer followed by one 32-bit scalar value per character; an
//! optional string is a one-byte tag (0 absent, 1 present) followed by the
//! string; a block is its fields in declaration order; a snapshot is a
//! format version byte, a 64-bit block count, and the blocks.

use crate::block::{Block, BlockView};
use crate::hashing::push_char;
use crate::message::{Message, MessageView};
use vstd::prelude::*;

verus! {

/// The version byte that opens every checkpoint snapshot.
pub const FORMAT_VERSION: u8 = 1;

// --- encoders, specification level ---

pub open spec fn spec_enc_u32(n: u32) -> Seq<u8> {
    seq![
        (n & 0xff) as u8,
        ((n >> 8) & 0xff) as u8,
        ((n >> 16) & 0xff) as u8,
        ((n >> 24) & 0xff) as u8,
    ]
}

pub open spec fn spec_enc_u64(n: u64) -> Seq<u8> {
    seq![
        (n & 0xff) as u8,
        ((n >> 8) & 0xff) as u8,
        ((n >> 16) & 0xff) as u8,
        ((n >> 24) & 0xff) as u8,
        ((n >> 32) & 0xff) as u8,
        ((n >> 40) & 0xff) as u8,
        ((n >> 48) & 0xff) as u8,
        ((n >> 56) & 0xff) as u8,
    ]
}

pub open spec fn spec_enc_chars(s: Seq<char>) -> Seq<u8>
    decreases s.len(),
{
    if s.len() == 0 {
        Seq::empty()
    } else {
        spec_enc_u32(s[0] as u32) + spec_enc_chars(s.drop_first())
    }
}

pub open spec fn spec_enc_str(s: Seq<char>) -> Seq<u8> {
    spec_enc_u64(s.len() as u64) + spec_enc_chars(s)
}

pub open spec fn spec_enc_opt_str(o: Option<Seq<char>>) -> Seq<u8> {
    match o {
        None => seq![0u8],
        Some(s) => seq![1u8] + spec_enc_str(s),
    }
}

pub open spec fn spec_enc_message(m: MessageView) -> Seq<u8> {
    spec_enc_str(m.to) + spec_enc_str(m.from) + spec_enc_str(m.text) + spec_enc_opt_str(
        m.signing_key,
    )
}

pub open spec fn spec_enc_block(b: BlockView) -> Seq<u8> {
    spec_enc_u32(b.node_id) + spec_enc_opt_str(b.previous_hash) + spec_enc_str(b.hash)
        + spec_enc_message(b.data) + spec_enc_str(b.author_public_key) + spec_enc_u32(b.seed)
}

pub open spec fn spec_enc_blocks(s: Seq<BlockView>) -> Seq<u8>
    decreases s.len(),
{
    if s.len() == 0 {
        Seq::empty()
    } else {
        spec_enc_block(s[0]) + spec_enc_blocks(s.drop_first())
    }
}

pub open spec fn spec_enc_chain(s: Seq<BlockView>) -> Seq<u8> {
    seq![FORMAT_VERSION] + spec_enc_u64(s.len() as u64) + spec_enc_blocks(s)
}

// --- decoders, specification level ---
// Each consumes a prefix of the bytes and yields the value and the rest.

pub open spec fn spec_dec_u8(b: Seq<u8>) -> Option<(u8, Seq<u8>)> {
    if b.len() >= 1 {
        Some((b[0], b.skip(1)))
    } else {
        None
    }
}

pub open spec fn spec_dec_u32(b: Seq<u8>) -> Option<(u32, Seq<u8>)> {
    if b.len() >= 4 {
        Some(
            (
                (b[0] as u32) | ((b[1] as u32) << 8) | ((b[2] as u32) << 16) | ((b[3] as u32)
                    << 24),
                b.skip(4),
            ),
        )
    } else {
        None
    }
}

pub open spec fn spec_dec_u64(b: Seq<u8>) -> Option<(u64, Seq<u8>)> {
    if b.len() >= 8 {
        Some(
            (
                (b[0] as u64) | ((b[1] as u64) << 8) | ((b[2] as u64) << 16) | ((b[3] as u64)
                    << 24) | ((b[4] as u64) << 32) | ((b[5] as u64) << 40) | ((b[6] as u64) << 48)
                    | ((b[7] as u64) << 56),
                b.skip(8),
            ),
        )
    } else {
        None
    }
}

pub open spec fn spec_dec_chars(b: Seq<u8>, count: nat) -> Option<(Seq<char>, Seq<u8>)>
    decreases count,
{
    if count == 0 {
        Some((Seq::empty(), b))
    } else {
        match spec_dec_u32(b) {
            None => None,
            Some((v, rest)) => if !vstd::utf8::is_scalar(v) {
                None
            } else {
                match spec_dec_chars(rest, (count - 1) as nat) {
                    None => None,
                    Some((cs, rest2)) => Some((seq![v as char] + cs, rest2)),
                }
            },
        }
    }
}

pub open spec fn spec_dec_str(b: Seq<u8>) -> Option<(Seq<char>, Seq<u8>)> {
    match spec_dec_u64(b) {
        None => None,
        Some((n, rest)) => if n > usize::MAX as u64 {
            None
        } else {
            spec_dec_chars(rest, n as nat)
        },
    }
}

pub open spec fn spec_dec_opt_str(b: Seq<u8>) -> Option<(Option<Seq<char>>, Seq<u8>)> {
    match spec_dec_u8(b) {
        None => None,
        Some((tag, rest)) => if tag == 0 {
            Some((None, rest))
        } else if tag == 1 {
            match spec_dec_str(rest) {
                None => None,
                Some((s, rest2)) => Some((Some(s), rest2)),
            }
        } else {
            None
        },
    }
}

pub open spec fn spec_dec_message(b: Seq<u8>) -> Option<(MessageView, Seq<u8>)> {
    match spec_dec_str(b) {
        None => None,
        Some((to, b1)) => match spec_dec_str(b1) {
            None => None,
            Some((from, b2)) => match spec_dec_str(b2) {
                None => None,
                Some((text, b3)) => match spec_dec_opt_str(b3) {
                    None => None,
                    Some((sk, b4)) => Some(
                        (MessageView { to, from, text, signing_key: sk }, b4),
                    ),
                },
            },
        },
    }
}

pub open spec fn spec_dec_block(b: Seq<u8>) -> Option<(BlockView, Seq<u8>)> {
    match spec_dec_u32(b) {
        None => None,
        Some((node_id, b1)) => match spec_dec_opt_str(b1) {
            None => None,
            Some((previous_hash, b2)) => match spec_dec_str(b2) {
                None => None,
                Some((hash, b3)) => match spec_dec_message(b3) {
                    None => None,
                    Some((data, b4)) => match spec_dec_str(b4) {
                        None => None,
                        Some((author_public_key, b5)) => match spec_dec_u32(b5) {
                            None => None,
                            Some((seed, b6)) => Some(
                                (
                                    BlockView {
                                        node_id,
                                        previous_hash,
                                        hash,
                                        data,
                                        author_public_key,
                                        seed,
                                    },
                                    b6,
                                ),
                            ),
                        },
                    },
                },
            },
        },
    }
}

pub open spec fn spec_dec_blocks(b: Seq<u8>, count: nat) -> Option<(Seq<BlockView>, Seq<u8>)>
    decreases count,
{
    if count == 0 {
        Some((Seq::empty(), b))
    } else {
        match spec_dec_block(b) {
            None => None,
            Some((bv, rest)) => match spec_dec_blocks(rest, (count - 1) as nat) {
                None => None,
                Some((bs, rest2)) => Some((seq![bv] + bs, rest2)),
            },
        }
    }
}

pub open spec fn spec_dec_chain(b: Seq<u8>) -> Option<Seq<BlockView>> {
    match spec_dec_u8(b) {
        None => None,
        Some((version, b1)) => if version != FORMAT_VERSION {
            None
        } else {
            match spec_dec_u64(b1) {
                None => None,
                Some((n, b2)) => if n > usize::MAX as u64 {
                    None
                } else {
                    match spec_dec_blocks(b2, n as nat) {
                        None => None,
                        Some((bs, b3)) => if b3.len() == 0 {
                            Some(bs)
                        } else {
                            None
                        },
                    }
                },
            }
        },
    }
}

// --- what fits in the format ---

pub open spec fn str_fits(s: Seq<char>) -> bool {
    s.len() <= usize::MAX
}

pub open spec fn opt_str_fits(o: Option<Seq<char>>) -> bool {
    match o {
        None => true,
        Some(s) => str_fits(s),
    }
}

pub open spec fn message_fits(m: MessageView) -> bool {
    str_fits(m.to) && str_fits(m.from) && str_fits(m.text) && opt_str_fits(m.signing_key)
}

pub open spec fn block_fits(b: BlockView) -> bool {
    opt_str_fits(b.previous_hash) && str_fits(b.hash) && message_fits(b.data) && str_fits(
        b.author_public_key,
    )
}

pub open spec fn chain_fits(s: Seq<BlockView>) -> bool {
    s.len() <= usize::MAX && forall|i: int| 0 <= i < s.len() ==> block_fits(#[trigger] s[i])
}

// --- round-trip proofs ---

pub proof fn lemma_rt_u8(n: u8, rest: Seq<u8>)
    ensures
        spec_dec_u8(seq![n] + rest) == Some((n, rest)),
{
    assert((seq![n] + rest).skip(1) =~= rest);
}

pub proof fn lemma_rt_u32(n: u32, rest: Seq<u8>)
    ensures
        spec_dec_u32(spec_enc_u32(n) + rest) == Some((n, rest)),
{
    let b = spec_enc_u32(n) + rest;
    assert(b.skip(4) =~= rest);
    assert((((n & 0xff) as u8) as u32) | (((((n >> 8) & 0xff) as u8) as u32) << 8) | (((((n >> 16)
        & 0xff) as u8) as u32) << 16) | (((((n >> 24) & 0xff) as u8) as u32) << 24) == n)
        by (bit_vector);
}

pub proof fn lemma_rt_u64(n: u64, rest: Seq<u8>)
    ensures
        spec_dec_u64(spec_enc_u64(n) + rest) == Some((n, rest)),
{
    let b = spec_enc_u64(n) + rest;
    assert(b.skip(8) =~= rest);
    assert((((n & 0xff) as u8) as u64) | (((((n >> 8) & 0xff) as u8) as u64) << 8) | (((((n >> 16)
        & 0xff) as u8) as u64) << 16) | (((((n >> 24) & 0xff) as u8) as u64) << 24) | (((((n >> 32)
        & 0xff) as u8) as u64) << 32) | (((((n >> 40) & 0xff) as u8) as u64) << 40) | (((((n >> 48)
        & 0xff) as u8) as u64) << 48) | (((((n >> 56) & 0xff) as u8) as u64) << 56) == n)
        by (bit_vector);
}

pub proof fn lemma_rt_chars(s: Seq<char>, rest: Seq<u8>)
    ensures
        spec_dec_chars(spec_enc_chars(s) + rest, s.len()) == Some((s, rest)),
    decreases s.len(),
{
    if s.len() == 0 {
        assert(spec_enc_chars(s) + rest =~= rest);
    } else {
        let c = s[0];
        let v = c as u32;
        let tail_bytes = spec_enc_chars(s.drop_first()) + rest;
        assert(spec_enc_chars(s) + rest =~= spec_enc_u32(v) + tail_bytes);
        lemma_rt_u32(v, tail_bytes);
        vstd::utf8::char_is_scalar(c);
        vstd::utf8::char_u32_cast(c, v);
        lemma_rt_chars(s.drop_first(), rest);
        assert(seq![v as char] + s.drop_first() =~= s);
    }
}

pub proof fn lemma_rt_str(s: Seq<char>, rest: Seq<u8>)
    requires
        str_fits(s),
    ensures
        spec_dec_str(spec_enc_str(s) + rest) == Some((s, rest)),
{
    let chars_bytes = spec_enc_chars(s) + rest;
    assert(spec_enc_str(s) + rest =~= spec_enc_u64(s.len() as u64) + chars_bytes);
    lemma_rt_u64(s.len() as u64, chars_bytes);
    lemma_rt_chars(s, rest);
}

pub proof fn lemma_rt_opt_str(o: Option<Seq<char>>, rest: Seq<u8>)
    requires
        opt_str_fits(o),
    ensures
        spec_dec_opt_str(spec_enc_opt_str(o) + rest) == Some((o, rest)),
{
    match o {
        None => {
            lemma_rt_u8(0u8, rest);
            assert(spec_enc_opt_str(o) + rest =~= seq![0u8] + rest);
        },
        Some(s) => {
            let str_bytes = spec_enc_str(s) + rest;
            assert(spec_enc_opt_str(o) + rest =~= seq![1u8] + str_bytes);
            lemma_rt_u8(1u8, str_bytes);
            lemma_rt_str(s, rest);
        },
    }
}

pub proof fn lemma_rt_message(m: MessageView, rest: Seq<u8>)
    requires
        message_fits(m),
    ensures
        spec_dec_message(spec_enc_message(m) + rest) == Some((m, rest)),
{
    let e2 = spec_enc_str(m.from);
    let e3 = spec_enc_str(m.text);
    let e4 = spec_enc_opt_str(m.signing_key);
    assert(spec_enc_message(m) + rest =~= spec_enc_str(m.to) + (e2 + (e3 + (e4 + rest))));
    lemma_rt_str(m.to, e2 + (e3 + (e4 + rest)));
    lemma_rt_str(m.from, e3 + (e4 + rest));
    lemma_rt_str(m.text, e4 + rest);
    lemma_rt_opt_str(m.signing_key, rest);
    assert(MessageView { to: m.to, from: m.from, text: m.text, signing_key: m.signing_key } == m);
}

/// Decoding a block's encoding, whatever follows it, yields the block
/// field for field and leaves exactly what followed.
pub proof fn lemma_rt_block(b: BlockView, rest: Seq<u8>)
    requires
        block_fits(b),
    ensures
        spec_dec_block(spec_enc_block(b) + rest) == Some((b, rest)),
{
    let e2 = spec_enc_opt_str(b.previous_hash);
    let e3 = spec_enc_str(b.hash);
    let e4 = spec_enc_message(b.data);
    let e5 = spec_enc_str(b.author_public_key);
    let e6 = spec_enc_u32(b.seed);
    assert(spec_enc_block(b) + rest =~= spec_enc_u32(b.node_id) + (e2 + (e3 + (e4 + (e5 + (e6
        + rest))))));
    lemma_rt_u32(b.node_id, e2 + (e3 + (e4 + (e5 + (e6 + rest)))));
    lemma_rt_opt_str(b.previous_hash, e3 + (e4 + (e5 + (e6 + rest))));
    lemma_rt_str(b.hash, e4 + (e5 + (e6 + rest)));
    lemma_rt_message(b.data, e5 + (e6 + rest));
    lemma_rt_str(b.author_public_key, e6 + rest);
    lemma_rt_u32(b.seed, rest);
    assert(BlockView {
        node_id: b.node_id,
        previous_hash: b.previous_hash,
        hash: b.hash,
        data: b.data,
        author_public_key: b.author_public_key,
        seed: b.seed,
    } == b);
}

#[verifier::rlimit(100)]
#[verifier::spinoff_prover]
pub proof fn lemma_rt_blocks(s: Seq<BlockView>, rest: Seq<u8>)
    requires
        forall|i: int| 0 <= i < s.len() ==> block_fits(#[trigger] s[i]),
    ensures
        spec_dec_blocks(spec_enc_blocks(s) + rest, s.len()) == Some((s, rest)),
    decreases s.len(),
{
    if s.len() == 0 {
        assert(spec_enc_blocks(s) + rest =~= rest);
    } else {
        let tail_bytes = spec_enc_blocks(s.drop_first()) + rest;
        assert(spec_enc_blocks(s) + rest =~= spec_enc_block(s[0]) + tail_bytes);
        lemma_rt_block(s[0], tail_bytes);
        assert(forall|i: int|
            0 <= i < s.drop_first().len() ==> block_fits(#[trigger] s.drop_first()[i]));
        lemma_rt_blocks(s.drop_first(), rest);
        assert(seq![s[0]] + s.drop_first() =~= s);
    }
}

/// The round-trip law for a whole working set: decoding the snapshot
/// encoding of any sequence of blocks that fits the format yields the
/// same blocks, field for field.
pub proof fn lemma_rt_chain(s: Seq<BlockView>)
    requires
        chain_fits(s),
    ensures
        spec_dec_chain(spec_enc_chain(s)) == Some(s),
{
    let count_bytes = spec_enc_u64(s.len() as u64) + spec_enc_blocks(s);
    assert(spec_enc_chain(s) =~= seq![FORMAT_VERSION] + count_bytes);
    lemma_rt_u8(FORMAT_VERSION, count_bytes);
    assert(count_bytes =~= spec_enc_u64(s.len() as u64) + (spec_enc_blocks(s)
        + Seq::<u8>::empty()));
    lemma_rt_u64(s.len() as u64, spec_enc_blocks(s) + Seq::<u8>::empty());
    lemma_rt_blocks(s, Seq::<u8>::empty());
    assert(spec_enc_blocks(s) + Seq::<u8>::empty() =~= spec_enc_blocks(s));
}

// --- executable encoding ---

proof fn lemma_enc_chars_push(s: Seq<char>, c: char)
    ensures
        spec_enc_chars(s.push(c)) == spec_enc_chars(s) + spec_enc_u32(c as u32),
    decreases s.len(),
{
    if s.len() == 0 {
        assert(s.push(c)[0] == c);
        assert(s.push(c).drop_first() =~= Seq::<char>::empty());
        assert(spec_enc_chars(Seq::<char>::empty()) == Seq::<u8>::empty());
        assert(spec_enc_chars(s.push(c)) =~= spec_enc_chars(s) + spec_enc_u32(c as u32));
    } else {
        assert(s.push(c)[0] == s[0]);
        assert(s.push(c).drop_first() =~= s.drop_first().push(c));
        lemma_enc_chars_push(s.drop_first(), c);
        assert(spec_enc_chars(s.push(c)) =~= spec_enc_chars(s) + spec_enc_u32(c as u32));
    }
}

fn push_u32_le(out: &mut Vec<u8>, n: u32)
    ensures
        final(out)@ == old(out)@ + spec_enc_u32(n),
{
    out.push((n & 0xff) as u8);
    out.push(((n >> 8) & 0xff) as u8);
    out.push(((n >> 16) & 0xff) as u8);
    out.push(((n >> 24) & 0xff) as u8);
    proof {
        assert(out@ =~= old(out)@ + spec_enc_u32(n));
    }
}

fn push_u64_le(out: &mut Vec<u8>, n: u64)
    ensures
        final(out)@ == old(out)@ + spec_enc_u64(n),
{
    out.push((n & 0xff) as u8);
    out.push(((n >> 8) & 0xff) as u8);
    out.push(((n >> 16) & 0xff) as u8);
    out.push(((n >> 24) & 0xff) as u8);
    out.push(((n >> 32) & 0xff) as u8);
    out.push(((n >> 40) & 0xff) as u8);
    out.push(((n >> 48) & 0xff) as u8);
    out.push(((n >> 56) & 0xff) as u8);
    proof {
        assert(out@ =~= old(out)@ + spec_enc_u64(n));
    }
}

fn push_str(out: &mut Vec<u8>, s: &str)
    ensures
        final(out)@ == old(out)@ + spec_enc_str(s@),
{
    let n = s.unicode_len();
    push_u64_le(out, n as u64);
    let ghost mid = out@;
    let mut i: usize = 0;
    while i < n
        invariant
            mid == old(out)@ + spec_enc_u64(s@.len() as u64),
            i <= n,
            n as nat == s@.len(),
            out@ == mid + spec_enc_chars(s@.take(i as int)),
        decreases n - i,
    {
        let c = s.get_char(i);
        push_u32_le(out, c as u32);
        proof {
            assert(s@.take(i + 1 as int) =~= s@.take(i as int).push(s@[i as int]));
            lemma_enc_chars_push(s@.take(i as int), s@[i as int]);
            assert(out@ =~= mid + spec_enc_chars(s@.take(i + 1 as int)));
        }
        i = i + 1;
    }
    proof {
        assert(s@.take(s@.len() as int) =~= s@);
        assert(out@ =~= old(out)@ + spec_enc_str(s@));
    }
}

fn push_opt_str(out: &mut Vec<u8>, o: &Option<String>)
    ensures
        final(out)@ == old(out)@ + spec_enc_opt_str(crate::block::opt_str_view(*o)),
{
    match o {
        None => {
            out.push(0u8);
            proof {
                assert(out@ =~= old(out)@ + spec_enc_opt_str(crate::block::opt_str_view(*o)));
            }
        },
        Some(s) => {
            out.push(1u8);
            push_str(out, s.as_str());
            proof {
                assert(out@ =~= old(out)@ + spec_enc_opt_str(crate::block::opt_str_view(*o)));
            }
        },
    }
}

fn push_message(out: &mut Vec<u8>, m: &Message)
    ensures
        final(out)@ == old(out)@ + spec_enc_message(m@),
{
    push_str(out, m.to.as_str());
    push_str(out, m.from.as_str());
    push_str(out, m.text.as_str());
    push_opt_str(out, &m.signing_key);
    proof {
        assert(out@ =~= old(out)@ + spec_enc_message(m@));
    }
}

/// Appends the encoding of one block.
pub fn push_block(out: &mut Vec<u8>, b: &Block)
    ensures
        final(out)@ == old(out)@ + spec_enc_block(b@),
{
    push_u32_le(out, b.node_id);
    push_opt_str(out, &b.previous_hash);
    push_str(out, b.hash.as_str());
    push_message(out, &b.data);
    push_str(out, b.author_public_key.as_str());
    push_u32_le(out, b.seed);
    proof {
        assert(out@ =~= old(out)@ + spec_enc_block(b@));
    }
}

/// Encodes one block on its own.
pub fn encode_block(b: &Block) -> (r: Vec<u8>)
    ensures
        r@ == spec_enc_block(b@),
{
    let mut out: Vec<u8> = Vec::new();
    push_block(&mut out, b);
    proof {
        assert(out@ =~= spec_enc_block(b@));
    }
    out
}

#[verifier::rlimit(100)]
proof fn lemma_enc_blocks_push(s: Seq<BlockView>, b: BlockView)
    ensures
        spec_enc_blocks(s.push(b)) == spec_enc_blocks(s) + spec_enc_block(b),
    decreases s.len(),
{
    if s.len() == 0 {
        assert(s.push(b)[0] == b);
        assert(s.push(b).drop_first() =~= Seq::<BlockView>::empty());
        assert(spec_enc_blocks(Seq::<BlockView>::empty()) == Seq::<u8>::empty());
        assert(spec_enc_blocks(s.push(b)) =~= spec_enc_blocks(s) + spec_enc_block(b));
    } else {
        assert(s.push(b)[0] == s[0]);
        assert(s.push(b).drop_first() =~= s.drop_first().push(b));
        lemma_enc_blocks_push(s.drop_first(), b);
        assert(spec_enc_blocks(s.push(b)) =~= spec_enc_blocks(s) + spec_enc_block(b));
    }
}

/// Encodes a working set as a checkpoint snapshot.
pub fn encode_chain(blocks: &Vec<Block>) -> (r: Vec<u8>)
    ensures
        r@ == spec_enc_chain(blocks@.map_values(|b: Block| b@)),
{
    let ghost s = blocks@.map_values(|b: Block| b@);
    let mut out: Vec<u8> = Vec::new();
    out.push(FORMAT_VERSION);
    push_u64_le(&mut out, blocks.len() as u64);
    let ghost mid = out@;
    let mut i: usize = 0;
    while i < blocks.len()
        invariant
            s == blocks@.map_values(|b: Block| b@),
            mid == seq![FORMAT_VERSION] + spec_enc_u64(s.len() as u64),
            i <= blocks.len(),
            s.len() == blocks.len(),
            out@ == mid + spec_enc_blocks(s.take(i as int)),
        decreases blocks.len() - i,
    {
        push_block(&mut out, &blocks[i]);
        proof {
            assert(s[i as int] == blocks@[i as int]@);
            assert(s.take(i + 1 as int) =~= s.take(i as int).push(s[i as int]));
            lemma_enc_blocks_push(s.take(i as int), s[i as int]);
            assert(out@ =~= mid + spec_enc_blocks(s.take(i + 1 as int)));
        }
        i = i + 1;
    }
    proof {
        assert(s.take(s.len() as int) =~= s);
        assert(out@ =~= spec_enc_chain(s));
    }
    out
}

// --- executable decoding ---

/// Relies on char::from_u32: `Some` exactly on Unicode scalar values, and
/// the returned character carries the given scalar value.
#[verifier::external_body]
fn char_from_u32(v: u32) -> (r: Option<char>)
    ensures
        r matches Some(c) ==> c as u32 == v,
        r is Some <==> vstd::utf8::is_scalar(v),
{
    char::from_u32(v)
}

fn read_u8(bytes: &Vec<u8>, pos: usize) -> (r: Option<(u8, usize)>)
    requires
        pos <= bytes@.len(),
    ensures
        match r {
            Some((v, p2)) => pos <= p2 <= bytes@.len() && spec_dec_u8(bytes@.skip(pos as int))
                == Some((v, bytes@.skip(p2 as int))),
            None => spec_dec_u8(bytes@.skip(pos as int)) is None,
        },
{
    if pos < bytes.len() {
        proof {
            assert(bytes@.skip(pos as int)[0] == bytes@[pos as int]);
            assert(bytes@.skip(pos as int).skip(1) =~= bytes@.skip(pos + 1 as int));
        }
        Some((bytes[pos], pos + 1))
    } else {
        None
    }
}

fn read_u32(bytes: &Vec<u8>, pos: usize) -> (r: Option<(u32, usize)>)
    requires
        pos <= bytes@.len(),
    ensures
        match r {
            Some((v, p2)) => pos <= p2 <= bytes@.len() && spec_dec_u32(bytes@.skip(pos as int))
                == Some((v, bytes@.skip(p2 as int))),
            None => spec_dec_u32(bytes@.skip(pos as int)) is None,
        },
{
    if bytes.len() - pos >= 4 {
        let v = (bytes[pos] as u32) | ((bytes[pos + 1] as u32) << 8) | ((bytes[pos + 2] as u32)
            << 16) | ((bytes[pos + 3] as u32) << 24);
        proof {
            assert(bytes@.skip(pos as int)[0] == bytes@[pos as int]);
            assert(bytes@.skip(pos as int)[1] == bytes@[pos + 1 as int]);
            assert(bytes@.skip(pos as int)[2] == bytes@[pos + 2 as int]);
            assert(bytes@.skip(pos as int)[3] == bytes@[pos + 3 as int]);
            assert(bytes@.skip(pos as int).skip(4) =~= bytes@.skip(pos + 4 as int));
        }
        Some((v, pos + 4))
    } else {
        None
    }
}

fn read_u64(bytes: &Vec<u8>, pos: usize) -> (r: Option<(u64, usize)>)
    requires
        pos <= bytes@.len(),
    ensures
        match r {
            Some((v, p2)) => pos <= p2 <= bytes@.len() && spec_dec_u64(bytes@.skip(pos as int))
                == Some((v, bytes@.skip(p2 as int))),
            None => spec_dec_u64(bytes@.skip(pos as int)) is None,
        },
{
    if bytes.len() - pos >= 8 {
        let v = (bytes[pos] as u64) | ((bytes[pos + 1] as u64) << 8) | ((bytes[pos + 2] as u64)
            << 16) | ((bytes[pos + 3] as u64) << 24) | ((bytes[pos + 4] as u64) << 32) | ((
        bytes[pos + 5] as u64) << 40) | ((bytes[pos + 6] as u64) << 48) | ((bytes[pos + 7] as u64)
            << 56);
        proof {
            assert(bytes@.skip(pos as int)[0] == bytes@[pos as int]);
            assert(bytes@.skip(pos as int)[1] == bytes@[pos + 1 as int]);
            assert(bytes@.skip(pos as int)[2] == bytes@[pos + 2 as int]);
            assert(bytes@.skip(pos as int)[3] == bytes@[pos + 3 as int]);
            assert(bytes@.skip(pos as int)[4] == bytes@[pos + 4 as int]);
            assert(bytes@.skip(pos as int)[5] == bytes@[pos + 5 as int]);
            assert(bytes@.skip(pos as int)[6] == bytes@[pos + 6 as int]);
            assert(bytes@.skip(pos as int)[7] == bytes@[pos + 7 as int]);
            assert(bytes@.skip(pos as int).skip(8) =~= bytes@.skip(pos + 8 as int));
        }
        Some((v, pos + 8))
    } else {
        None
    }
}

fn read_chars(bytes: &Vec<u8>, pos: usize, count: usize) -> (r: Option<(String, usize)>)
    requires
        pos <= bytes@.len(),
    ensures
        match r {
            Some((v, p2)) => {
                &&& pos <= p2 <= bytes@.len()
                &&& spec_dec_chars(bytes@.skip(pos as int), count as nat) matches Some((cs, rem))
                    && v@ == cs && rem == bytes@.skip(p2 as int)
            },
            None => spec_dec_chars(bytes@.skip(pos as int), count as nat) is None,
        },
{
    let mut acc = String::new();
    let mut p = pos;
    let mut i: usize = 0;
    loop
        invariant
            pos <= p <= bytes@.len(),
            i <= count,
            spec_dec_chars(bytes@.skip(pos as int), count as nat) == (match spec_dec_chars(
                bytes@.skip(p as int),
                (count - i) as nat,
            ) {
                Some((cs, rem)) => Some((acc@ + cs, rem)),
                None => None::<(Seq<char>, Seq<u8>)>,
            }),
        decreases count - i,
    {
        if i == count {
            proof {
                assert(acc@ + Seq::<char>::empty() =~= acc@);
            }
            return Some((acc, p));
        }
        match read_u32(bytes, p) {
            None => {
                return None;
            },
            Some((v, p2)) => {
                match char_from_u32(v) {
                    None => {
                        return None;
                    },
                    Some(c) => {
                        proof {
                            vstd::utf8::char_u32_cast(c, v);
                        }
                        push_char(&mut acc, c);
                        proof {
                            let tail = spec_dec_chars(
                                bytes@.skip(p2 as int),
                                (count - i - 1) as nat,
                            );
                            match tail {
                                Some((cs2, rem2)) => {
                                    assert(acc@ + cs2 =~= (acc@.drop_last() + seq![c]) + cs2);
                                    assert(acc@.drop_last() + (seq![c] + cs2) =~= (
                                    acc@.drop_last() + seq![c]) + cs2);
                                },
                                None => {},
                            }
                        }
                        p = p2;
                        i = i + 1;
                    },
                }
            },
        }
    }
}

fn read_str(bytes: &Vec<u8>, pos: usize) -> (r: Option<(String, usize)>)
    requires
        pos <= bytes@.len(),
    ensures
        match r {
            Some((v, p2)) => {
                &&& pos <= p2 <= bytes@.len()
                &&& spec_dec_str(bytes@.skip(pos as int)) matches Some((cs, rem)) && v@ == cs
                    && rem == bytes@.skip(p2 as int)
            },
            None => spec_dec_str(bytes@.skip(pos as int)) is None,
        },
{
    match read_u64(bytes, pos) {
        None => None,
        Some((n, p1)) => {
            if n > usize::MAX as u64 {
                return None;
            }
            read_chars(bytes, p1, n as usize)
        },
    }
}

fn read_opt_str(bytes: &Vec<u8>, pos: usize) -> (r: Option<(Option<String>, usize)>)
    requires
        pos <= bytes@.len(),
    ensures
        match r {
            Some((v, p2)) => {
                &&& pos <= p2 <= bytes@.len()
                &&& spec_dec_opt_str(bytes@.skip(pos as int)) matches Some((o, rem))
                    && crate::block::opt_str_view(v) == o && rem == bytes@.skip(p2 as int)
            },
            None => spec_dec_opt_str(bytes@.skip(pos as int)) is None,
        },
{
    match read_u8(bytes, pos) {
        None => None,
        Some((tag, p1)) => {
            if tag == 0 {
                Some((None, p1))
            } else if tag == 1 {
                match read_str(bytes, p1) {
                    None => None,
                    Some((s, p2)) => Some((Some(s), p2)),
                }
            } else {
                None
            }
        },
    }
}

fn read_message(bytes: &Vec<u8>, pos: usize) -> (r: Option<(Message, usize)>)
    requires
        pos <= bytes@.len(),
    ensures
        match r {
            Some((v, p2)) => {
                &&& pos <= p2 <= bytes@.len()
                &&& spec_dec_message(bytes@.skip(pos as int)) matches Some((m, rem)) && v@ == m
                    && rem == bytes@.skip(p2 as int)
            },
            None => spec_dec_message(bytes@.skip(pos as int)) is None,
        },
{
    match read_str(bytes, pos) {
        None => None,
        Some((to, p1)) => match read_str(bytes, p1) {
            None => None,
            Some((from, p2)) => match read_str(bytes, p2) {
                None => None,
                Some((text, p3)) => match read_opt_str(bytes, p3) {
                    None => None,
                    Some((signing_key, p4)) => Some((Message { to, from, text, signing_key }, p4)),
                },
            },
        },
    }
}

fn read_block(bytes: &Vec<u8>, pos: usize) -> (r: Option<(Block, usize)>)
    requires
        pos <= bytes@.len(),
    ensures
        match r {
            Some((v, p2)) => {
                &&& pos <= p2 <= bytes@.len()
                &&& spec_dec_block(bytes@.skip(pos as int)) matches Some((bv, rem)) && v@ == bv
                    && rem == bytes@.skip(p2 as int)
            },
            None => spec_dec_block(bytes@.skip(pos as int)) is None,
        },
{
    match read_u32(bytes, pos) {
        None => None,
        Some((node_id, p1)) => match read_opt_str(bytes, p1) {
            None => None,
            Some((previous_hash, p2)) => match read_str(bytes, p2) {
                None => None,
                Some((hash, p3)) => match read_message(bytes, p3) {
                    None => None,
                    Some((data, p4)) => match read_str(bytes, p4) {
                        None => None,
                        Some((author_public_key, p5)) => match read_u32(bytes, p5) {
                            None => None,
                            Some((seed, p6)) => Some(
                                (
                                    Block {
                                        node_id,
                                        previous_hash,
                                        hash,
                                        data,
                                        author_public_key,
                                        seed,
                                    },
                                    p6,
                                ),
                            ),
                        },
                    },
                },
            },
        },
    }
}

/// Decodes one block, requiring the bytes to hold exactly one encoding.
pub fn decode_block(bytes: &Vec<u8>) -> (r: Option<Block>)
    ensures
        match r {
            Some(b) => spec_dec_block(bytes@) matches Some((bv, rem)) && b@ == bv
                && rem.len() == 0,
            None => !(spec_dec_block(bytes@) matches Some((bv, rem)) && rem.len() == 0),
        },
{
    proof {
        assert(bytes@.skip(0) =~= bytes@);
    }
    match read_block(bytes, 0) {
        None => None,
        Some((b, p)) => {
            if p == bytes.len() {
                proof {
                    assert(bytes@.skip(bytes@.len() as int) =~= Seq::<u8>::empty());
                }
                Some(b)
            } else {
                proof {
                    assert(bytes@.skip(p as int).len() == bytes@.len() - p);
                }
                None
            }
        },
    }
}

/// Decodes a checkpoint snapshot back into its blocks.
pub fn decode_chain(bytes: &Vec<u8>) -> (r: Option<Vec<Block>>)
    ensures
        match r {
            Some(v) => spec_dec_chain(bytes@) == Some(v@.map_values(|b: Block| b@)),
            None => spec_dec_chain(bytes@) is None,
        },
{
    proof {
        assert(bytes@.skip(0) =~= bytes@);
    }
    let (version, p0) = match read_u8(bytes, 0) {
        None => {
            return None;
        },
        Some(x) => x,
    };
    if version != FORMAT_VERSION {
        return None;
    }
    let (n, p1) = match read_u64(bytes, p0) {
        None => {
            return None;
        },
        Some(x) => x,
    };
    if n > usize::MAX as u64 {
        return None;
    }
    let count = n as usize;
    let mut acc: Vec<Block> = Vec::new();
    let mut p = p1;
    let mut i: usize = 0;
    loop
        invariant
            p1 <= p <= bytes@.len(),
            i <= count,
            acc@.len() == i,
            spec_dec_chain(bytes@) == (match spec_dec_blocks(
                bytes@.skip(p as int),
                (count - i) as nat,
            ) {
                Some((bs, rem)) => if rem.len() == 0 {
                    Some(acc@.map_values(|b: Block| b@) + bs)
                } else {
                    None::<Seq<BlockView>>
                },
                None => None::<Seq<BlockView>>,
            }),
        decreases count - i,
    {
        if i == count {
            if p == bytes.len() {
                proof {
                    assert(bytes@.skip(p as int).len() == 0);
                    assert(acc@.map_values(|b: Block| b@) + Seq::<BlockView>::empty()
                        =~= acc@.map_values(|b: Block| b@));
                }
                return Some(acc);
            } else {
                proof {
                    assert(bytes@.skip(p as int).len() == bytes@.len() - p);
                }
                return None;
            }
        }
        match read_block(bytes, p) {
            None => {
                return None;
            },
            Some((b, p2)) => {
                let ghost prev_acc = acc@;
                acc.push(b);
                proof {
                    let tail = spec_dec_blocks(bytes@.skip(p2 as int), (count - i - 1) as nat);
                    assert(acc@.map_values(|bb: Block| bb@) =~= prev_acc.map_values(
                        |bb: Block| bb@,
                    ).push(b@));
                    match tail {
                        Some((bs2, rem2)) => {
                            assert(prev_acc.map_values(|bb: Block| bb@) + (seq![b@] + bs2)
                                =~= acc@.map_values(|bb: Block| bb@) + bs2);
                        },
                        None => {},
                    }
                }
                p = p2;
                i = i + 1;
            },
        }
    }
}

} // verus!
