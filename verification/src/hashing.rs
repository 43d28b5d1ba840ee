//! Hashing support: the SHA-256 digest of a string, uppercase hex encoding
//! of bytes, and decimal rendering of integers. Together these turn a
//! block's fields into its 64-character hex digest.

use vstd::prelude::*;

verus! {

/// The SHA-256 digest of the UTF-8 encoding of a character sequence.
/// The digest depends on the characters alone.
pub uninterp spec fn sha256_of(s: Seq<char>) -> Seq<u8>;

/// Relies on sha2::Sha256 through sha2::Digest::digest: the result is the
/// 32-byte SHA-256 digest of the input bytes, a function of those bytes
/// (hence of the string's characters) alone.
#[verifier::external_body]
pub(crate) fn sha256_str(s: &str) -> (r: Vec<u8>)
    ensures
        r@ == sha256_of(s@),
        r@.len() == 32,
{
    <sha2::Sha256 as sha2::Digest>::digest(s.as_bytes()).to_vec()
}

/// The uppercase hex character for a value below 16.
pub open spec fn hex_digit(d: nat) -> char {
    if d == 0 {
        '0'
    } else if d == 1 {
        '1'
    } else if d == 2 {
        '2'
    } else if d == 3 {
        '3'
    } else if d == 4 {
        '4'
    } else if d == 5 {
        '5'
    } else if d == 6 {
        '6'
    } else if d == 7 {
        '7'
    } else if d == 8 {
        '8'
    } else if d == 9 {
        '9'
    } else if d == 10 {
        'A'
    } else if d == 11 {
        'B'
    } else if d == 12 {
        'C'
    } else if d == 13 {
        'D'
    } else if d == 14 {
        'E'
    } else {
        'F'
    }
}

/// Uppercase hex encoding of a byte sequence: two characters per byte,
/// high nibble first.
pub open spec fn hex_upper_of(bytes: Seq<u8>) -> Seq<char>
    decreases bytes.len(),
{
    if bytes.len() == 0 {
        Seq::empty()
    } else {
        seq![
            hex_digit((bytes[0] / 16) as nat),
            hex_digit((bytes[0] % 16) as nat),
        ] + hex_upper_of(bytes.drop_first())
    }
}

pub proof fn lemma_hex_upper_len(bytes: Seq<u8>)
    ensures
        hex_upper_of(bytes).len() == 2 * bytes.len(),
    decreases bytes.len(),
{
    if bytes.len() > 0 {
        lemma_hex_upper_len(bytes.drop_first());
    }
}

proof fn lemma_hex_upper_push(bytes: Seq<u8>, b: u8)
    ensures
        hex_upper_of(bytes.push(b)) == hex_upper_of(bytes) + seq![
            hex_digit((b / 16) as nat),
            hex_digit((b % 16) as nat),
        ],
    decreases bytes.len(),
{
    if bytes.len() == 0 {
        let p = bytes.push(b);
        assert(p[0] == b);
        assert(p.drop_first() =~= Seq::<u8>::empty());
        lemma_hex_upper_len(p.drop_first());
        assert(hex_upper_of(p.drop_first()) =~= Seq::<char>::empty());
        assert(hex_upper_of(p) =~= hex_upper_of(bytes) + seq![
            hex_digit((b / 16) as nat),
            hex_digit((b % 16) as nat),
        ]);
    } else {
        assert(bytes.push(b)[0] == bytes[0]);
        assert(bytes.push(b).drop_first() =~= bytes.drop_first().push(b));
        lemma_hex_upper_push(bytes.drop_first(), b);
        assert(hex_upper_of(bytes.push(b)) =~= hex_upper_of(bytes) + seq![
            hex_digit((b / 16) as nat),
            hex_digit((b % 16) as nat),
        ]);
    }
}

/// Relies on String::push: appends exactly one character.
#[verifier::external_body]
pub(crate) fn push_char(s: &mut String, c: char)
    ensures
        final(s)@ == old(s)@ + seq![c],
{
    s.push(c)
}

fn hex_digit_char(d: u8) -> (c: char)
    requires
        d < 16,
    ensures
        c == hex_digit(d as nat),
{
    match d {
        0 => '0',
        1 => '1',
        2 => '2',
        3 => '3',
        4 => '4',
        5 => '5',
        6 => '6',
        7 => '7',
        8 => '8',
        9 => '9',
        10 => 'A',
        11 => 'B',
        12 => 'C',
        13 => 'D',
        14 => 'E',
        _ => 'F',
    }
}

/// Renders a byte sequence as an uppercase hex string.
pub fn to_upper_hex(bytes: &Vec<u8>) -> (r: String)
    ensures
        r@ == hex_upper_of(bytes@),
{
    let mut r = String::new();
    let mut i: usize = 0;
    while i < bytes.len()
        invariant
            i <= bytes.len(),
            r@ == hex_upper_of(bytes@.take(i as int)),
        decreases bytes.len() - i,
    {
        let b = bytes[i];
        push_char(&mut r, hex_digit_char(b / 16));
        push_char(&mut r, hex_digit_char(b % 16));
        proof {
            assert(bytes@.take(i + 1 as int) =~= bytes@.take(i as int).push(bytes@[i as int]));
            lemma_hex_upper_push(bytes@.take(i as int), bytes@[i as int]);
        }
        i = i + 1;
    }
    proof {
        assert(bytes@.take(bytes@.len() as int) =~= bytes@);
    }
    r
}

/// The decimal rendering of a natural number, most significant digit first.
pub open spec fn dec_str_of(n: nat) -> Seq<char>
    decreases n,
{
    if n < 10 {
        seq![hex_digit(n)]
    } else {
        dec_str_of(n / 10) + seq![hex_digit(n % 10)]
    }
}

/// Appends the decimal rendering of `n` to `s`.
pub fn push_decimal(s: &mut String, n: u32)
    ensures
        final(s)@ == old(s)@ + dec_str_of(n as nat),
    decreases n,
{
    if n < 10 {
        push_char(s, hex_digit_char(n as u8));
    } else {
        push_decimal(s, n / 10);
        push_char(s, hex_digit_char((n % 10) as u8));
    }
}

} // verus!
