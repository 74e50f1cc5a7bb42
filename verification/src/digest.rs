//! The hashing primitive and its text encodings.
//!
//! Every digest in the ledger is produced the same way: a canonical text is
//! hashed with SHA-256 and the 32 result bytes are rendered as 64 lowercase
//! hexadecimal characters. This module holds the one trusted call into the
//! hash function, the verified hex rendering, and the decimal rendering used
//! by the canonical encodings.

use vstd::prelude::*;
use vstd::string::StringExecFns;
use sha2::Digest;

verus! {

/// The SHA-256 digest of the UTF-8 encoding of a character sequence.
/// The hash value itself is left unspecified: it is a pure function of its
/// input, which is all the ledger's reasoning needs.
pub uninterp spec fn sha256_of(text: Seq<char>) -> Seq<u8>;

/// Relies on sha2's `Sha256::digest`: the result is a pure function of the
/// input bytes (and hence of the characters hashed), and is always exactly
/// 32 bytes long.
#[verifier::external_body]
pub(crate) fn sha256_bytes(text: &str) -> (r: Vec<u8>)
    ensures
        r@ == sha256_of(text@),
        r@.len() == 32,
{
    sha2::Sha256::digest(text.as_bytes()).to_vec()
}

/// The lowercase hexadecimal character for a value below sixteen.
pub open spec fn spec_hex_char(n: nat) -> char {
    if n == 0 { '0' } else if n == 1 { '1' } else if n == 2 { '2' }
    else if n == 3 { '3' } else if n == 4 { '4' } else if n == 5 { '5' }
    else if n == 6 { '6' } else if n == 7 { '7' } else if n == 8 { '8' }
    else if n == 9 { '9' } else if n == 10 { 'a' } else if n == 11 { 'b' }
    else if n == 12 { 'c' } else if n == 13 { 'd' } else if n == 14 { 'e' }
    else { 'f' }
}

/// Lowercase hexadecimal rendering of a byte sequence: two characters per
/// byte, high nibble first, concatenated in byte order.
pub open spec fn hex_of(b: Seq<u8>) -> Seq<char>
    decreases b.len(),
{
    if b.len() == 0 {
        Seq::empty()
    } else {
        hex_of(b.drop_last()) + seq![
            spec_hex_char((b.last() / 16) as nat),
            spec_hex_char((b.last() % 16) as nat),
        ]
    }
}

pub proof fn lemma_hex_of_len(b: Seq<u8>)
    ensures
        hex_of(b).len() == 2 * b.len(),
    decreases b.len(),
{
    if b.len() > 0 {
        lemma_hex_of_len(b.drop_last());
    }
}

/// The ledger's single digest function: SHA-256 of a canonical text,
/// rendered as 64 lowercase hexadecimal characters.
pub open spec fn spec_hash(text: Seq<char>) -> Seq<char> {
    hex_of(sha256_of(text))
}

/// Appends the lowercase hexadecimal character for `n` to `s`.
pub(crate) fn push_hex_char(s: &mut String, n: u8)
    requires
        n < 16,
    ensures
        final(s)@ == old(s)@ + seq![spec_hex_char(n as nat)],
{
    if n == 0 {
        s.append("0");
        proof { reveal_strlit("0"); assert(s@ =~= old(s)@ + seq![spec_hex_char(n as nat)]); }
    } else if n == 1 {
        s.append("1");
        proof { reveal_strlit("1"); assert(s@ =~= old(s)@ + seq![spec_hex_char(n as nat)]); }
    } else if n == 2 {
        s.append("2");
        proof { reveal_strlit("2"); assert(s@ =~= old(s)@ + seq![spec_hex_char(n as nat)]); }
    } else if n == 3 {
        s.append("3");
        proof { reveal_strlit("3"); assert(s@ =~= old(s)@ + seq![spec_hex_char(n as nat)]); }
    } else if n == 4 {
        s.append("4");
        proof { reveal_strlit("4"); assert(s@ =~= old(s)@ + seq![spec_hex_char(n as nat)]); }
    } else if n == 5 {
        s.append("5");
        proof { reveal_strlit("5"); assert(s@ =~= old(s)@ + seq![spec_hex_char(n as nat)]); }
    } else if n == 6 {
        s.append("6");
        proof { reveal_strlit("6"); assert(s@ =~= old(s)@ + seq![spec_hex_char(n as nat)]); }
    } else if n == 7 {
        s.append("7");
        proof { reveal_strlit("7"); assert(s@ =~= old(s)@ + seq![spec_hex_char(n as nat)]); }
    } else if n == 8 {
        s.append("8");
        proof { reveal_strlit("8"); assert(s@ =~= old(s)@ + seq![spec_hex_char(n as nat)]); }
    } else if n == 9 {
        s.append("9");
        proof { reveal_strlit("9"); assert(s@ =~= old(s)@ + seq![spec_hex_char(n as nat)]); }
    } else if n == 10 {
        s.append("a");
        proof { reveal_strlit("a"); assert(s@ =~= old(s)@ + seq![spec_hex_char(n as nat)]); }
    } else if n == 11 {
        s.append("b");
        proof { reveal_strlit("b"); assert(s@ =~= old(s)@ + seq![spec_hex_char(n as nat)]); }
    } else if n == 12 {
        s.append("c");
        proof { reveal_strlit("c"); assert(s@ =~= old(s)@ + seq![spec_hex_char(n as nat)]); }
    } else if n == 13 {
        s.append("d");
        proof { reveal_strlit("d"); assert(s@ =~= old(s)@ + seq![spec_hex_char(n as nat)]); }
    } else if n == 14 {
        s.append("e");
        proof { reveal_strlit("e"); assert(s@ =~= old(s)@ + seq![spec_hex_char(n as nat)]); }
    } else {
        s.append("f");
        proof { reveal_strlit("f"); assert(s@ =~= old(s)@ + seq![spec_hex_char(n as nat)]); }
    }
}

/// Decimal rendering of a natural number: most significant digit first, no
/// leading zeros except for the single digit of zero itself.
pub open spec fn dec_rep(n: nat) -> Seq<char>
    decreases n,
{
    if n < 10 {
        seq![spec_hex_char(n)]
    } else {
        dec_rep(n / 10) + seq![spec_hex_char(n % 10)]
    }
}

/// Appends the decimal rendering of `n` to `s`.
pub(crate) fn push_dec(s: &mut String, n: u64)
    ensures
        final(s)@ == old(s)@ + dec_rep(n as nat),
    decreases n,
{
    if n < 10 {
        push_hex_char(s, n as u8);
    } else {
        push_dec(s, n / 10);
        push_hex_char(s, (n % 10) as u8);
        proof {
            assert(s@ =~= old(s)@ + dec_rep(n as nat));
        }
    }
}

/// Whether `c` is a decimal digit.
pub open spec fn is_dec_digit(c: char) -> bool {
    c == '0' || c == '1' || c == '2' || c == '3' || c == '4' || c == '5' || c == '6' || c == '7'
        || c == '8' || c == '9'
}

/// The numeric value of a decimal digit.
pub open spec fn dec_digit_val(c: char) -> nat {
    if c == '0' { 0 } else if c == '1' { 1 } else if c == '2' { 2 } else if c == '3' { 3 }
    else if c == '4' { 4 } else if c == '5' { 5 } else if c == '6' { 6 } else if c == '7' { 7 }
    else if c == '8' { 8 } else { 9 }
}

/// The value of a string of decimal digits, most significant first.
pub open spec fn dec_val(s: Seq<char>) -> nat
    decreases s.len(),
{
    if s.len() == 0 {
        0
    } else {
        dec_val(s.drop_last()) * 10 + dec_digit_val(s.last())
    }
}

/// Parsing a text as an unsigned decimal integer: it succeeds exactly when
/// the text is non-empty and all of its characters are decimal digits.
pub open spec fn parse_dec(s: Seq<char>) -> Option<nat> {
    if s.len() > 0 && (forall|i: int| 0 <= i < s.len() ==> is_dec_digit(#[trigger] s[i])) {
        Some(dec_val(s))
    } else {
        None
    }
}

/// A digit string's value is zero exactly when every digit is the zero digit.
pub proof fn lemma_dec_val_zero(s: Seq<char>)
    requires
        forall|i: int| 0 <= i < s.len() ==> is_dec_digit(#[trigger] s[i]),
    ensures
        (dec_val(s) == 0) <==> (forall|i: int| 0 <= i < s.len() ==> #[trigger] s[i] == '0'),
    decreases s.len(),
{
    if s.len() > 0 {
        lemma_dec_val_zero(s.drop_last());
        assert(s.last() == s[s.len() - 1]);
        if dec_val(s) == 0 {
            assert(dec_val(s.drop_last()) == 0);
            assert(forall|i: int| 0 <= i < s.len() - 1 ==> #[trigger] s[i] == s.drop_last()[i]);
        } else {
            if forall|i: int| 0 <= i < s.len() ==> #[trigger] s[i] == '0' {
                assert(forall|i: int| 0 <= i < s.drop_last().len()
                    ==> #[trigger] s.drop_last()[i] == '0');
                assert(dec_val(s.drop_last()) == 0);
                assert(dec_digit_val(s.last()) == 0);
            }
        }
    }
}

/// A digit string's value is at least the value of any of its prefixes.
pub proof fn lemma_dec_val_prefix(s: Seq<char>, i: int)
    requires
        0 <= i <= s.len(),
    ensures
        dec_val(s) >= dec_val(s.subrange(0, i)),
    decreases s.len() - i,
{
    if i < s.len() {
        lemma_dec_val_prefix(s, i + 1);
        let p = s.subrange(0, i + 1);
        assert(p.drop_last() =~= s.subrange(0, i));
        assert(dec_val(p) == dec_val(s.subrange(0, i)) * 10 + dec_digit_val(p.last()));
    } else {
        assert(s.subrange(0, i) =~= s);
    }
}

/// Parses a text as an unsigned decimal integer, rejecting values that do
/// not fit the result type.
pub fn parse_decimal_u64(s: &str) -> (r: Option<u64>)
    ensures
        ({
            let p = parse_dec(s@);
            match r {
                Some(v) => p == Some(v as nat),
                None => p is None || p->Some_0 > u64::MAX,
            }
        }),
{
    let n = s.unicode_len();
    if n == 0 {
        return None;
    }
    let mut acc: u64 = 0;
    let mut i: usize = 0;
    while i < n
        invariant
            i <= n,
            n == s@.len(),
            forall|j: int| 0 <= j < i ==> is_dec_digit(#[trigger] s@[j]),
            acc as nat == dec_val(s@.subrange(0, i as int)),
        decreases n - i,
    {
        let c = s.get_char(i);
        let d: u64 = if c == '0' { 0 } else if c == '1' { 1 } else if c == '2' { 2 }
        else if c == '3' { 3 } else if c == '4' { 4 } else if c == '5' { 5 }
        else if c == '6' { 6 } else if c == '7' { 7 } else if c == '8' { 8 }
        else if c == '9' { 9 } else {
            return None;
        };
        if acc > (u64::MAX - d) / 10 {
            proof {
                if parse_dec(s@) is Some {
                    lemma_dec_val_prefix(s@, i + 1);
                    let p = s@.subrange(0, i + 1);
                    assert(p.drop_last() =~= s@.subrange(0, i as int));
                    assert(dec_val(p) == acc as nat * 10 + dec_digit_val(p.last()));
                }
            }
            return None;
        }
        acc = acc * 10 + d;
        i = i + 1;
        proof {
            let p = s@.subrange(0, i as int);
            assert(p.drop_last() =~= s@.subrange(0, i - 1));
            assert(acc as nat == dec_val(p));
        }
    }
    proof {
        assert(s@.subrange(0, n as int) =~= s@);
    }
    Some(acc)
}

/// All-zero character sequence of length `n`.
pub open spec fn zeros(n: nat) -> Seq<char> {
    Seq::new(n, |i| '0')
}

/// The 64-character all-zero sentinel digest.
pub fn zero_sentinel() -> (s: String)
    ensures
        s@ == zeros(64),
{
    let mut s = String::new();
    let mut i: usize = 0;
    while i < 64
        invariant
            i <= 64,
            s@ =~= zeros(i as nat),
        decreases 64 - i,
    {
        push_hex_char(&mut s, 0);
        i = i + 1;
        proof {
            assert(s@ =~= zeros(i as nat));
        }
    }
    proof {
        assert(s@ =~= zeros(64));
    }
    s
}

} // verus!
