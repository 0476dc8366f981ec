//! Canonical text building blocks shared by the content digest and the
//! snapshot codec: decimal numerals, lowercase hexadecimal, and string
//! escaping, each with an executable printer proved against its spec.
use vstd::prelude::*;

verus! {

pub open spec fn is_digit_char(c: char) -> bool {
    48 <= c as u32 <= 57
}

pub open spec fn digit_char(d: nat) -> char
    recommends
        d < 10,
{
    ((d + 48) as u8) as char
}

pub open spec fn digit_val(c: char) -> nat
    recommends
        is_digit_char(c),
{
    (c as u32 - 48) as nat
}

/// Decimal representation of a natural number, most significant digit first,
/// with no leading zeros (and `0` itself rendered as the single digit `0`).
pub open spec fn dec_nat(n: nat) -> Seq<char>
    decreases n,
{
    if n < 10 {
        seq![digit_char(n)]
    } else {
        dec_nat(n / 10) + seq![digit_char(n % 10)]
    }
}

pub open spec fn hex_digit(d: nat) -> char
    recommends
        d < 16,
{
    if d < 10 {
        digit_char(d)
    } else {
        ((d + 87) as u8) as char
    }
}

/// A byte as exactly two lowercase hexadecimal characters.
pub open spec fn hex_byte(b: u8) -> Seq<char> {
    seq![hex_digit((b >> 4) as nat), hex_digit((b & 15) as nat)]
}

/// A byte string as lowercase hexadecimal, two characters per byte.
pub open spec fn hex_bytes(bs: Seq<u8>) -> Seq<char>
    decreases bs.len(),
{
    if bs.len() == 0 {
        Seq::empty()
    } else {
        hex_byte(bs[0]) + hex_bytes(bs.drop_first())
    }
}

/// Escaping for quoted strings: `"` and `\` get a backslash in front,
/// every other character stands for itself.
pub open spec fn esc_char(c: char) -> Seq<char> {
    if c == '"' || c == '\\' {
        seq!['\\', c]
    } else {
        seq![c]
    }
}

pub open spec fn esc_seq(s: Seq<char>) -> Seq<char>
    decreases s.len(),
{
    if s.len() == 0 {
        Seq::empty()
    } else {
        esc_char(s[0]) + esc_seq(s.drop_first())
    }
}

pub proof fn lemma_hex_bytes_len(bs: Seq<u8>)
    ensures
        hex_bytes(bs).len() == 2 * bs.len(),
    decreases bs.len(),
{
    if bs.len() > 0 {
        lemma_hex_bytes_len(bs.drop_first());
    }
}

/// Appends the characters of `lit` to `out`, one by one.
pub fn push_lit(out: &mut Vec<char>, lit: &str)
    ensures
        final(out)@ == old(out)@ + lit@,
{
    let n = lit.unicode_len();
    let mut j: usize = 0;
    while j < n
        invariant
            n == lit@.len(),
            j <= n,
            out@ == old(out)@ + lit@.subrange(0, j as int),
        decreases n - j,
    {
        let c = lit.get_char(j);
        out.push(c);
        proof {
            assert(lit@.subrange(0, j + 1) =~= lit@.subrange(0, j as int) + seq![lit@[j as int]]);
        }
        j = j + 1;
    }
    proof {
        assert(lit@.subrange(0, n as int) =~= lit@);
    }
}

/// Appends the decimal representation of `n` to `out`.
pub fn push_u64(out: &mut Vec<char>, n: u64)
    ensures
        final(out)@ == old(out)@ + dec_nat(n as nat),
    decreases n,
{
    if n < 10 {
        let d: u8 = (n as u8) + 48;
        out.push(d as char);
    } else {
        push_u64(out, n / 10);
        let d: u8 = ((n % 10) as u8) + 48;
        out.push(d as char);
        proof {
            assert(out@ =~= old(out)@ + dec_nat(n as nat));
        }
    }
}

/// Appends the two hexadecimal characters of each byte of `bs`, from `i` on.
pub fn push_hex_from(out: &mut Vec<char>, bs: &Vec<u8>, i: usize)
    requires
        i <= bs@.len(),
    ensures
        final(out)@ == old(out)@ + hex_bytes(bs@.skip(i as int)),
    decreases bs@.len() - i,
{
    if i < bs.len() {
        let b = bs[i];
        let hi: u8 = b >> 4;
        let lo: u8 = b & 15;
        proof {
            assert(b >> 4 < 16 && b & 15 < 16) by (bit_vector);
        }
        let hc: char = if hi < 10 {
            (hi + 48) as char
        } else {
            (hi + 87) as char
        };
        let lc: char = if lo < 10 {
            (lo + 48) as char
        } else {
            (lo + 87) as char
        };
        out.push(hc);
        out.push(lc);
        push_hex_from(out, bs, i + 1);
        proof {
            assert(bs@.skip(i as int).drop_first() =~= bs@.skip(i + 1));
            assert(bs@.skip(i as int)[0] == bs@[i as int]);
            assert(hc == hex_digit((b >> 4) as nat) && lc == hex_digit((b & 15) as nat));
            assert(out@ =~= old(out)@ + hex_bytes(bs@.skip(i as int)));
        }
    } else {
        proof {
            assert(bs@.skip(i as int) =~= Seq::<u8>::empty());
            assert(out@ =~= old(out)@ + hex_bytes(bs@.skip(i as int)));
        }
    }
}

/// Appends the escaped form of the characters of `s`, from `i` on.
pub fn push_escaped_from(out: &mut Vec<char>, s: &str, i: usize, n: usize)
    requires
        i <= n,
        n == s@.len(),
    ensures
        final(out)@ == old(out)@ + esc_seq(s@.skip(i as int)),
    decreases n - i,
{
    if i < n {
        let c = s.get_char(i);
        if c == '"' || c == '\\' {
            out.push('\\');
        }
        out.push(c);
        push_escaped_from(out, s, i + 1, n);
        proof {
            assert(s@.skip(i as int).drop_first() =~= s@.skip(i + 1));
            assert(s@.skip(i as int)[0] == s@[i as int]);
            assert(out@ =~= old(out)@ + esc_seq(s@.skip(i as int)));
        }
    } else {
        proof {
            assert(s@.skip(i as int) =~= Seq::<char>::empty());
            assert(out@ =~= old(out)@ + esc_seq(s@.skip(i as int)));
        }
    }
}

/// Appends the escaped form of `s`, surrounded by nothing.
pub fn push_escaped(out: &mut Vec<char>, s: &str)
    ensures
        final(out)@ == old(out)@ + esc_seq(s@),
{
    let n = s.unicode_len();
    push_escaped_from(out, s, 0, n);
    proof {
        assert(s@.skip(0) =~= s@);
    }
}

/// The characters of `s`, one by one, as a vector.
pub fn string_to_chars(s: &str) -> (r: Vec<char>)
    ensures
        r@ == s@,
{
    let n = s.unicode_len();
    let mut r: Vec<char> = Vec::new();
    let mut i: usize = 0;
    while i < n
        invariant
            n == s@.len(),
            i <= n,
            r@ == s@.subrange(0, i as int),
        decreases n - i,
    {
        r.push(s.get_char(i));
        proof {
            assert(s@.subrange(0, i + 1) =~= s@.subrange(0, i as int) + seq![s@[i as int]]);
        }
        i = i + 1;
    }
    proof {
        assert(s@.subrange(0, n as int) =~= s@);
    }
    r
}

/// Builds an owned character string from a character vector.
///
/// Relies on `String: FromIterator<char>`: collecting an iterator of
/// characters yields the string of exactly those characters in order.
#[verifier::external_body]
pub(crate) fn chars_to_string(v: &Vec<char>) -> (r: String)
    ensures
        r@ == v@,
{
    v.iter().collect()
}

} // verus!
