use vstd::arithmetic::div_mod::{lemma_div_decreases, lemma_fundamental_div_mod, lemma_mod_multiples_vanish, lemma_small_mod};
use crate::parse::push_char;
use vstd::prelude::*;
use vstd::string::StrSliceExecFns;

verus! {

/// The character written between digit groups.
pub const SEPARATOR: char = '\'';

/// Whether a separator goes in front of the character at `idx` of a text of
/// `len` characters grouped by `every_n` from the right: at each group
/// boundary, never at the front and never right before the last character.
pub open spec fn separator_before(idx: int, len: int, every_n: int) -> bool {
    &&& idx >= 1
    &&& (len - idx) % every_n == 0
    &&& idx != len - 1
}

/// The first `k` characters of `s`, each preceded by a separator where
/// `separator_before` puts one.
pub open spec fn grouped_prefix(s: Seq<char>, every_n: int, k: int) -> Seq<char>
    decreases k,
{
    if k <= 0 {
        Seq::empty()
    } else {
        let front = grouped_prefix(s, every_n, k - 1);
        if separator_before(k - 1, s.len() as int, every_n) {
            front.push(SEPARATOR).push(s[k - 1])
        } else {
            front.push(s[k - 1])
        }
    }
}

/// `s` split into groups of `every_n` characters counted from the right.
pub open spec fn grouped(s: Seq<char>, every_n: int) -> Seq<char> {
    grouped_prefix(s, every_n, s.len() as int)
}

proof fn lemma_mod_pred(a: int, n: int)
    requires
        n > 0,
    ensures
        (a - 1) % n == if a % n == 0 { n - 1 } else { a % n - 1 },
{
    lemma_fundamental_div_mod(a, n);
    let q = a / n;
    let r = a % n;
    if r == 0 {
        lemma_mod_multiples_vanish(q - 1, n - 1, n);
        lemma_small_mod((n - 1) as nat, n as nat);
        assert(n * (q - 1) + (n - 1) == a - 1) by (nonlinear_arith)
            requires a == n * q + r, r == 0;
    } else {
        lemma_mod_multiples_vanish(q, r - 1, n);
        lemma_small_mod((r - 1) as nat, n as nat);
    }
}

/// Writes `s` with a separator between groups of `every_n` characters,
/// the groups counted from the right end (`"01234"` by 2 is `"0'12'34"`).
pub fn pretty_num_sep(s: &str, every_n: usize) -> (out: String)
    requires
        every_n > 0,
    ensures
        out@ == grouped(s@, every_n as int),
{
    let mut out = String::new();
    let len = s.unicode_len();
    let ghost n = every_n as int;

    let mut sep_counter = len % every_n;

    // a counter of zero here would put a separator at the start
    if sep_counter == 0 {
        sep_counter = every_n;
    }
    let mut idx: usize = 0;
    proof {
        lemma_mod_pred(len as int, n);
    }
    while idx < len
        invariant
            len == s@.len(),
            every_n > 0,
            n == every_n,
            0 <= idx <= len,
            out@ == grouped_prefix(s@, n, idx as int),
            idx == 0 ==> sep_counter == (len - 1) % n + 1,
            1 <= idx < len ==> sep_counter == (len - idx) % n,
        decreases len - idx,
    {
        let char_ = s.get_char(idx);
        if sep_counter == 0 && idx != len - 1 {
            push_char(&mut out, SEPARATOR);
            sep_counter = every_n;
        }
        push_char(&mut out, char_);
        sep_counter = sep_counter.saturating_sub(1);
        proof {
            lemma_mod_pred(len - idx, n);
        }
        idx += 1;
    }
    out
}


/// The character for the digit `d` (below 16): `0`-`9`, then `A`-`F`.
pub open spec fn digit_char(d: nat) -> char {
    if d < 10 {
        ((48 + d) as u8) as char
    } else {
        ((55 + d) as u8) as char
    }
}

/// The digits of `n` in base `radix` (2 to 16), most significant first,
/// with no leading zeros but a single `0` for zero.
pub open spec fn radix_digits(n: nat, radix: nat) -> Seq<char>
    decreases n,
{
    if n < radix || radix < 2 {
        seq![digit_char(n)]
    } else {
        proof {
            lemma_div_decreases(n as int, radix as int);
        }
        radix_digits(n / radix, radix).push(digit_char(n % radix))
    }
}

/// `s` with zeros put in front until it is at least `min_len` long.
pub open spec fn pad_zeros(s: Seq<char>, min_len: nat) -> Seq<char> {
    if s.len() >= min_len {
        s
    } else {
        Seq::new((min_len - s.len()) as nat, |i: int| '0') + s
    }
}

/// Relies on `format!("{:0w$b}")`: the binary digits of `n`, zero-padded on
/// the left to at least `w` characters.
#[verifier::external_body]
fn padded_binary(n: u64, w: usize) -> (r: String)
    ensures
        r@ == pad_zeros(radix_digits(n as nat, 2), w as nat),
{
    format!("{n:0w$b}")
}

/// Relies on `format!("{:0w$X}")`: the upper-case hexadecimal digits of `n`,
/// zero-padded on the left to at least `w` characters.
#[verifier::external_body]
fn padded_hex(n: u64, w: usize) -> (r: String)
    ensures
        r@ == pad_zeros(radix_digits(n as nat, 16), w as nat),
{
    format!("{n:0w$X}")
}

/// Relies on `format!("{:0w$}")`: the decimal digits of `n`, zero-padded on
/// the left to at least `w` characters.
#[verifier::external_body]
fn padded_decimal(n: u64, w: usize) -> (r: String)
    ensures
        r@ == pad_zeros(radix_digits(n as nat, 10), w as nat),
{
    format!("{n:0w$}")
}

/// Writes `prefix` followed by `body` into a new string.
fn concat(prefix: &str, body: &str) -> (r: String)
    ensures
        r@ == prefix@ + body@,
{
    let mut out = prefix.to_owned();
    let len = body.unicode_len();
    let mut i: usize = 0;
    while i < len
        invariant
            len == body@.len(),
            0 <= i <= len,
            out@ == prefix@ + body@.subrange(0, i as int),
        decreases len - i,
    {
        push_char(&mut out, body.get_char(i));
        proof {
            assert(body@.subrange(0, i + 1) =~= body@.subrange(0, i as int).push(body@[i as int]));
        }
        i += 1;
    }
    proof {
        assert(body@.subrange(0, len as int) =~= body@);
    }
    out
}

/// `n` in binary, padded to `width` digits, in groups of four after `0b`.
pub fn pretty_bin(n: u64, width: u8) -> (r: String)
    ensures
        r@ == seq!['0', 'b'] + grouped(pad_zeros(radix_digits(n as nat, 2), width as nat), 4),
{
    let bin = padded_binary(n, width as usize);
    let body = pretty_num_sep(bin.as_str(), 4);
    proof {
        reveal_strlit("0b");
    }
    concat("0b", body.as_str())
}

/// `n` in upper-case hexadecimal, padded to `width / 4` digits, in groups of
/// four after `0x`.
pub fn pretty_hex(n: u64, width: u8) -> (r: String)
    ensures
        r@ == seq!['0', 'x'] + grouped(pad_zeros(radix_digits(n as nat, 16), (width / 4) as nat), 4),
{
    let hex = padded_hex(n, (width / 4) as usize);
    let body = pretty_num_sep(hex.as_str(), 4);
    proof {
        reveal_strlit("0x");
    }
    concat("0x", body.as_str())
}

/// `n` in decimal, padded to `width / 3` digits, in groups of three.
pub fn pretty_dec(n: u64, width: u8) -> (r: String)
    ensures
        r@ == grouped(pad_zeros(radix_digits(n as nat, 10), (width / 3) as nat), 3),
{
    let dec = padded_decimal(n, (width / 3) as usize);
    pretty_num_sep(dec.as_str(), 3)
}

/// The magnitude of `n`, which fits in `u64` also for `i64::MIN`.
pub open spec fn magnitude(n: i64) -> nat {
    if n >= 0 {
        n as nat
    } else {
        (-n) as nat
    }
}

/// `n` in decimal with a leading `-` when negative, its digits padded to
/// `width / 3` and in groups of three.
pub fn pretty_dec_signed(n: i64, width: u8) -> (r: String)
    ensures
        r@ == (if n < 0 { seq!['-'] } else { Seq::empty() }) + grouped(
            pad_zeros(radix_digits(magnitude(n), 10), (width / 3) as nat),
            3,
        ),
{
    if n >= 0 {
        let dec_uns = padded_decimal(n as u64, (width / 3) as usize);
        let r = pretty_num_sep(dec_uns.as_str(), 3);
        assert(r@ =~= Seq::<char>::empty() + r@);
        r
    } else {
        let n_abs: u64 = (0i128 - n as i128) as u64;
        let dec_uns = padded_decimal(n_abs, (width / 3) as usize);
        let body = pretty_num_sep(dec_uns.as_str(), 3);
        proof {
            reveal_strlit("-");
        }
        concat("-", body.as_str())
    }
}

} // verus!
