use crate::alu::AppError;
use crate::grouping::SEPARATOR;
use vstd::prelude::*;
use vstd::string::StrSliceExecFns;

verus! {

/// The value of `c` as a digit in base `radix`, if it is one: `0`-`9`, then
/// `a`-`z` or `A`-`Z` for ten and up.
pub open spec fn digit_of(c: char, radix: nat) -> Option<nat> {
    let d: int = if '0' <= c <= '9' {
        c as int - '0' as int
    } else if 'a' <= c <= 'z' {
        c as int - 'a' as int + 10
    } else if 'A' <= c <= 'Z' {
        c as int - 'A' as int + 10
    } else {
        radix as int
    };
    if d < radix {
        Some(d as nat)
    } else {
        None
    }
}

/// The number that the digits `s` spell in base `radix` (zero for no
/// digits), or `None` where one of them is no digit of that base.
pub open spec fn digits_value(s: Seq<char>, radix: nat) -> Option<nat>
    decreases s.len(),
{
    if s.len() == 0 {
        Some(0)
    } else {
        match (digits_value(s.drop_last(), radix), digit_of(s.last(), radix)) {
            (Some(v), Some(d)) => Some(v * radix + d),
            _ => None,
        }
    }
}

/// What reading `s` as a `u64` in base `radix` gives: an optional `+`, then
/// at least one digit, the whole no larger than `u64::MAX`.
pub open spec fn radix_value(s: Seq<char>, radix: nat) -> Option<u64> {
    let body = if s.len() > 0 && s[0] == '+' { s.drop_first() } else { s };
    if body.len() == 0 {
        None
    } else {
        match digits_value(body, radix) {
            Some(v) => if v <= u64::MAX { Some(v as u64) } else { None },
            None => None,
        }
    }
}

/// `s` with every separator taken out.
pub open spec fn without_separators(s: Seq<char>) -> Seq<char>
    decreases s.len(),
{
    if s.len() == 0 {
        s
    } else {
        let front = without_separators(s.drop_last());
        if s.last() == SEPARATOR {
            front
        } else {
            front.push(s.last())
        }
    }
}

/// `s` with the two-character prefix `a b` taken off its front for as long
/// as it is there.
pub open spec fn trim_prefix(s: Seq<char>, a: char, b: char) -> Seq<char>
    decreases s.len(),
{
    if s.len() >= 2 && s[0] == a && s[1] == b {
        trim_prefix(s.subrange(2, s.len() as int), a, b)
    } else {
        s
    }
}

/// The base that the prefix of `s` (separators already out) chooses:
/// `0x`/`0X` for 16, `0b`/`0B` for 2, else 10.
pub open spec fn base_of(s: Seq<char>) -> u32 {
    if s.len() >= 2 && s[0] == '0' && (s[1] == 'x' || s[1] == 'X') {
        16
    } else if s.len() >= 2 && s[0] == '0' && (s[1] == 'b' || s[1] == 'B') {
        2
    } else {
        10
    }
}

/// The digits that are read for `s` (separators already out): for base 16
/// and 2 the prefixes of that base trimmed off, lower case first.
pub open spec fn digits_of(s: Seq<char>) -> Seq<char> {
    let base = base_of(s);
    if base == 16 {
        trim_prefix(trim_prefix(s, '0', 'x'), '0', 'X')
    } else if base == 2 {
        trim_prefix(trim_prefix(s, '0', 'b'), '0', 'B')
    } else {
        s
    }
}

/// The value that `parse_input` reads from `input`, if any.
pub open spec fn parsed_value(input: Seq<char>) -> Option<u64> {
    let s = without_separators(input);
    radix_value(digits_of(s), base_of(s) as nat)
}

/// Relies on `u64::from_str_radix` (radix 2 to 36, where it does not panic):
/// it accepts an optional `+` and then one or more digits of the radix, in
/// either case, whose value fits in `u64`, and refuses anything else.
#[verifier::external_body]
fn read_radix(text: &str, radix: u32) -> (r: Option<u64>)
    requires
        2 <= radix <= 36,
    ensures
        r == radix_value(text@, radix as nat),
{
    u64::from_str_radix(text, radix).ok()
}

/// Relies on `String::push`: appends one character to the string.
#[verifier::external_body]
pub(crate) fn push_char(out: &mut String, c: char)
    ensures
        final(out)@ == old(out)@.push(c),
{
    out.push(c);
}

/// Copies `input` without its separators.
fn strip_separators(input: &str) -> (r: String)
    ensures
        r@ == without_separators(input@),
{
    let mut out = String::new();
    let len = input.unicode_len();
    let mut i: usize = 0;
    while i < len
        invariant
            len == input@.len(),
            0 <= i <= len,
            out@ == without_separators(input@.subrange(0, i as int)),
        decreases len - i,
    {
        let c = input.get_char(i);
        if c != SEPARATOR {
            push_char(&mut out, c);
        }
        proof {
            assert(input@.subrange(0, i + 1).drop_last() =~= input@.subrange(0, i as int));
        }
        i += 1;
    }
    proof {
        assert(input@.subrange(0, len as int) =~= input@);
    }
    out
}

/// Takes the prefix `a b` off the front of `s` for as long as it is there.
fn trim_prefix_exec<'a>(s: &'a str, a: char, b: char) -> (r: &'a str)
    ensures
        r@ == trim_prefix(s@, a, b),
{
    let mut t = s;
    let mut len = t.unicode_len();
    while len >= 2 && t.get_char(0) == a && t.get_char(1) == b
        invariant
            len == t@.len(),
            trim_prefix(t@, a, b) == trim_prefix(s@, a, b),
        decreases len,
    {
        t = t.substring_char(2, len);
        len = len - 2;
    }
    t
}

/// Reads operand text as a `u64`: separators are ignored, a `0x`/`0X` prefix
/// reads hexadecimal and `0b`/`0B` binary (repeated prefixes of that base are
/// trimmed), anything else decimal. Text that is no number in that base is
/// refused with the text and the base.
pub fn parse_input(input: &str) -> (r: Result<u64, AppError>)
    ensures
        (r is Ok) <==> (parsed_value(input@) is Some),
        (r matches Ok(v) ==> parsed_value(input@) == Some(v)),
        (r matches Err(e) ==> e matches AppError::Parsing { what, base } && what@ == input@ && base
            == base_of(without_separators(input@))),
{
    let without = strip_separators(input);
    let s = without.as_str();
    let len = s.unicode_len();
    let is_hex = len >= 2 && s.get_char(0) == '0' && (s.get_char(1) == 'x' || s.get_char(1) == 'X');
    let is_bin = len >= 2 && s.get_char(0) == '0' && (s.get_char(1) == 'b' || s.get_char(1) == 'B');
    let (digits, base) = if is_hex {
        (trim_prefix_exec(trim_prefix_exec(s, '0', 'x'), '0', 'X'), 16u32)
    } else if is_bin {
        (trim_prefix_exec(trim_prefix_exec(s, '0', 'b'), '0', 'B'), 2u32)
    } else {
        (s, 10u32)
    };
    match read_radix(digits, base) {
        Some(v) => Ok(v),
        None => Err(AppError::Parsing { what: input.to_owned(), base }),
    }
}

} // verus!
