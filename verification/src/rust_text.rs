use vstd::prelude::*;
use vstd::string::StringExecFns;

use crate::bpp1::byte_bit;

verus! {

/// Appends one character.
#[verifier::external_body]
pub(crate) fn push_char(s: &mut String, c: char)
    ensures
        final(s)@ == old(s)@.push(c),
{
    s.push(c)
}

/// Appends a string.
pub fn push_str(s: &mut String, t: &str)
    ensures
        final(s)@ == old(s)@ + t@,
{
    s.append(t)
}

/// The digit of value `d` (`0` to `15`) in base 16, lower case.
pub open spec fn digit_char(d: int) -> char {
    if d == 0 { '0' } else if d == 1 { '1' } else if d == 2 { '2' } else if d == 3 { '3' }
    else if d == 4 { '4' } else if d == 5 { '5' } else if d == 6 { '6' } else if d == 7 { '7' }
    else if d == 8 { '8' } else if d == 9 { '9' } else if d == 10 { 'a' } else if d == 11 { 'b' }
    else if d == 12 { 'c' } else if d == 13 { 'd' } else if d == 14 { 'e' } else { 'f' }
}

fn digit(d: u32) -> (c: char)
    requires
        d < 16,
    ensures
        c == digit_char(d as int),
{
    if d == 0 { '0' } else if d == 1 { '1' } else if d == 2 { '2' } else if d == 3 { '3' }
    else if d == 4 { '4' } else if d == 5 { '5' } else if d == 6 { '6' } else if d == 7 { '7' }
    else if d == 8 { '8' } else if d == 9 { '9' } else if d == 10 { 'a' } else if d == 11 { 'b' }
    else if d == 12 { 'c' } else if d == 13 { 'd' } else if d == 14 { 'e' } else { 'f' }
}

/// The digits of `n` in `base` (10 or 16), most significant first, without leading zeros.
pub open spec fn digits(n: nat, base: nat) -> Seq<char>
    decreases n,
{
    if base < 2 || n < base {
        seq![digit_char(n as int)]
    } else {
        proof {
            assert(n / base < n) by (nonlinear_arith)
                requires
                    base >= 2,
                    n >= base,
            ;
        }
        digits(n / base, base).push(digit_char((n % base) as int))
    }
}

/// Appends `n` in decimal.
pub fn push_decimal(s: &mut String, n: u64)
    ensures
        final(s)@ == old(s)@ + digits(n as nat, 10),
    decreases n,
{
    if n >= 10 {
        push_decimal(s, n / 10);
    }
    push_char(s, digit((n % 10) as u32));
}

/// `n` in decimal, with a leading `-` when negative.
pub open spec fn signed_decimal(n: int) -> Seq<char> {
    if n < 0 {
        seq!['-'] + digits((-n) as nat, 10)
    } else {
        digits(n as nat, 10)
    }
}

/// Appends `n` in decimal, with a leading `-` when negative.
pub fn push_signed(s: &mut String, n: i16)
    ensures
        final(s)@ == old(s)@ + signed_decimal(n as int),
{
    if n < 0 {
        push_char(s, '-');
        let ghost mid = s@;
        push_decimal(s, (-(n as i32)) as u64);
        assert(s@ == old(s)@ + (seq!['-'] + digits((-n) as nat, 10)));
    } else {
        push_decimal(s, n as u64);
    }
}

/// The eight bits of `b` as binary digits, most significant first.
pub open spec fn binary8(b: u8) -> Seq<char> {
    Seq::new(8, |j: int| if byte_bit(b, j as u8) { '1' } else { '0' })
}

/// Appends the eight bits of `b` as binary digits, most significant first.
pub fn push_binary8(s: &mut String, b: u8)
    ensures
        final(s)@ == old(s)@ + binary8(b),
{
    let ghost start = s@;
    let mut j: u8 = 0;
    while j < 8
        invariant
            start == old(s)@,
            j <= 8,
            s@ == start + binary8(b).take(j as int),
        decreases 8 - j,
    {
        let c = if (b >> (7 - j)) & 1u8 == 1u8 { '1' } else { '0' };
        proof {
            assert(binary8(b).take(j + 1) =~= binary8(b).take(j as int).push(c));
        }
        push_char(s, c);
        j = j + 1;
    }
    assert(binary8(b).take(8) =~= binary8(b));
}

/// How the ASCII character `c` is written inside a byte literal: `\0`, `\t`, `\r` and `\n`
/// by name, a backslash before the quote and the backslash, `\xNN` for the other control
/// characters, and the character itself otherwise.
pub open spec fn byte_escaped(c: char) -> Seq<char> {
    let v = c as u32;
    if c == '\0' {
        seq!['\\', '0']
    } else if c == '\t' {
        seq!['\\', 't']
    } else if c == '\r' {
        seq!['\\', 'r']
    } else if c == '\n' {
        seq!['\\', 'n']
    } else if c == '\'' || c == '\\' {
        seq!['\\', c]
    } else if v < 0x20 || v == 0x7f {
        seq!['\\', 'x', digit_char((v / 16) as int), digit_char((v % 16) as int)]
    } else {
        seq![c]
    }
}

/// Appends the ASCII character `c` escaped for a byte literal.
pub fn push_byte_escaped(s: &mut String, c: char)
    requires
        (c as u32) < 128,
    ensures
        final(s)@ == old(s)@ + byte_escaped(c),
{
    let v = c as u32;
    let ghost start = s@;
    if c == '\0' {
        push_char(s, '\\');
        push_char(s, '0');
    } else if c == '\t' {
        push_char(s, '\\');
        push_char(s, 't');
    } else if c == '\r' {
        push_char(s, '\\');
        push_char(s, 'r');
    } else if c == '\n' {
        push_char(s, '\\');
        push_char(s, 'n');
    } else if c == '\'' || c == '\\' {
        push_char(s, '\\');
        push_char(s, c);
    } else if v < 0x20 || v == 0x7f {
        push_char(s, '\\');
        push_char(s, 'x');
        push_char(s, digit(v / 16));
        push_char(s, digit(v % 16));
    } else {
        push_char(s, c);
    }
    assert(s@ =~= start + byte_escaped(c));
}

/// What `char::escape_debug` yields for `c`.
pub uninterp spec fn escape_debug(c: char) -> Seq<char>;

/// `char::escape_debug`: appends the characters that it yields for `c`. The contract claims
/// that they are a function of `c` alone (named `escape_debug`); what they are is left
/// to the standard library. The library calls it for characters past ASCII only.
#[verifier::external_body]
fn push_escape_debug(s: &mut String, c: char)
    ensures
        final(s)@ == old(s)@ + escape_debug(c),
{
    s.extend(c.escape_debug())
}

/// How the ASCII character `c` is written inside a literal delimited by `quote`, as debug
/// formatting writes it: `\0`, `\t`, `\r` and `\n` by name, a backslash before the
/// delimiting quote and the backslash, `\u{N}` (lower-case hex) for the other control
/// characters, and the character itself otherwise.
pub open spec fn ascii_escaped(c: char, quote: char) -> Seq<char> {
    let v = c as u32;
    if c == '\0' {
        seq!['\\', '0']
    } else if c == '\t' {
        seq!['\\', 't']
    } else if c == '\r' {
        seq!['\\', 'r']
    } else if c == '\n' {
        seq!['\\', 'n']
    } else if c == quote || c == '\\' {
        seq!['\\', c]
    } else if v < 0x20 || v == 0x7f {
        seq!['\\', 'u', '{'] + digits(v as nat, 16) + seq!['}']
    } else {
        seq![c]
    }
}

/// How `c` is written inside a literal delimited by `quote` (`'` or `"`), as debug
/// formatting writes it: ASCII as `ascii_escaped` says, every other character as
/// `char::escape_debug` gives it.
pub open spec fn escaped(c: char, quote: char) -> Seq<char> {
    if (c as u32) < 0x80 {
        ascii_escaped(c, quote)
    } else {
        escape_debug(c)
    }
}

/// Appends `c` escaped for a literal delimited by `quote` (`'` or `"`).
pub fn push_escaped(s: &mut String, c: char, quote: char)
    ensures
        final(s)@ == old(s)@ + escaped(c, quote),
{
    let v = c as u32;
    if v >= 0x80 {
        push_escape_debug(s, c);
        return;
    }
    let ghost start = s@;
    if c == '\0' {
        push_char(s, '\\');
        push_char(s, '0');
    } else if c == '\t' {
        push_char(s, '\\');
        push_char(s, 't');
    } else if c == '\r' {
        push_char(s, '\\');
        push_char(s, 'r');
    } else if c == '\n' {
        push_char(s, '\\');
        push_char(s, 'n');
    } else if c == quote || c == '\\' {
        push_char(s, '\\');
        push_char(s, c);
    } else if v < 0x20 || v == 0x7f {
        push_char(s, '\\');
        push_char(s, 'u');
        push_char(s, '{');
        proof {
            reveal_with_fuel(digits, 2);
        }
        if v >= 16 {
            push_char(s, digit(v / 16));
        }
        push_char(s, digit(v % 16));
        push_char(s, '}');
    } else {
        push_char(s, c);
    }
    assert(s@ =~= start + escaped(c, quote));
}

/// A Rust character literal for `c`.
pub open spec fn char_literal(c: char) -> Seq<char> {
    seq!['\''] + escaped(c, '\'') + seq!['\'']
}

pub fn push_char_literal(s: &mut String, c: char)
    ensures
        final(s)@ == old(s)@ + char_literal(c),
{
    let ghost start = s@;
    push_char(s, '\'');
    push_escaped(s, c, '\'');
    push_char(s, '\'');
    assert(s@ =~= start + char_literal(c));
}

/// The escaped characters of `t`, one after another.
pub open spec fn escaped_all(t: Seq<char>, quote: char) -> Seq<char>
    decreases t.len(),
{
    if t.len() == 0 {
        Seq::empty()
    } else {
        escaped_all(t.drop_last(), quote) + escaped(t.last(), quote)
    }
}

/// A Rust string literal for `t`.
pub open spec fn string_literal(t: Seq<char>) -> Seq<char> {
    seq!['"'] + escaped_all(t, '"') + seq!['"']
}

pub fn push_string_literal(s: &mut String, t: &str)
    ensures
        final(s)@ == old(s)@ + string_literal(t@),
{
    let ghost start = s@;
    push_char(s, '"');
    proof {
        assert(t@.take(0) =~= Seq::<char>::empty());
    }
    for c in it: t.chars()
        invariant
            it.seq() == t@,
            0 <= it.index() <= t@.len(),
            s@ == start + seq!['"'] + escaped_all(t@.take(it.index()), '"'),
    {
        proof {
            assert(t@.take(it.index() + 1).drop_last() =~= t@.take(it.index()));
        }
        push_escaped(s, c, '"');
    }
    proof {
        assert(t@.take(t@.len() as int) =~= t@);
    }
    push_char(s, '"');
    assert(s@ =~= start + string_literal(t@));
}

/// `s` holds `t` as a run of consecutive characters.
pub open spec fn holds_text(s: Seq<char>, t: Seq<char>) -> bool {
    exists|i: int| 0 <= i && i + t.len() <= s.len() && #[trigger] s.subrange(i, i + t.len()) == t
}

/// Text that ends with `a`, `b` and `c` holds them.
pub proof fn lemma_holds_tail(p: Seq<char>, a: Seq<char>, b: Seq<char>, c: Seq<char>)
    ensures
        holds_text(p + a + b + c, a + b + c),
{
    let s = p + a + b + c;
    let t = a + b + c;
    assert(s.subrange(p.len() as int, (p.len() + t.len()) as int) =~= t);
}

/// Text that holds `t` still holds it with more text after it.
pub proof fn lemma_holds_append_any()
    ensures
        forall|s: Seq<char>, r: Seq<char>, t: Seq<char>| holds_text(s, t) ==> #[trigger] holds_text(s + r, t),
{
    assert forall|s: Seq<char>, r: Seq<char>, t: Seq<char>| holds_text(s, t) implies #[trigger] holds_text(s + r, t) by {
        let i = choose|i: int| 0 <= i && i + t.len() <= s.len() && #[trigger] s.subrange(i, i + t.len()) == t;
        assert((s + r).subrange(i, i + t.len()) =~= s.subrange(i, i + t.len()));
    }
}

/// Text that ends with `t` holds it.
pub proof fn lemma_holds_end(p: Seq<char>, t: Seq<char>)
    ensures
        holds_text(p + t, t),
{
    let s = p + t;
    assert(s.subrange(p.len() as int, (p.len() + t.len()) as int) =~= t);
}

/// Text that holds `t` still holds it with more text before it.
pub proof fn lemma_holds_prepend(p: Seq<char>, s: Seq<char>, t: Seq<char>)
    requires
        holds_text(s, t),
    ensures
        holds_text(p + s, t),
{
    let i = choose|i: int| 0 <= i && i + t.len() <= s.len() && #[trigger] s.subrange(i, i + t.len()) == t;
    let w = p + s;
    assert(w.subrange(p.len() + i, p.len() + i + t.len()) =~= s.subrange(i, i + t.len()));
}

} // verus!
