//! Character classes used by the lexer.
use vstd::prelude::*;
use chumsky::text::Char;

verus! {

/// Whether `c` is whitespace in chumsky's sense: a character with the
/// Unicode `White_Space` property (tab to carriage return, space, next line,
/// no-break space, ogham space mark, the spaces from en quad to hair space,
/// line and paragraph separators, narrow no-break, medium mathematical and
/// ideographic spaces).  The bidirectional controls that chumsky also turns
/// away have no such property.
pub open spec fn whitespace_char(c: char) -> bool {
    ||| '\u{9}' <= c <= '\u{d}'
    ||| c == ' '
    ||| c == '\u{85}'
    ||| c == '\u{a0}'
    ||| c == '\u{1680}'
    ||| '\u{2000}' <= c <= '\u{200a}'
    ||| c == '\u{2028}'
    ||| c == '\u{2029}'
    ||| c == '\u{202f}'
    ||| c == '\u{205f}'
    ||| c == '\u{3000}'
}

/// Whether `c` is an ASCII letter.
pub open spec fn ascii_letter(c: char) -> bool {
    ('a' <= c <= 'z') || ('A' <= c <= 'Z')
}

/// What `unicode_ident::is_xid_start` (Unicode `XID_Start`) gives for a
/// character beyond ASCII: a fixed table of the character alone.
pub uninterp spec fn xid_start_beyond_ascii(c: char) -> bool;

/// What `unicode_ident::is_xid_continue` (Unicode `XID_Continue`) gives for a
/// character beyond ASCII: a fixed table of the character alone.
pub uninterp spec fn xid_continue_beyond_ascii(c: char) -> bool;

/// Whether `c` may start an identifier (Unicode `XID_Start`, or `_`): in
/// ASCII, a letter or `_`.
pub open spec fn ident_start_char(c: char) -> bool {
    if (c as u32) < 128 {
        ascii_letter(c) || c == '_'
    } else {
        xid_start_beyond_ascii(c)
    }
}

/// Whether `c` may continue an identifier (Unicode `XID_Continue`): in
/// ASCII, a letter, a digit or `_`.
pub open spec fn ident_continue_char(c: char) -> bool {
    if (c as u32) < 128 {
        ascii_letter(c) || ('0' <= c <= '9') || c == '_'
    } else {
        xid_continue_beyond_ascii(c)
    }
}

/// Whether `c` is whitespace as `chumsky::text::Char::is_whitespace` has it
/// for `char`: a character that `whitespace_char` lists.
pub(crate) fn is_whitespace(c: char) -> (r: bool)
    ensures
        r == whitespace_char(c),
{
    ('\u{9}' <= c && c <= '\u{d}') || c == ' ' || c == '\u{85}' || c == '\u{a0}' || c == '\u{1680}' || (
    '\u{2000}' <= c && c <= '\u{200a}') || c == '\u{2028}' || c == '\u{2029}' || c == '\u{202f}' || c
        == '\u{205f}' || c == '\u{3000}'
}

/// Calls `chumsky::text::Char::is_ident_start` for `char`, which is
/// `unicode_ident::is_xid_start` or `_`: within ASCII, unicode-ident's table
/// holds exactly the letters; beyond it the result is named
/// `xid_start_beyond_ascii(c)`.
#[verifier::external_body]
pub(crate) fn is_ident_start(c: char) -> (r: bool)
    ensures
        r == ident_start_char(c),
        (c as u32) >= 128 ==> r == xid_start_beyond_ascii(c),
{
    Char::is_ident_start(&c)
}

/// Calls `chumsky::text::Char::is_ident_continue` for `char`, which is
/// `unicode_ident::is_xid_continue`: within ASCII, unicode-ident's table holds
/// exactly the letters, the digits and `_`; beyond it the result is named
/// `xid_continue_beyond_ascii(c)`.
#[verifier::external_body]
pub(crate) fn is_ident_continue(c: char) -> (r: bool)
    ensures
        r == ident_continue_char(c),
        (c as u32) >= 128 ==> r == xid_continue_beyond_ascii(c),
{
    Char::is_ident_continue(&c)
}

/// Calls `FromIterator<char>` for `String` on `s[i..j]`: a string holding
/// exactly those characters.
#[verifier::external_body]
pub(crate) fn string_of_chars(s: &Vec<char>, i: usize, j: usize) -> (r: String)
    requires
        i <= j <= s@.len(),
    ensures
        r@ == s@.subrange(i as int, j as int),
{
    String::from_iter(s[i..j].iter())
}

/// `'0'` to `'9'`.
pub open spec fn decimal_digit(c: char) -> bool {
    '0' <= c <= '9'
}

/// The value of `c` as a digit of radix up to 36: `0`-`9`, then `a`-`z`
/// (either case) for 10 to 35; 36 for any other character.
pub open spec fn digit_value(c: char) -> nat {
    if '0' <= c <= '9' {
        (c as int - '0' as int) as nat
    } else if 'a' <= c <= 'z' {
        (c as int - 'a' as int + 10) as nat
    } else if 'A' <= c <= 'Z' {
        (c as int - 'A' as int + 10) as nat
    } else {
        36
    }
}

/// Whether `c` is a digit in `radix` (as `char::is_digit`).
pub open spec fn digit_in_radix(c: char, radix: nat) -> bool {
    digit_value(c) < radix
}

/// The value of `c` as a digit (36 when it is none).
pub fn digit_of(c: char) -> (r: u32)
    ensures
        r == digit_value(c),
{
    if '0' <= c && c <= '9' {
        (c as u32) - ('0' as u32)
    } else if 'a' <= c && c <= 'z' {
        (c as u32) - ('a' as u32) + 10
    } else if 'A' <= c && c <= 'Z' {
        (c as u32) - ('A' as u32) + 10
    } else {
        36
    }
}

/// Whether `c` is `'0'` to `'9'`.
pub fn is_decimal_digit(c: char) -> (r: bool)
    ensures
        r == decimal_digit(c),
{
    '0' <= c && c <= '9'
}

} // verus!
