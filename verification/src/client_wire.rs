//! The textual record format of the client socket.
//!
//! A client sends a stream of self-delimiting JSON-shaped text records, one
//! per request, in the canonical form this module's encoder produces: the
//! variant name tags an object holding the fields in declaration order,
//! compactly (no blanks inside a record); a bare `"PadReset"` string names
//! the reset request. Whitespace may separate records. String values carry
//! the usual two-character escapes, and `\u00` followed by two lowercase
//! hex digits for other control characters; other characters stand raw.
//!
//! Decoding consumes a prefix of the receive buffer and yields zero or more
//! records. A malformed record is skipped (scanning resumes at the next
//! character); a trailing incomplete record is left unconsumed so that the
//! session can complete it with the next read.

use vstd::prelude::*;

use crate::request::{HardwareRequest, HardwareResponse, ReqModel};
use vstd::string::StrSliceExecFns;

verus! {

/// The outcome of a parse attempt, at the specification level: a value and
/// the count of characters consumed, or the verdict that the input is a
/// proper prefix of something parseable, or that it is malformed.
#[verifier::ext_equal]
pub enum SpecParse<T> {
    Found(T, int),
    Incomplete,
    Bad,
}

/// The outcome of an executable parse attempt, mirroring `SpecParse`.
enum ParseOutcome<T> {
    Found(T, usize),
    Incomplete,
    Bad,
}

/// Blank characters accepted between records.
pub open spec fn is_ws(c: char) -> bool {
    c == ' ' || c == '\t' || c == '\n' || c == '\r'
}

/// Decimal digit characters.
pub open spec fn is_digit(c: char) -> bool {
    48 <= c as u32 <= 57
}

/// The value of a decimal digit character.
pub open spec fn digit_val(c: char) -> nat {
    (c as u32 - 48) as nat
}

/// The character of a decimal digit value below ten.
pub open spec fn dec_digit(v: nat) -> char {
    if v == 0 {
        '0'
    } else if v == 1 {
        '1'
    } else if v == 2 {
        '2'
    } else if v == 3 {
        '3'
    } else if v == 4 {
        '4'
    } else if v == 5 {
        '5'
    } else if v == 6 {
        '6'
    } else if v == 7 {
        '7'
    } else if v == 8 {
        '8'
    } else {
        '9'
    }
}

/// Lowercase hexadecimal digit characters.
pub open spec fn is_hex(c: char) -> bool {
    is_digit(c) || (97 <= c as u32 <= 102)
}

/// The value of a lowercase hexadecimal digit character.
pub open spec fn hex_val(c: char) -> nat {
    if is_digit(c) {
        digit_val(c)
    } else {
        (c as u32 - 87) as nat
    }
}

/// The character of a hexadecimal digit value below sixteen.
pub open spec fn hex_digit(v: nat) -> char {
    if v < 10 {
        dec_digit(v)
    } else if v == 10 {
        'a'
    } else if v == 11 {
        'b'
    } else if v == 12 {
        'c'
    } else if v == 13 {
        'd'
    } else if v == 14 {
        'e'
    } else {
        'f'
    }
}

/// Digit characters evaluate back to their values.
pub proof fn lemma_digit_chars(v: nat)
    requires
        v < 16,
    ensures
        is_hex(hex_digit(v)),
        hex_val(hex_digit(v)) == v,
        v < 10 ==> is_digit(dec_digit(v)) && digit_val(dec_digit(v)) == v,
        v >= 1 ==> hex_digit(v) != '0' && (v < 10 ==> dec_digit(v) != '0'),
{
}

/// The escape sequence a character takes inside an encoded string: the
/// quote and the backslash escape to themselves, the five control
/// characters with short escapes use them, every other control character
/// takes its `\u00` hexadecimal form, and all else stands raw.
pub open spec fn esc_char(c: char) -> Seq<char> {
    if c == '"' {
        seq!['\\', '"']
    } else if c == '\\' {
        seq!['\\', '\\']
    } else if c == '\u{8}' {
        seq!['\\', 'b']
    } else if c == '\t' {
        seq!['\\', 't']
    } else if c == '\n' {
        seq!['\\', 'n']
    } else if c == '\u{c}' {
        seq!['\\', 'f']
    } else if c == '\r' {
        seq!['\\', 'r']
    } else if (c as u32) < 32 {
        seq!['\\', 'u', '0', '0', hex_digit(((c as u32) / 16) as nat), hex_digit(
            ((c as u32) % 16) as nat,
        )]
    } else {
        seq![c]
    }
}

/// The escaped body of a string value.
pub open spec fn spec_escape(s: Seq<char>) -> Seq<char>
    decreases s.len(),
{
    if s.len() == 0 {
        Seq::empty()
    } else {
        esc_char(s[0]) + spec_escape(s.drop_first())
    }
}

/// The characters that may follow a backslash as a two-character escape.
pub open spec fn is_simple_escape(e: char) -> bool {
    e == '"' || e == '\\' || e == 'b' || e == 't' || e == 'n' || e == 'f' || e == 'r'
}

/// The character a two-character escape denotes.
pub open spec fn unescape_char(e: char) -> char {
    if e == '"' {
        '"'
    } else if e == '\\' {
        '\\'
    } else if e == 'b' {
        '\u{8}'
    } else if e == 't' {
        '\t'
    } else if e == 'n' {
        '\n'
    } else if e == 'f' {
        '\u{c}'
    } else {
        '\r'
    }
}

/// The character two hexadecimal digits denote in a `\u00` escape.
pub open spec fn hex2_char(h: char, l: char) -> char {
    (((hex_val(h) * 16 + hex_val(l)) as u8) as char)
}

/// Parse a string body up to and including its closing quote (the opening
/// quote already consumed), yielding the denoted characters.
pub open spec fn spec_parse_string_body(s: Seq<char>) -> SpecParse<Seq<char>>
    decreases s.len(),
{
    if s.len() == 0 {
        SpecParse::Incomplete
    } else if s[0] == '"' {
        SpecParse::Found(Seq::empty(), 1)
    } else if s[0] == '\\' {
        if s.len() == 1 {
            SpecParse::Incomplete
        } else if is_simple_escape(s[1]) {
            match spec_parse_string_body(s.skip(2)) {
                SpecParse::Found(t, n) => SpecParse::Found(seq![unescape_char(s[1])] + t, n + 2),
                SpecParse::Incomplete => SpecParse::Incomplete,
                SpecParse::Bad => SpecParse::Bad,
            }
        } else if s[1] == 'u' {
            if s.len() == 2 {
                SpecParse::Incomplete
            } else if s[2] != '0' {
                SpecParse::Bad
            } else if s.len() == 3 {
                SpecParse::Incomplete
            } else if s[3] != '0' {
                SpecParse::Bad
            } else if s.len() == 4 {
                SpecParse::Incomplete
            } else if !is_hex(s[4]) {
                SpecParse::Bad
            } else if s.len() == 5 {
                SpecParse::Incomplete
            } else if !is_hex(s[5]) {
                SpecParse::Bad
            } else {
                match spec_parse_string_body(s.skip(6)) {
                    SpecParse::Found(t, n) => SpecParse::Found(seq![hex2_char(s[4], s[5])] + t, n + 6),
                    SpecParse::Incomplete => SpecParse::Incomplete,
                    SpecParse::Bad => SpecParse::Bad,
                }
            }
        } else {
            SpecParse::Bad
        }
    } else if (s[0] as u32) < 32 {
        SpecParse::Bad
    } else {
        match spec_parse_string_body(s.drop_first()) {
            SpecParse::Found(t, n) => SpecParse::Found(seq![s[0]] + t, n + 1),
            SpecParse::Incomplete => SpecParse::Incomplete,
            SpecParse::Bad => SpecParse::Bad,
        }
    }
}

/// A parsed string body consumes at least its closing quote and no more
/// than the input.
pub proof fn lemma_parse_string_len(s: Seq<char>)
    ensures
        spec_parse_string_body(s) matches SpecParse::Found(_, n) ==> 1 <= n <= s.len(),
    decreases s.len(),
{
    if s.len() > 0 {
        if s[0] == '\\' && s.len() > 1 {
            if is_simple_escape(s[1]) {
                lemma_parse_string_len(s.skip(2));
            } else if s[1] == 'u' && s.len() > 5 {
                lemma_parse_string_len(s.skip(6));
            }
        } else if s[0] != '"' && (s[0] as u32) >= 32 {
            lemma_parse_string_len(s.drop_first());
        }
    }
}

/// Parsing the escaped form of any character sequence, closed by a quote,
/// yields the sequence back, whatever follows the quote.
pub proof fn lemma_string_round_trip(name: Seq<char>, rest: Seq<char>)
    ensures
        spec_parse_string_body(spec_escape(name) + seq!['"'] + rest) == SpecParse::Found(
            name,
            spec_escape(name).len() as int + 1,
        ),
    decreases name.len(),
{
    let s = spec_escape(name) + seq!['"'] + rest;
    if name.len() == 0 {
        assert(spec_escape(name) =~= Seq::<char>::empty());
        assert(s[0] == '"');
        assert(name =~= Seq::<char>::empty());
    } else {
        let c = name[0];
        let e = esc_char(c);
        let tail = name.drop_first();
        let s2 = spec_escape(tail) + seq!['"'] + rest;
        lemma_string_round_trip(tail, rest);
        assert(spec_escape(name) == e + spec_escape(tail));
        assert(s =~= e + s2);
        assert(name =~= seq![c] + tail);
        if c == '"' || c == '\\' || c == '\u{8}' || c == '\t' || c == '\n' || c == '\u{c}' || c
            == '\r' {
            assert(s[0] == '\\' && is_simple_escape(s[1]) && unescape_char(s[1]) == c);
            assert(s.skip(2) =~= s2);
        } else if (c as u32) < 32 {
            let cv = c as u32;
            let h = hex_digit((cv / 16) as nat);
            let l = hex_digit((cv % 16) as nat);
            assert(s[0] == '\\' && s[1] == 'u' && s[2] == '0' && s[3] == '0' && s[4] == h && s[5]
                == l);
            lemma_digit_chars((cv / 16) as nat);
            lemma_digit_chars((cv % 16) as nat);
            assert(hex_val(h) * 16 + hex_val(l) == cv) by {
                vstd::arithmetic::div_mod::lemma_fundamental_div_mod(cv as int, 16);
            }
            assert(hex2_char(h, l) == c) by {
                vstd::utf8::char_u32_cast(c, cv);
                assert(((cv as u8) as char) == ((cv) as char));
            }
            assert(s.skip(6) =~= s2);
        } else {
            assert(e =~= seq![c]);
            assert(s[0] == c);
            assert(s.drop_first() =~= s2);
        }
    }
}


/// The decimal rendering of an unsigned value, up to ten digits wide (wide
/// enough for every 32-bit value).
pub open spec fn spec_dec(v: nat) -> Seq<char> {
    if v < 10 {
        seq![dec_digit(v)]
    } else if v < 100 {
        seq![dec_digit(v / 10), dec_digit(v % 10)]
    } else if v < 1000 {
        seq![dec_digit(v / 100), dec_digit((v / 10) % 10), dec_digit(v % 10)]
    } else if v < 10000 {
        seq![dec_digit(v / 1000), dec_digit((v / 100) % 10), dec_digit((v / 10) % 10), dec_digit(v % 10)]
    } else if v < 100000 {
        seq![dec_digit(v / 10000), dec_digit((v / 1000) % 10), dec_digit((v / 100) % 10), dec_digit((v / 10) % 10), dec_digit(v % 10)]
    } else if v < 1000000 {
        seq![dec_digit(v / 100000), dec_digit((v / 10000) % 10), dec_digit((v / 1000) % 10), dec_digit((v / 100) % 10), dec_digit((v / 10) % 10), dec_digit(v % 10)]
    } else if v < 10000000 {
        seq![dec_digit(v / 1000000), dec_digit((v / 100000) % 10), dec_digit((v / 10000) % 10), dec_digit((v / 1000) % 10), dec_digit((v / 100) % 10), dec_digit((v / 10) % 10), dec_digit(v % 10)]
    } else if v < 100000000 {
        seq![dec_digit(v / 10000000), dec_digit((v / 1000000) % 10), dec_digit((v / 100000) % 10), dec_digit((v / 10000) % 10), dec_digit((v / 1000) % 10), dec_digit((v / 100) % 10), dec_digit((v / 10) % 10), dec_digit(v % 10)]
    } else if v < 1000000000 {
        seq![dec_digit(v / 100000000), dec_digit((v / 10000000) % 10), dec_digit((v / 1000000) % 10), dec_digit((v / 100000) % 10), dec_digit((v / 10000) % 10), dec_digit((v / 1000) % 10), dec_digit((v / 100) % 10), dec_digit((v / 10) % 10), dec_digit(v % 10)]
    } else if v < 10000000000 {
        seq![dec_digit(v / 1000000000), dec_digit((v / 100000000) % 10), dec_digit((v / 10000000) % 10), dec_digit((v / 1000000) % 10), dec_digit((v / 100000) % 10), dec_digit((v / 10000) % 10), dec_digit((v / 1000) % 10), dec_digit((v / 100) % 10), dec_digit((v / 10) % 10), dec_digit(v % 10)]
    } else {
        Seq::empty()
    }
}

/// The decimal rendering of a signed 32-bit value: a minus sign for
/// negative values, then the digits of the magnitude.
pub open spec fn spec_dec_i32(v: i32) -> Seq<char> {
    if v < 0 {
        seq!['-'] + spec_dec((-(v as int)) as nat)
    } else {
        spec_dec(v as nat)
    }
}

/// Consume decimal digits, folding them onto `acc`, until a non-digit or
/// the end of input; a value above `max` is malformed. Running out of input
/// is incomplete, because more digits could follow.
pub open spec fn spec_parse_digits(s: Seq<char>, acc: nat, max: nat) -> SpecParse<nat>
    decreases s.len(),
{
    if s.len() == 0 {
        SpecParse::Incomplete
    } else if !is_digit(s[0]) {
        SpecParse::Found(acc, 0)
    } else {
        let v = acc * 10 + digit_val(s[0]);
        if v > max {
            SpecParse::Bad
        } else {
            match spec_parse_digits(s.drop_first(), v, max) {
                SpecParse::Found(val, n) => SpecParse::Found(val, n + 1),
                SpecParse::Incomplete => SpecParse::Incomplete,
                SpecParse::Bad => SpecParse::Bad,
            }
        }
    }
}

/// Parse an unsigned decimal number of at most `max`: a lone zero, or a
/// nonzero leading digit followed by more digits.
pub open spec fn spec_parse_number(s: Seq<char>, max: nat) -> SpecParse<nat> {
    if s.len() == 0 {
        SpecParse::Incomplete
    } else if s[0] == '0' {
        SpecParse::Found(0, 1)
    } else if !is_digit(s[0]) {
        SpecParse::Bad
    } else {
        spec_parse_digits(s, 0, max)
    }
}

/// Digit runs consume no more than the input, and at least one character
/// when the input starts with a digit.
pub proof fn lemma_parse_digits_len(s: Seq<char>, acc: nat, max: nat)
    ensures
        spec_parse_digits(s, acc, max) matches SpecParse::Found(_, n) ==> 0 <= n <= s.len(),
        s.len() > 0 && is_digit(s[0]) ==> (spec_parse_digits(s, acc, max)
            matches SpecParse::Found(_, n) ==> n >= 1),
    decreases s.len(),
{
    if s.len() > 0 && is_digit(s[0]) {
        lemma_parse_digits_len(s.drop_first(), acc * 10 + digit_val(s[0]), max);
    }
}

/// A parsed number consumes at least one character and no more than the
/// input, and stays within `max`.
pub proof fn lemma_parse_number_len(s: Seq<char>, max: nat)
    ensures
        spec_parse_number(s, max) matches SpecParse::Found(v, n) ==> 1 <= n <= s.len() && v
            <= max,
{
    if s.len() > 0 && s[0] != '0' && is_digit(s[0]) {
        lemma_parse_digits_len(s, 0, max);
        lemma_parse_digits_val(s, 0, max);
    }
}

/// A parsed digit run's value stays within `max`.
pub proof fn lemma_parse_digits_val(s: Seq<char>, acc: nat, max: nat)
    requires
        acc <= max,
    ensures
        spec_parse_digits(s, acc, max) matches SpecParse::Found(v, _) ==> v <= max,
    decreases s.len(),
{
    if s.len() > 0 && is_digit(s[0]) {
        let v = acc * 10 + digit_val(s[0]);
        if v <= max {
            lemma_parse_digits_val(s.drop_first(), v, max);
        }
    }
}

/// Parsing the decimal rendering of any value within `max` yields the
/// value back, provided something other than a digit follows it.
#[verifier::rlimit(100)]
#[verifier::spinoff_prover]
pub proof fn lemma_number_round_trip(v: nat, max: nat, rest: Seq<char>)
    requires
        v <= max,
        max <= 65535,
        rest.len() > 0,
        !is_digit(rest[0]),
    ensures
        spec_parse_number(spec_dec(v) + rest, max) == SpecParse::Found(
            v,
            spec_dec(v).len() as int,
        ),
{
    let s = spec_dec(v) + rest;
    reveal_with_fuel(spec_parse_digits, 7);
    if v < 10 {
        lemma_digit_chars(v);
        assert(s.drop_first() =~= rest);
    } else if v < 100 {
        lemma_digit_chars(v / 10);
        lemma_digit_chars(v % 10);
        assert(s.drop_first() =~= seq![dec_digit(v % 10)] + rest);
        assert(s.drop_first().drop_first() =~= rest);
        assert((v / 10) * 10 + v % 10 == v) by {
            vstd::arithmetic::div_mod::lemma_fundamental_div_mod(v as int, 10);
        }
    } else if v < 1000 {
        lemma_digit_chars(v / 100);
        lemma_digit_chars((v / 10) % 10);
        lemma_digit_chars(v % 10);
        assert(s.drop_first() =~= seq![dec_digit((v / 10) % 10), dec_digit(v % 10)] + rest);
        assert(s.drop_first().drop_first() =~= seq![dec_digit(v % 10)] + rest);
        assert(s.drop_first().drop_first().drop_first() =~= rest);
        assert(((v / 100) * 10 + (v / 10) % 10) * 10 + v % 10 == v) by {
            vstd::arithmetic::div_mod::lemma_fundamental_div_mod(v as int, 10);
            vstd::arithmetic::div_mod::lemma_fundamental_div_mod((v / 10) as int, 10);
            assert((v / 10) / 10 == v / 100) by {
                vstd::arithmetic::div_mod::lemma_div_denominator(v as int, 10, 10);
            }
        }
    } else if v < 10000 {
        lemma_digit_chars(v / 1000);
        lemma_digit_chars((v / 100) % 10);
        lemma_digit_chars((v / 10) % 10);
        lemma_digit_chars(v % 10);
        assert(s.drop_first() =~= seq![dec_digit((v / 100) % 10), dec_digit((v / 10) % 10), dec_digit(v % 10)] + rest);
        assert(s.drop_first().drop_first() =~= seq![dec_digit((v / 10) % 10), dec_digit(v % 10)] + rest);
        assert(s.drop_first().drop_first().drop_first() =~= seq![dec_digit(v % 10)] + rest);
        assert(s.drop_first().drop_first().drop_first().drop_first() =~= rest);
        assert((((v / 1000) * 10 + (v / 100) % 10) * 10 + (v / 10) % 10) * 10 + v % 10 == v) by {
            vstd::arithmetic::div_mod::lemma_fundamental_div_mod(v as int, 10);
            vstd::arithmetic::div_mod::lemma_fundamental_div_mod((v / 10) as int, 10);
            vstd::arithmetic::div_mod::lemma_fundamental_div_mod((v / 100) as int, 10);
            assert((v / 10) / 10 == v / 100) by {
                vstd::arithmetic::div_mod::lemma_div_denominator(v as int, 10, 10);
            }
            assert((v / 100) / 10 == v / 1000) by {
                vstd::arithmetic::div_mod::lemma_div_denominator(v as int, 100, 10);
            }
        }
    } else {
        lemma_digit_chars(v / 10000);
        lemma_digit_chars((v / 1000) % 10);
        lemma_digit_chars((v / 100) % 10);
        lemma_digit_chars((v / 10) % 10);
        lemma_digit_chars(v % 10);
        assert(s.drop_first() =~= seq![dec_digit((v / 1000) % 10), dec_digit((v / 100) % 10), dec_digit((v / 10) % 10), dec_digit(v % 10)] + rest);
        assert(s.drop_first().drop_first() =~= seq![dec_digit((v / 100) % 10), dec_digit((v / 10) % 10), dec_digit(v % 10)] + rest);
        assert(s.drop_first().drop_first().drop_first() =~= seq![dec_digit((v / 10) % 10), dec_digit(v % 10)] + rest);
        assert(s.drop_first().drop_first().drop_first().drop_first() =~= seq![dec_digit(v % 10)] + rest);
        assert(s.drop_first().drop_first().drop_first().drop_first().drop_first() =~= rest);
        assert(((((v / 10000) * 10 + (v / 1000) % 10) * 10 + (v / 100) % 10) * 10 + (v / 10) % 10) * 10 + v % 10 == v) by {
            vstd::arithmetic::div_mod::lemma_fundamental_div_mod(v as int, 10);
            vstd::arithmetic::div_mod::lemma_fundamental_div_mod((v / 10) as int, 10);
            vstd::arithmetic::div_mod::lemma_fundamental_div_mod((v / 100) as int, 10);
            vstd::arithmetic::div_mod::lemma_fundamental_div_mod((v / 1000) as int, 10);
            assert((v / 10) / 10 == v / 100) by {
                vstd::arithmetic::div_mod::lemma_div_denominator(v as int, 10, 10);
            }
            assert((v / 100) / 10 == v / 1000) by {
                vstd::arithmetic::div_mod::lemma_div_denominator(v as int, 100, 10);
            }
            assert((v / 1000) / 10 == v / 10000) by {
                vstd::arithmetic::div_mod::lemma_div_denominator(v as int, 1000, 10);
            }
        }
    }
}


/// The encoding of a byte list's items and closing bracket, the first item
/// carrying no separator.
pub open spec fn spec_byte_items_enc(bs: Seq<u8>) -> Seq<char>
    decreases bs.len(),
{
    if bs.len() == 0 {
        seq![']']
    } else {
        spec_dec(bs[0] as nat) + spec_bytes_tail_enc(bs.drop_first())
    }
}

/// The encoding of a byte list's later items, each preceded by a comma,
/// and the closing bracket.
pub open spec fn spec_bytes_tail_enc(bs: Seq<u8>) -> Seq<char>
    decreases bs.len(),
{
    if bs.len() == 0 {
        seq![']']
    } else {
        seq![','] + spec_dec(bs[0] as nat) + spec_bytes_tail_enc(bs.drop_first())
    }
}

/// Parse the later items of a byte list: a closing bracket ends it, a comma
/// precedes each further item.
pub open spec fn spec_parse_bytes_rest(s: Seq<char>) -> SpecParse<Seq<u8>>
    decreases s.len(),
{
    if s.len() == 0 {
        SpecParse::Incomplete
    } else if s[0] == ']' {
        SpecParse::Found(Seq::empty(), 1)
    } else if s[0] == ',' {
        match spec_parse_number(s.skip(1), 255) {
            SpecParse::Found(v, n) => {
                proof {
                    lemma_parse_number_len(s.skip(1), 255);
                }
                match spec_parse_bytes_rest(s.skip(1 + n)) {
                    SpecParse::Found(vs, m) => SpecParse::Found(seq![v as u8] + vs, 1 + n + m),
                    SpecParse::Incomplete => SpecParse::Incomplete,
                    SpecParse::Bad => SpecParse::Bad,
                }
            },
            SpecParse::Incomplete => SpecParse::Incomplete,
            SpecParse::Bad => SpecParse::Bad,
        }
    } else {
        SpecParse::Bad
    }
}

/// Parse a byte list from just after its opening bracket through its
/// closing bracket.
pub open spec fn spec_parse_byte_list(s: Seq<char>) -> SpecParse<Seq<u8>> {
    if s.len() == 0 {
        SpecParse::Incomplete
    } else if s[0] == ']' {
        SpecParse::Found(Seq::empty(), 1)
    } else {
        match spec_parse_number(s, 255) {
            SpecParse::Found(v, n) => match spec_parse_bytes_rest(s.skip(n)) {
                SpecParse::Found(vs, m) => SpecParse::Found(seq![v as u8] + vs, n + m),
                SpecParse::Incomplete => SpecParse::Incomplete,
                SpecParse::Bad => SpecParse::Bad,
            },
            SpecParse::Incomplete => SpecParse::Incomplete,
            SpecParse::Bad => SpecParse::Bad,
        }
    }
}

/// Parsed byte-list tails consume at least one character and no more than
/// the input.
pub proof fn lemma_parse_bytes_rest_len(s: Seq<char>)
    ensures
        spec_parse_bytes_rest(s) matches SpecParse::Found(_, n) ==> 1 <= n <= s.len(),
    decreases s.len(),
{
    if s.len() > 0 && s[0] != ']' && s[0] == ',' {
        lemma_parse_number_len(s.skip(1), 255);
        match spec_parse_number(s.skip(1), 255) {
            SpecParse::Found(v, n) => {
                lemma_parse_bytes_rest_len(s.skip(1 + n));
            },
            SpecParse::Incomplete => {},
            SpecParse::Bad => {},
        }
    }
}

/// Parsed byte lists consume at least one character and no more than the
/// input.
pub proof fn lemma_parse_byte_list_len(s: Seq<char>)
    ensures
        spec_parse_byte_list(s) matches SpecParse::Found(_, n) ==> 1 <= n <= s.len(),
{
    if s.len() > 0 && s[0] != ']' {
        lemma_parse_number_len(s, 255);
        match spec_parse_number(s, 255) {
            SpecParse::Found(v, n) => {
                lemma_parse_bytes_rest_len(s.skip(n));
            },
            SpecParse::Incomplete => {},
            SpecParse::Bad => {},
        }
    }
}

/// The first character of a decimal rendering of a 16-bit value is a digit.
pub proof fn lemma_dec_first(v: nat)
    requires
        v <= 65535,
    ensures
        spec_dec(v).len() >= 1,
        is_digit(spec_dec(v)[0]),
{
    if v < 10 {
        lemma_digit_chars(v);
    } else if v < 100 {
        lemma_digit_chars(v / 10);
    } else if v < 1000 {
        lemma_digit_chars(v / 100);
    } else if v < 10000 {
        lemma_digit_chars(v / 1000);
    } else {
        lemma_digit_chars(v / 10000);
    }
}

/// Parsing the encoding of any byte-list tail yields the bytes back.
pub proof fn lemma_bytes_tail_round_trip(bs: Seq<u8>, rest: Seq<char>)
    ensures
        spec_parse_bytes_rest(spec_bytes_tail_enc(bs) + rest) == SpecParse::Found(
            bs,
            spec_bytes_tail_enc(bs).len() as int,
        ),
    decreases bs.len(),
{
    let s = spec_bytes_tail_enc(bs) + rest;
    if bs.len() == 0 {
        assert(s[0] == ']');
        assert(bs =~= Seq::<u8>::empty());
    } else {
        let b = bs[0];
        let brest = bs.drop_first();
        assert(s[0] == ',');
        let after_comma = spec_dec(b as nat) + spec_bytes_tail_enc(brest) + rest;
        assert(s.skip(1) =~= after_comma);
        assert(spec_bytes_tail_enc(brest).len() >= 1);
        let follow = spec_bytes_tail_enc(brest) + rest;
        assert(after_comma =~= spec_dec(b as nat) + follow);
        assert(follow[0] == ',' || follow[0] == ']');
        lemma_number_round_trip(b as nat, 255, follow);
        let n = spec_dec(b as nat).len() as int;
        assert(s.skip(1 + n) =~= follow);
        lemma_bytes_tail_round_trip(brest, rest);
        assert(seq![b] + brest =~= bs);
    }
}

/// Parsing the encoding of any byte list yields the bytes back.
pub proof fn lemma_byte_list_round_trip(bs: Seq<u8>, rest: Seq<char>)
    ensures
        spec_parse_byte_list(spec_byte_items_enc(bs) + rest) == SpecParse::Found(
            bs,
            spec_byte_items_enc(bs).len() as int,
        ),
{
    let s = spec_byte_items_enc(bs) + rest;
    if bs.len() == 0 {
        assert(s[0] == ']');
        assert(bs =~= Seq::<u8>::empty());
    } else {
        let b = bs[0];
        let brest = bs.drop_first();
        assert(spec_bytes_tail_enc(brest).len() >= 1);
        let follow = spec_bytes_tail_enc(brest) + rest;
        assert(s =~= spec_dec(b as nat) + follow);
        lemma_dec_first(b as nat);
        assert(is_digit(s[0]));
        assert(s[0] != ']');
        assert(follow[0] == ',' || follow[0] == ']');
        lemma_number_round_trip(b as nat, 255, follow);
        let n = spec_dec(b as nat).len() as int;
        assert(s.skip(n) =~= follow);
        lemma_bytes_tail_round_trip(brest, rest);
        assert(seq![b] + brest =~= bs);
    }
}


/// The opening of a motor-write record, through the name's opening quote.
pub open spec fn lit_motor_head() -> Seq<char> {
    "{\"MotorWrite\":{\"motor\":\""@
}

/// Between a motor name's closing quote and its command bytes.
pub open spec fn lit_motor_mid() -> Seq<char> {
    ",\"command\":["@
}

/// The opening of a servo-write record, through the name's opening quote.
pub open spec fn lit_servo_head() -> Seq<char> {
    "{\"ServoWrite\":{\"servo\":\""@
}

/// Between a servo name's closing quote and its position.
pub open spec fn lit_servo_mid() -> Seq<char> {
    ",\"position\":"@
}

/// The opening of an encoder-read record, through the name's opening quote.
pub open spec fn lit_encoder_head() -> Seq<char> {
    "{\"EncoderRead\":{\"encoder\":\""@
}

/// The opening of a switch-read record, through the name's opening quote.
pub open spec fn lit_switch_head() -> Seq<char> {
    "{\"SwitchRead\":{\"switch\":\""@
}

/// The opening of an LED-write record, through the name's opening quote.
pub open spec fn lit_led_head() -> Seq<char> {
    "{\"LedWrite\":{\"led\":\""@
}

/// Between an LED name's closing quote and its level.
pub open spec fn lit_led_mid() -> Seq<char> {
    ",\"state\":"@
}

/// The two closing braces of every tagged record.
pub open spec fn lit_obj_close() -> Seq<char> {
    "}}"@
}

/// The whole reset record: a bare string naming the request.
pub open spec fn lit_pad_reset() -> Seq<char> {
    "\"PadReset\""@
}

/// Match a fixed literal at the front of `s`: malformed on the first
/// differing character, incomplete while `s` is a proper prefix.
pub open spec fn spec_match_lit(s: Seq<char>, lit: Seq<char>) -> SpecParse<()> {
    if exists|i: int| 0 <= i < lit.len() && i < s.len() && s[i] != lit[i] {
        SpecParse::Bad
    } else if s.len() < lit.len() {
        SpecParse::Incomplete
    } else {
        SpecParse::Found((), lit.len() as int)
    }
}

/// A literal matches in front of anything appended after it.
pub proof fn lemma_match_lit_prefix(lit: Seq<char>, rest: Seq<char>)
    ensures
        spec_match_lit(lit + rest, lit) == SpecParse::Found((), lit.len() as int),
{
    let s = lit + rest;
    assert(forall|i: int| 0 <= i < lit.len() ==> s[i] == lit[i]);
}

/// A single differing character within both bounds makes a literal match
/// malformed.
pub proof fn lemma_match_lit_bad(s: Seq<char>, lit: Seq<char>, i: int)
    requires
        0 <= i < lit.len(),
        i < s.len(),
        s[i] != lit[i],
    ensures
        spec_match_lit(s, lit) == SpecParse::<()>::Bad,
{
}

/// The encoding of one request as a text record.
pub open spec fn spec_encode_req(r: ReqModel) -> Seq<char> {
    match r {
        ReqModel::MotorWrite { motor, command } => lit_motor_head() + spec_escape(motor)
            + seq!['"'] + lit_motor_mid() + spec_byte_items_enc(command) + lit_obj_close(),
        ReqModel::ServoWrite { servo, position } => lit_servo_head() + spec_escape(servo)
            + seq!['"'] + lit_servo_mid() + spec_dec(position as nat) + lit_obj_close(),
        ReqModel::EncoderRead { encoder } => lit_encoder_head() + spec_escape(encoder)
            + seq!['"'] + lit_obj_close(),
        ReqModel::SwitchRead { switch } => lit_switch_head() + spec_escape(switch) + seq!['"']
            + lit_obj_close(),
        ReqModel::LedWrite { led, state } => lit_led_head() + spec_escape(led) + seq!['"']
            + lit_led_mid() + spec_dec(state as nat) + lit_obj_close(),
        ReqModel::PadReset => lit_pad_reset(),
    }
}

/// Parse a motor record at the front of `s`.
pub open spec fn spec_parse_motor(s: Seq<char>) -> SpecParse<ReqModel> {
    match spec_match_lit(s, lit_motor_head()) {
        SpecParse::Found(_, n1) => match spec_parse_string_body(s.skip(n1)) {
            SpecParse::Found(name, n2) => match spec_match_lit(s.skip(n1 + n2), lit_motor_mid()) {
                SpecParse::Found(_, n3) => match spec_parse_byte_list(s.skip(n1 + n2 + n3)) {
                    SpecParse::Found(val, n4) => match spec_match_lit(
                        s.skip(n1 + n2 + n3 + n4),
                        lit_obj_close(),
                    ) {
                        SpecParse::Found(_, n5) => SpecParse::Found(
                            ReqModel::MotorWrite { motor: name, command: val },
                            n1 + n2 + n3 + n4 + n5,
                        ),
                        SpecParse::Incomplete => SpecParse::Incomplete,
                        SpecParse::Bad => SpecParse::Bad,
                    },
                    SpecParse::Incomplete => SpecParse::Incomplete,
                    SpecParse::Bad => SpecParse::Bad,
                },
                SpecParse::Incomplete => SpecParse::Incomplete,
                SpecParse::Bad => SpecParse::Bad,
            },
            SpecParse::Incomplete => SpecParse::Incomplete,
            SpecParse::Bad => SpecParse::Bad,
        },
        SpecParse::Incomplete => SpecParse::Incomplete,
        SpecParse::Bad => SpecParse::Bad,
    }
}

/// Parse a servo record at the front of `s`.
pub open spec fn spec_parse_servo(s: Seq<char>) -> SpecParse<ReqModel> {
    match spec_match_lit(s, lit_servo_head()) {
        SpecParse::Found(_, n1) => match spec_parse_string_body(s.skip(n1)) {
            SpecParse::Found(name, n2) => match spec_match_lit(s.skip(n1 + n2), lit_servo_mid()) {
                SpecParse::Found(_, n3) => match spec_parse_number(s.skip(n1 + n2 + n3), 65535) {
                    SpecParse::Found(val, n4) => match spec_match_lit(
                        s.skip(n1 + n2 + n3 + n4),
                        lit_obj_close(),
                    ) {
                        SpecParse::Found(_, n5) => SpecParse::Found(
                            ReqModel::ServoWrite { servo: name, position: val as u16 },
                            n1 + n2 + n3 + n4 + n5,
                        ),
                        SpecParse::Incomplete => SpecParse::Incomplete,
                        SpecParse::Bad => SpecParse::Bad,
                    },
                    SpecParse::Incomplete => SpecParse::Incomplete,
                    SpecParse::Bad => SpecParse::Bad,
                },
                SpecParse::Incomplete => SpecParse::Incomplete,
                SpecParse::Bad => SpecParse::Bad,
            },
            SpecParse::Incomplete => SpecParse::Incomplete,
            SpecParse::Bad => SpecParse::Bad,
        },
        SpecParse::Incomplete => SpecParse::Incomplete,
        SpecParse::Bad => SpecParse::Bad,
    }
}

/// Parse a encoder record at the front of `s`.
pub open spec fn spec_parse_encoder(s: Seq<char>) -> SpecParse<ReqModel> {
    match spec_match_lit(s, lit_encoder_head()) {
        SpecParse::Found(_, n1) => match spec_parse_string_body(s.skip(n1)) {
            SpecParse::Found(name, n2) => match spec_match_lit(s.skip(n1 + n2), lit_obj_close()) {
                SpecParse::Found(_, n3) => SpecParse::Found(ReqModel::EncoderRead { encoder: name }, n1 + n2 + n3),
                SpecParse::Incomplete => SpecParse::Incomplete,
                SpecParse::Bad => SpecParse::Bad,
            },
            SpecParse::Incomplete => SpecParse::Incomplete,
            SpecParse::Bad => SpecParse::Bad,
        },
        SpecParse::Incomplete => SpecParse::Incomplete,
        SpecParse::Bad => SpecParse::Bad,
    }
}

/// Parse a switch record at the front of `s`.
pub open spec fn spec_parse_switch(s: Seq<char>) -> SpecParse<ReqModel> {
    match spec_match_lit(s, lit_switch_head()) {
        SpecParse::Found(_, n1) => match spec_parse_string_body(s.skip(n1)) {
            SpecParse::Found(name, n2) => match spec_match_lit(s.skip(n1 + n2), lit_obj_close()) {
                SpecParse::Found(_, n3) => SpecParse::Found(ReqModel::SwitchRead { switch: name }, n1 + n2 + n3),
                SpecParse::Incomplete => SpecParse::Incomplete,
                SpecParse::Bad => SpecParse::Bad,
            },
            SpecParse::Incomplete => SpecParse::Incomplete,
            SpecParse::Bad => SpecParse::Bad,
        },
        SpecParse::Incomplete => SpecParse::Incomplete,
        SpecParse::Bad => SpecParse::Bad,
    }
}

/// Parse a led record at the front of `s`.
pub open spec fn spec_parse_led(s: Seq<char>) -> SpecParse<ReqModel> {
    match spec_match_lit(s, lit_led_head()) {
        SpecParse::Found(_, n1) => match spec_parse_string_body(s.skip(n1)) {
            SpecParse::Found(name, n2) => match spec_match_lit(s.skip(n1 + n2), lit_led_mid()) {
                SpecParse::Found(_, n3) => match spec_parse_number(s.skip(n1 + n2 + n3), 255) {
                    SpecParse::Found(val, n4) => match spec_match_lit(
                        s.skip(n1 + n2 + n3 + n4),
                        lit_obj_close(),
                    ) {
                        SpecParse::Found(_, n5) => SpecParse::Found(
                            ReqModel::LedWrite { led: name, state: val as u8 },
                            n1 + n2 + n3 + n4 + n5,
                        ),
                        SpecParse::Incomplete => SpecParse::Incomplete,
                        SpecParse::Bad => SpecParse::Bad,
                    },
                    SpecParse::Incomplete => SpecParse::Incomplete,
                    SpecParse::Bad => SpecParse::Bad,
                },
                SpecParse::Incomplete => SpecParse::Incomplete,
                SpecParse::Bad => SpecParse::Bad,
            },
            SpecParse::Incomplete => SpecParse::Incomplete,
            SpecParse::Bad => SpecParse::Bad,
        },
        SpecParse::Incomplete => SpecParse::Incomplete,
        SpecParse::Bad => SpecParse::Bad,
    }
}

/// Parse one record at the front of `s`: a bare reset string, or one of
/// the tagged objects, tried in declaration order.
pub open spec fn spec_parse_req(s: Seq<char>) -> SpecParse<ReqModel> {
    if s.len() == 0 {
        SpecParse::Incomplete
    } else if s[0] == '"' {
        match spec_match_lit(s, lit_pad_reset()) {
            SpecParse::Found(_, n) => SpecParse::Found(ReqModel::PadReset, n),
            SpecParse::Incomplete => SpecParse::Incomplete,
            SpecParse::Bad => SpecParse::Bad,
        }
    } else if s[0] != '{' {
        SpecParse::Bad
    } else {
        match spec_parse_motor(s) {
            SpecParse::Bad => match spec_parse_servo(s) {
                SpecParse::Bad => match spec_parse_encoder(s) {
                    SpecParse::Bad => match spec_parse_switch(s) {
                        SpecParse::Bad => spec_parse_led(s),
                        SpecParse::Found(r, n) => SpecParse::Found(r, n),
                        SpecParse::Incomplete => SpecParse::Incomplete,
                    },
                    SpecParse::Found(r, n) => SpecParse::Found(r, n),
                    SpecParse::Incomplete => SpecParse::Incomplete,
                },
                SpecParse::Found(r, n) => SpecParse::Found(r, n),
                SpecParse::Incomplete => SpecParse::Incomplete,
            },
            SpecParse::Found(r, n) => SpecParse::Found(r, n),
            SpecParse::Incomplete => SpecParse::Incomplete,
        }
    }
}

/// A parsed motor record consumes at least one character and no more than
/// the input.
pub proof fn lemma_parse_motor_len(s: Seq<char>)
    ensures
        spec_parse_motor(s) matches SpecParse::Found(_, n) ==> 1 <= n <= s.len(),
{
    match spec_match_lit(s, lit_motor_head()) {
        SpecParse::Found(_, n1) => {
            lemma_parse_string_len(s.skip(n1));
            match spec_parse_string_body(s.skip(n1)) {
                SpecParse::Found(_, n2) => {
                    match spec_match_lit(s.skip(n1 + n2), lit_motor_mid()) {
                        SpecParse::Found(_, n3) => {
                            lemma_parse_byte_list_len(s.skip(n1 + n2 + n3));
                        },
                        SpecParse::Incomplete => {},
                        SpecParse::Bad => {},
                    }
                },
                SpecParse::Incomplete => {},
                SpecParse::Bad => {},
            }
        },
        SpecParse::Incomplete => {},
        SpecParse::Bad => {},
    }
}

/// A parsed servo record consumes at least one character and no more than
/// the input.
pub proof fn lemma_parse_servo_len(s: Seq<char>)
    ensures
        spec_parse_servo(s) matches SpecParse::Found(_, n) ==> 1 <= n <= s.len(),
{
    match spec_match_lit(s, lit_servo_head()) {
        SpecParse::Found(_, n1) => {
            lemma_parse_string_len(s.skip(n1));
            match spec_parse_string_body(s.skip(n1)) {
                SpecParse::Found(_, n2) => {
                    match spec_match_lit(s.skip(n1 + n2), lit_servo_mid()) {
                        SpecParse::Found(_, n3) => {
                            lemma_parse_number_len(s.skip(n1 + n2 + n3), 65535);
                        },
                        SpecParse::Incomplete => {},
                        SpecParse::Bad => {},
                    }
                },
                SpecParse::Incomplete => {},
                SpecParse::Bad => {},
            }
        },
        SpecParse::Incomplete => {},
        SpecParse::Bad => {},
    }
}

/// A parsed encoder record consumes at least one character and no more than
/// the input.
pub proof fn lemma_parse_encoder_len(s: Seq<char>)
    ensures
        spec_parse_encoder(s) matches SpecParse::Found(_, n) ==> 1 <= n <= s.len(),
{
    match spec_match_lit(s, lit_encoder_head()) {
        SpecParse::Found(_, n1) => {
            lemma_parse_string_len(s.skip(n1));
        },
        SpecParse::Incomplete => {},
        SpecParse::Bad => {},
    }
}

/// A parsed switch record consumes at least one character and no more than
/// the input.
pub proof fn lemma_parse_switch_len(s: Seq<char>)
    ensures
        spec_parse_switch(s) matches SpecParse::Found(_, n) ==> 1 <= n <= s.len(),
{
    match spec_match_lit(s, lit_switch_head()) {
        SpecParse::Found(_, n1) => {
            lemma_parse_string_len(s.skip(n1));
        },
        SpecParse::Incomplete => {},
        SpecParse::Bad => {},
    }
}

/// A parsed led record consumes at least one character and no more than
/// the input.
pub proof fn lemma_parse_led_len(s: Seq<char>)
    ensures
        spec_parse_led(s) matches SpecParse::Found(_, n) ==> 1 <= n <= s.len(),
{
    match spec_match_lit(s, lit_led_head()) {
        SpecParse::Found(_, n1) => {
            lemma_parse_string_len(s.skip(n1));
            match spec_parse_string_body(s.skip(n1)) {
                SpecParse::Found(_, n2) => {
                    match spec_match_lit(s.skip(n1 + n2), lit_led_mid()) {
                        SpecParse::Found(_, n3) => {
                            lemma_parse_number_len(s.skip(n1 + n2 + n3), 255);
                        },
                        SpecParse::Incomplete => {},
                        SpecParse::Bad => {},
                    }
                },
                SpecParse::Incomplete => {},
                SpecParse::Bad => {},
            }
        },
        SpecParse::Incomplete => {},
        SpecParse::Bad => {},
    }
}

/// A parsed record consumes at least one character and no more than the
/// input.
pub proof fn lemma_parse_req_len(s: Seq<char>)
    ensures
        spec_parse_req(s) matches SpecParse::Found(_, n) ==> 1 <= n <= s.len(),
{
    reveal_strlit("\"PadReset\"");
    lemma_parse_motor_len(s);
    lemma_parse_servo_len(s);
    lemma_parse_encoder_len(s);
    lemma_parse_switch_len(s);
    lemma_parse_led_len(s);
}

/// Parsing at the front of any input that starts with the encoding of a
/// request yields the request back and consumes exactly its record,
/// whatever follows it. The record never starts with a blank.
#[verifier::rlimit(100)]
#[verifier::spinoff_prover]
pub proof fn lemma_parse_req_prefix(r: ReqModel, rest: Seq<char>)
    ensures
        spec_parse_req(spec_encode_req(r) + rest) == SpecParse::Found(
            r,
            spec_encode_req(r).len() as int,
        ),
        spec_encode_req(r).len() > 0,
        !is_ws(spec_encode_req(r)[0]),
{
    let enc = spec_encode_req(r);
    let s = enc + rest;
    reveal_strlit("{\"MotorWrite\":{\"motor\":\"");
    reveal_strlit(",\"command\":[");
    reveal_strlit("{\"ServoWrite\":{\"servo\":\"");
    reveal_strlit(",\"position\":");
    reveal_strlit("{\"EncoderRead\":{\"encoder\":\"");
    reveal_strlit("{\"SwitchRead\":{\"switch\":\"");
    reveal_strlit("{\"LedWrite\":{\"led\":\"");
    reveal_strlit(",\"state\":");
    reveal_strlit("}}");
    reveal_strlit("\"PadReset\"");
    match r {
        ReqModel::MotorWrite { motor, command } => {
            let name = motor;
            let rest3 = spec_byte_items_enc(command) + (lit_obj_close() + rest);
            let rest2 = lit_motor_mid() + rest3;
            let tail1 = spec_escape(name) + seq!['"'] + rest2;
            assert(s =~= lit_motor_head() + tail1);
            lemma_match_lit_prefix(lit_motor_head(), tail1);
            let n1 = lit_motor_head().len() as int;
            assert(s.skip(n1) =~= tail1);
            lemma_string_round_trip(name, rest2);
            let n2 = spec_escape(name).len() as int + 1;
            assert(s.skip(n1 + n2) =~= lit_motor_mid() + rest3);
            lemma_match_lit_prefix(lit_motor_mid(), rest3);
            let n3 = lit_motor_mid().len() as int;
            assert(s.skip(n1 + n2 + n3) =~= spec_byte_items_enc(command) + (lit_obj_close() + rest));
            assert((lit_obj_close() + rest)[0] == '}');
            lemma_byte_list_round_trip(command, lit_obj_close() + rest);
            let n4 = spec_byte_items_enc(command).len() as int;
            assert(s.skip(n1 + n2 + n3 + n4) =~= lit_obj_close() + rest);
            lemma_match_lit_prefix(lit_obj_close(), rest);
            let n5 = lit_obj_close().len() as int;
            assert(spec_parse_motor(s) == SpecParse::Found(
                ReqModel::MotorWrite { motor: name, command },
                n1 + n2 + n3 + n4 + n5,
            ));
            assert(n1 + n2 + n3 + n4 + n5 == enc.len());
            assert(s[0] == '{');
            assert(s[2] == lit_motor_head()[2]);
            assert(s[3] == lit_motor_head()[3]);
        },
        ReqModel::ServoWrite { servo, position } => {
            let name = servo;
            let rest3 = spec_dec(position as nat) + (lit_obj_close() + rest);
            let rest2 = lit_servo_mid() + rest3;
            let tail1 = spec_escape(name) + seq!['"'] + rest2;
            assert(s =~= lit_servo_head() + tail1);
            lemma_match_lit_prefix(lit_servo_head(), tail1);
            let n1 = lit_servo_head().len() as int;
            assert(s.skip(n1) =~= tail1);
            lemma_string_round_trip(name, rest2);
            let n2 = spec_escape(name).len() as int + 1;
            assert(s.skip(n1 + n2) =~= lit_servo_mid() + rest3);
            lemma_match_lit_prefix(lit_servo_mid(), rest3);
            let n3 = lit_servo_mid().len() as int;
            assert(s.skip(n1 + n2 + n3) =~= spec_dec(position as nat) + (lit_obj_close() + rest));
            assert((lit_obj_close() + rest)[0] == '}');
            lemma_number_round_trip(position as nat, 65535, lit_obj_close() + rest);
            let n4 = spec_dec(position as nat).len() as int;
            assert(s.skip(n1 + n2 + n3 + n4) =~= lit_obj_close() + rest);
            lemma_match_lit_prefix(lit_obj_close(), rest);
            let n5 = lit_obj_close().len() as int;
            assert(spec_parse_servo(s) == SpecParse::Found(
                ReqModel::ServoWrite { servo: name, position },
                n1 + n2 + n3 + n4 + n5,
            ));
            assert(n1 + n2 + n3 + n4 + n5 == enc.len());
            assert(s[0] == '{');
            assert(s[2] == lit_servo_head()[2]);
            assert(s[3] == lit_servo_head()[3]);
            lemma_match_lit_bad(s, lit_motor_head(), 2);
        },
        ReqModel::EncoderRead { encoder } => {
            let name = encoder;
            let rest2 = lit_obj_close() + rest;
            let tail1 = spec_escape(name) + seq!['"'] + rest2;
            assert(s =~= lit_encoder_head() + tail1);
            lemma_match_lit_prefix(lit_encoder_head(), tail1);
            let n1 = lit_encoder_head().len() as int;
            assert(s.skip(n1) =~= tail1);
            lemma_string_round_trip(name, rest2);
            let n2 = spec_escape(name).len() as int + 1;
            assert(s.skip(n1 + n2) =~= lit_obj_close() + rest);
            lemma_match_lit_prefix(lit_obj_close(), rest);
            let n3 = lit_obj_close().len() as int;
            assert(spec_parse_encoder(s) == SpecParse::Found(
                ReqModel::EncoderRead { encoder: name },
                n1 + n2 + n3,
            ));
            assert(n1 + n2 + n3 == enc.len());
            assert(s[0] == '{');
            assert(s[2] == lit_encoder_head()[2]);
            assert(s[3] == lit_encoder_head()[3]);
            lemma_match_lit_bad(s, lit_motor_head(), 2);
            lemma_match_lit_bad(s, lit_servo_head(), 2);
        },
        ReqModel::SwitchRead { switch } => {
            let name = switch;
            let rest2 = lit_obj_close() + rest;
            let tail1 = spec_escape(name) + seq!['"'] + rest2;
            assert(s =~= lit_switch_head() + tail1);
            lemma_match_lit_prefix(lit_switch_head(), tail1);
            let n1 = lit_switch_head().len() as int;
            assert(s.skip(n1) =~= tail1);
            lemma_string_round_trip(name, rest2);
            let n2 = spec_escape(name).len() as int + 1;
            assert(s.skip(n1 + n2) =~= lit_obj_close() + rest);
            lemma_match_lit_prefix(lit_obj_close(), rest);
            let n3 = lit_obj_close().len() as int;
            assert(spec_parse_switch(s) == SpecParse::Found(
                ReqModel::SwitchRead { switch: name },
                n1 + n2 + n3,
            ));
            assert(n1 + n2 + n3 == enc.len());
            assert(s[0] == '{');
            assert(s[2] == lit_switch_head()[2]);
            assert(s[3] == lit_switch_head()[3]);
            lemma_match_lit_bad(s, lit_motor_head(), 2);
            lemma_match_lit_bad(s, lit_servo_head(), 3);
            lemma_match_lit_bad(s, lit_encoder_head(), 2);
        },
        ReqModel::LedWrite { led, state } => {
            let name = led;
            let rest3 = spec_dec(state as nat) + (lit_obj_close() + rest);
            let rest2 = lit_led_mid() + rest3;
            let tail1 = spec_escape(name) + seq!['"'] + rest2;
            assert(s =~= lit_led_head() + tail1);
            lemma_match_lit_prefix(lit_led_head(), tail1);
            let n1 = lit_led_head().len() as int;
            assert(s.skip(n1) =~= tail1);
            lemma_string_round_trip(name, rest2);
            let n2 = spec_escape(name).len() as int + 1;
            assert(s.skip(n1 + n2) =~= lit_led_mid() + rest3);
            lemma_match_lit_prefix(lit_led_mid(), rest3);
            let n3 = lit_led_mid().len() as int;
            assert(s.skip(n1 + n2 + n3) =~= spec_dec(state as nat) + (lit_obj_close() + rest));
            assert((lit_obj_close() + rest)[0] == '}');
            lemma_number_round_trip(state as nat, 255, lit_obj_close() + rest);
            let n4 = spec_dec(state as nat).len() as int;
            assert(s.skip(n1 + n2 + n3 + n4) =~= lit_obj_close() + rest);
            lemma_match_lit_prefix(lit_obj_close(), rest);
            let n5 = lit_obj_close().len() as int;
            assert(spec_parse_led(s) == SpecParse::Found(
                ReqModel::LedWrite { led: name, state },
                n1 + n2 + n3 + n4 + n5,
            ));
            assert(n1 + n2 + n3 + n4 + n5 == enc.len());
            assert(s[0] == '{');
            assert(s[2] == lit_led_head()[2]);
            assert(s[3] == lit_led_head()[3]);
            lemma_match_lit_bad(s, lit_motor_head(), 2);
            lemma_match_lit_bad(s, lit_servo_head(), 2);
            lemma_match_lit_bad(s, lit_encoder_head(), 2);
            lemma_match_lit_bad(s, lit_switch_head(), 2);
        },
        ReqModel::PadReset => {
            assert(s =~= lit_pad_reset() + rest);
            lemma_match_lit_prefix(lit_pad_reset(), rest);
            assert(s[0] == '"');
        },
    }
    assert(enc[0] == s[0]);
}

/// Parsing the encoding of any request yields the request back and
/// consumes the whole record.
pub proof fn lemma_client_round_trip(r: ReqModel)
    ensures
        spec_parse_req(spec_encode_req(r)) == SpecParse::Found(
            r,
            spec_encode_req(r).len() as int,
        ),
{
    lemma_parse_req_prefix(r, Seq::empty());
    assert(spec_encode_req(r) + Seq::<char>::empty() =~= spec_encode_req(r));
}

/// Append a fixed literal's characters to the output.
fn push_lit(out: &mut Vec<char>, lit: &str)
    ensures
        final(out)@ == old(out)@ + lit@,
{
    let n = lit.unicode_len();
    let mut i: usize = 0;
    while i < n
        invariant
            i <= n,
            n == lit@.len(),
            out@ == old(out)@ + lit@.take(i as int),
        decreases n - i,
    {
        out.push(lit.get_char(i));
        proof {
            assert(out@ =~= old(out)@ + lit@.take(i as int + 1));
        }
        i = i + 1;
    }
    proof {
        assert(lit@.take(n as int) =~= lit@);
    }
}

/// Appending one character extends an escaped body by that character's
/// escape sequence.
proof fn lemma_escape_snoc(a: Seq<char>, c: char)
    ensures
        spec_escape(a.push(c)) == spec_escape(a) + esc_char(c),
    decreases a.len(),
{
    assert(a.push(c)[0] == if a.len() == 0 {
        c
    } else {
        a[0]
    });
    if a.len() == 0 {
        assert(a.push(c).drop_first() =~= Seq::<char>::empty());
        assert(spec_escape(a.push(c)) == esc_char(c) + spec_escape(Seq::<char>::empty()));
        assert(esc_char(c) + Seq::<char>::empty() =~= esc_char(c));
        assert(spec_escape(a) + esc_char(c) =~= esc_char(c));
    } else {
        assert(a.push(c).drop_first() =~= a.drop_first().push(c));
        lemma_escape_snoc(a.drop_first(), c);
        assert(spec_escape(a.push(c)) =~= spec_escape(a) + esc_char(c));
    }
}

/// The character of a decimal digit value below ten.
fn dec_digit_char(v: u8) -> (c: char)
    requires
        v < 10,
    ensures
        c == dec_digit(v as nat),
{
    if v == 0 {
        '0'
    } else if v == 1 {
        '1'
    } else if v == 2 {
        '2'
    } else if v == 3 {
        '3'
    } else if v == 4 {
        '4'
    } else if v == 5 {
        '5'
    } else if v == 6 {
        '6'
    } else if v == 7 {
        '7'
    } else if v == 8 {
        '8'
    } else {
        '9'
    }
}

/// The character of a hexadecimal digit value below sixteen.
fn hex_digit_char(v: u8) -> (c: char)
    requires
        v < 16,
    ensures
        c == hex_digit(v as nat),
{
    if v < 10 {
        dec_digit_char(v)
    } else if v == 10 {
        'a'
    } else if v == 11 {
        'b'
    } else if v == 12 {
        'c'
    } else if v == 13 {
        'd'
    } else if v == 14 {
        'e'
    } else {
        'f'
    }
}

/// Append the escaped form of a string's characters to the output.
fn push_escaped(out: &mut Vec<char>, s: &str)
    ensures
        final(out)@ == old(out)@ + spec_escape(s@),
{
    let n = s.unicode_len();
    let mut i: usize = 0;
    while i < n
        invariant
            i <= n,
            n == s@.len(),
            out@ == old(out)@ + spec_escape(s@.take(i as int)),
        decreases n - i,
    {
        let c = s.get_char(i);
        if c == '"' {
            out.push('\\');
            out.push('"');
        } else if c == '\\' {
            out.push('\\');
            out.push('\\');
        } else if c == '\u{8}' {
            out.push('\\');
            out.push('b');
        } else if c == '\t' {
            out.push('\\');
            out.push('t');
        } else if c == '\n' {
            out.push('\\');
            out.push('n');
        } else if c == '\u{c}' {
            out.push('\\');
            out.push('f');
        } else if c == '\r' {
            out.push('\\');
            out.push('r');
        } else {
            let cv = c as u32;
            if cv < 32 {
                out.push('\\');
                out.push('u');
                out.push('0');
                out.push('0');
                out.push(hex_digit_char((cv / 16) as u8));
                out.push(hex_digit_char((cv % 16) as u8));
            } else {
                out.push(c);
            }
        }
        proof {
            lemma_escape_snoc(s@.take(i as int), c);
            assert(s@.take(i as int).push(c) =~= s@.take(i as int + 1));
            assert(out@ =~= old(out)@ + spec_escape(s@.take(i as int + 1)));
        }
        i = i + 1;
    }
    proof {
        assert(s@.take(n as int) =~= s@);
    }
}

/// Append the decimal rendering of a 16-bit value to the output.
fn push_dec(out: &mut Vec<char>, v: u16)
    ensures
        final(out)@ == old(out)@ + spec_dec(v as nat),
{
    if v < 10 {
        out.push(dec_digit_char(v as u8));
    } else if v < 100 {
        out.push(dec_digit_char((v / 10) as u8));
        out.push(dec_digit_char((v % 10) as u8));
    } else if v < 1000 {
        out.push(dec_digit_char((v / 100) as u8));
        out.push(dec_digit_char(((v / 10) % 10) as u8));
        out.push(dec_digit_char((v % 10) as u8));
    } else if v < 10000 {
        out.push(dec_digit_char((v / 1000) as u8));
        out.push(dec_digit_char(((v / 100) % 10) as u8));
        out.push(dec_digit_char(((v / 10) % 10) as u8));
        out.push(dec_digit_char((v % 10) as u8));
    } else {
        out.push(dec_digit_char((v / 10000) as u8));
        out.push(dec_digit_char(((v / 1000) % 10) as u8));
        out.push(dec_digit_char(((v / 100) % 10) as u8));
        out.push(dec_digit_char(((v / 10) % 10) as u8));
        out.push(dec_digit_char((v % 10) as u8));
    }
    proof {
        assert(final(out)@ =~= old(out)@ + spec_dec(v as nat));
    }
}

/// Append the items and closing bracket of a byte list, from index `i` on,
/// each item preceded by a comma.
fn push_bytes_tail(out: &mut Vec<char>, bytes: &Vec<u8>, i: usize)
    requires
        i <= bytes@.len(),
    ensures
        final(out)@ == old(out)@ + spec_bytes_tail_enc(bytes@.skip(i as int)),
    decreases bytes@.len() - i,
{
    if i == bytes.len() {
        out.push(']');
        proof {
            assert(bytes@.skip(i as int) =~= Seq::<u8>::empty());
            assert(final(out)@ =~= old(out)@ + spec_bytes_tail_enc(bytes@.skip(i as int)));
        }
    } else {
        out.push(',');
        push_dec(out, bytes[i] as u16);
        push_bytes_tail(out, bytes, i + 1);
        proof {
            assert(bytes@.skip(i as int).drop_first() =~= bytes@.skip(i as int + 1));
            assert(bytes@.skip(i as int)[0] == bytes@[i as int]);
            assert(final(out)@ =~= old(out)@ + spec_bytes_tail_enc(bytes@.skip(i as int)));
        }
    }
}

/// Append a whole byte list's items and closing bracket.
fn push_byte_items(out: &mut Vec<char>, bytes: &Vec<u8>)
    ensures
        final(out)@ == old(out)@ + spec_byte_items_enc(bytes@),
{
    if bytes.len() == 0 {
        out.push(']');
        proof {
            assert(final(out)@ =~= old(out)@ + spec_byte_items_enc(bytes@));
        }
    } else {
        push_dec(out, bytes[0] as u16);
        push_bytes_tail(out, bytes, 1);
        proof {
            assert(bytes@.skip(1) =~= bytes@.drop_first());
            assert(final(out)@ =~= old(out)@ + spec_byte_items_enc(bytes@));
        }
    }
}

/// Encode one request as the characters of its wire record.
pub fn encode_request(r: &HardwareRequest) -> (out: Vec<char>)
    ensures
        out@ == spec_encode_req(r@),
{
    let mut out: Vec<char> = Vec::new();
    match r {
        HardwareRequest::MotorWrite { motor, command } => {
            push_lit(&mut out, "{\"MotorWrite\":{\"motor\":\"");
            push_escaped(&mut out, motor.as_str());
            out.push('"');
            push_lit(&mut out, ",\"command\":[");
            push_byte_items(&mut out, command);
            push_lit(&mut out, "}}");
        },
        HardwareRequest::ServoWrite { servo, position } => {
            push_lit(&mut out, "{\"ServoWrite\":{\"servo\":\"");
            push_escaped(&mut out, servo.as_str());
            out.push('"');
            push_lit(&mut out, ",\"position\":");
            push_dec(&mut out, *position);
            push_lit(&mut out, "}}");
        },
        HardwareRequest::EncoderRead { encoder } => {
            push_lit(&mut out, "{\"EncoderRead\":{\"encoder\":\"");
            push_escaped(&mut out, encoder.as_str());
            out.push('"');
            push_lit(&mut out, "}}");
        },
        HardwareRequest::SwitchRead { switch } => {
            push_lit(&mut out, "{\"SwitchRead\":{\"switch\":\"");
            push_escaped(&mut out, switch.as_str());
            out.push('"');
            push_lit(&mut out, "}}");
        },
        HardwareRequest::LedWrite { led, state } => {
            push_lit(&mut out, "{\"LedWrite\":{\"led\":\"");
            push_escaped(&mut out, led.as_str());
            out.push('"');
            push_lit(&mut out, ",\"state\":");
            push_dec(&mut out, *state as u16);
            push_lit(&mut out, "}}");
        },
        HardwareRequest::PadReset => {
            push_lit(&mut out, "\"PadReset\"");
        },
    }
    proof {
        assert(out@ =~= spec_encode_req(r@));
    }
    out
}


/// Match a fixed literal at `pos`.
fn expect_lit(buf: &Vec<char>, pos: usize, lit: &str) -> (r: ParseOutcome<()>)
    requires
        pos <= buf@.len(),
    ensures
        match spec_match_lit(buf@.skip(pos as int), lit@) {
            SpecParse::Found(_, n) => r matches ParseOutcome::Found(_, m) && m == n && pos + m
                <= buf@.len(),
            SpecParse::Incomplete => r is Incomplete,
            SpecParse::Bad => r is Bad,
        },
{
    let ghost s = buf@.skip(pos as int);
    let len = buf.len();
    let n = lit.unicode_len();
    let mut i: usize = 0;
    while i < n
        invariant
            i <= n,
            n == lit@.len(),
            len == buf@.len(),
            pos <= len,
            pos + i <= len,
            s == buf@.skip(pos as int),
            forall|j: int| 0 <= j < i ==> s[j] == lit@[j],
        decreases n - i,
    {
        if pos + i == len {
            proof {
                assert(s.len() == buf@.len() - pos);
                assert(s.len() < lit@.len());
                assert(forall|j: int| 0 <= j < lit@.len() && j < s.len() ==> s[j] == lit@[j]);
            }
            return ParseOutcome::Incomplete;
        }
        if buf[pos + i] != lit.get_char(i) {
            proof {
                assert(s[i as int] != lit@[i as int]);
            }
            return ParseOutcome::Bad;
        }
        i = i + 1;
    }
    proof {
        assert(forall|j: int| 0 <= j < lit@.len() && j < s.len() ==> s[j] == lit@[j]);
        assert(s.len() >= lit@.len());
    }
    ParseOutcome::Found((), n)
}

/// The value of a hexadecimal digit character.
fn hex_val_char(c: char) -> (v: u8)
    requires
        is_hex(c),
    ensures
        v as nat == hex_val(c),
        v < 16,
{
    let cv = c as u32;
    if cv <= 57 {
        (cv - 48) as u8
    } else {
        (cv - 87) as u8
    }
}

/// Parse a string body at `pos`, up to and including its closing quote.
fn parse_string_body(buf: &Vec<char>, pos: usize) -> (r: ParseOutcome<Vec<char>>)
    requires
        pos <= buf@.len(),
    ensures
        match spec_parse_string_body(buf@.skip(pos as int)) {
            SpecParse::Found(t, n) => r matches ParseOutcome::Found(v, m) && v@ == t && m == n
                && pos + m <= buf@.len(),
            SpecParse::Incomplete => r is Incomplete,
            SpecParse::Bad => r is Bad,
        },
    decreases buf@.len() - pos,
{
    let ghost s = buf@.skip(pos as int);
    proof {
        lemma_parse_string_len(s);
    }
    if pos == buf.len() {
        return ParseOutcome::Incomplete;
    }
    let c = buf[pos];
    if c == '"' {
        let v: Vec<char> = Vec::new();
        proof {
            assert(v@ =~= Seq::<char>::empty());
        }
        return ParseOutcome::Found(v, 1);
    }
    if c == '\\' {
        if pos + 1 == buf.len() {
            return ParseOutcome::Incomplete;
        }
        let e = buf[pos + 1];
        let simple = e == '"' || e == '\\' || e == 'b' || e == 't' || e == 'n' || e == 'f' || e
            == 'r';
        if simple {
            proof {
                assert(s.skip(2) =~= buf@.skip(pos as int + 2));
            }
            match parse_string_body(buf, pos + 2) {
                ParseOutcome::Found(mut v, m) => {
                    let u = if e == '"' {
                        '"'
                    } else if e == '\\' {
                        '\\'
                    } else if e == 'b' {
                        '\u{8}'
                    } else if e == 't' {
                        '\t'
                    } else if e == 'n' {
                        '\n'
                    } else if e == 'f' {
                        '\u{c}'
                    } else {
                        '\r'
                    };
                    v.insert(0, u);
                    proof {
                        assert(v@ =~= seq![unescape_char(s[1])] + v@.drop_first());
                    }
                    ParseOutcome::Found(v, m + 2)
                },
                ParseOutcome::Incomplete => ParseOutcome::Incomplete,
                ParseOutcome::Bad => ParseOutcome::Bad,
            }
        } else if e == 'u' {
            if pos + 2 == buf.len() {
                return ParseOutcome::Incomplete;
            }
            if buf[pos + 2] != '0' {
                return ParseOutcome::Bad;
            }
            if pos + 3 == buf.len() {
                return ParseOutcome::Incomplete;
            }
            if buf[pos + 3] != '0' {
                return ParseOutcome::Bad;
            }
            if pos + 4 == buf.len() {
                return ParseOutcome::Incomplete;
            }
            let h = buf[pos + 4];
            let hv = h as u32;
            if !((48 <= hv && hv <= 57) || (97 <= hv && hv <= 102)) {
                return ParseOutcome::Bad;
            }
            if pos + 5 == buf.len() {
                return ParseOutcome::Incomplete;
            }
            let l = buf[pos + 5];
            let lv = l as u32;
            if !((48 <= lv && lv <= 57) || (97 <= lv && lv <= 102)) {
                return ParseOutcome::Bad;
            }
            proof {
                assert(s.skip(6) =~= buf@.skip(pos as int + 6));
            }
            match parse_string_body(buf, pos + 6) {
                ParseOutcome::Found(mut v, m) => {
                    let u = ((hex_val_char(h) * 16 + hex_val_char(l)) as u8) as char;
                    v.insert(0, u);
                    proof {
                        assert(u == hex2_char(s[4], s[5]));
                        assert(v@ =~= seq![hex2_char(s[4], s[5])] + v@.drop_first());
                    }
                    ParseOutcome::Found(v, m + 6)
                },
                ParseOutcome::Incomplete => ParseOutcome::Incomplete,
                ParseOutcome::Bad => ParseOutcome::Bad,
            }
        } else {
            ParseOutcome::Bad
        }
    } else if (c as u32) < 32 {
        ParseOutcome::Bad
    } else {
        proof {
            assert(s.drop_first() =~= buf@.skip(pos as int + 1));
        }
        match parse_string_body(buf, pos + 1) {
            ParseOutcome::Found(mut v, m) => {
                v.insert(0, c);
                proof {
                    assert(v@ =~= seq![s[0]] + v@.drop_first());
                }
                ParseOutcome::Found(v, m + 1)
            },
            ParseOutcome::Incomplete => ParseOutcome::Incomplete,
            ParseOutcome::Bad => ParseOutcome::Bad,
        }
    }
}

/// Consume decimal digits at `pos`, folding them onto `acc`.
fn parse_digits(buf: &Vec<char>, pos: usize, acc: u32, max: u32) -> (r: ParseOutcome<u32>)
    requires
        pos <= buf@.len(),
        acc <= max,
        max <= 65535,
    ensures
        match spec_parse_digits(buf@.skip(pos as int), acc as nat, max as nat) {
            SpecParse::Found(v, n) => r matches ParseOutcome::Found(rv, m) && rv as nat == v && m
                == n && pos + m <= buf@.len() && rv <= max,
            SpecParse::Incomplete => r is Incomplete,
            SpecParse::Bad => r is Bad,
        },
    decreases buf@.len() - pos,
{
    let ghost s = buf@.skip(pos as int);
    proof {
        lemma_parse_digits_len(s, acc as nat, max as nat);
        lemma_parse_digits_val(s, acc as nat, max as nat);
    }
    if pos == buf.len() {
        return ParseOutcome::Incomplete;
    }
    let c = buf[pos];
    let cv = c as u32;
    if !(48 <= cv && cv <= 57) {
        return ParseOutcome::Found(acc, 0);
    }
    let v = acc * 10 + (cv - 48);
    if v > max {
        return ParseOutcome::Bad;
    }
    proof {
        assert(s.drop_first() =~= buf@.skip(pos as int + 1));
    }
    match parse_digits(buf, pos + 1, v, max) {
        ParseOutcome::Found(rv, m) => ParseOutcome::Found(rv, m + 1),
        ParseOutcome::Incomplete => ParseOutcome::Incomplete,
        ParseOutcome::Bad => ParseOutcome::Bad,
    }
}

/// Parse an unsigned decimal number of at most `max` at `pos`.
fn parse_number(buf: &Vec<char>, pos: usize, max: u32) -> (r: ParseOutcome<u32>)
    requires
        pos <= buf@.len(),
        max <= 65535,
    ensures
        match spec_parse_number(buf@.skip(pos as int), max as nat) {
            SpecParse::Found(v, n) => r matches ParseOutcome::Found(rv, m) && rv as nat == v && m
                == n && pos + m <= buf@.len() && rv <= max,
            SpecParse::Incomplete => r is Incomplete,
            SpecParse::Bad => r is Bad,
        },
{
    if pos == buf.len() {
        return ParseOutcome::Incomplete;
    }
    let c = buf[pos];
    if c == '0' {
        return ParseOutcome::Found(0, 1);
    }
    let cv = c as u32;
    if !(48 <= cv && cv <= 57) {
        return ParseOutcome::Bad;
    }
    parse_digits(buf, pos, 0, max)
}

/// Parse the later items of a byte list at `pos`.
fn parse_bytes_rest(buf: &Vec<char>, pos: usize) -> (r: ParseOutcome<Vec<u8>>)
    requires
        pos <= buf@.len(),
    ensures
        match spec_parse_bytes_rest(buf@.skip(pos as int)) {
            SpecParse::Found(t, n) => r matches ParseOutcome::Found(v, m) && v@ == t && m == n
                && pos + m <= buf@.len(),
            SpecParse::Incomplete => r is Incomplete,
            SpecParse::Bad => r is Bad,
        },
    decreases buf@.len() - pos,
{
    let ghost s = buf@.skip(pos as int);
    proof {
        lemma_parse_bytes_rest_len(s);
    }
    if pos == buf.len() {
        return ParseOutcome::Incomplete;
    }
    let c = buf[pos];
    if c == ']' {
        let v: Vec<u8> = Vec::new();
        proof {
            assert(v@ =~= Seq::<u8>::empty());
        }
        return ParseOutcome::Found(v, 1);
    }
    if c != ',' {
        return ParseOutcome::Bad;
    }
    proof {
        assert(s.skip(1) =~= buf@.skip(pos as int + 1));
    }
    match parse_number(buf, pos + 1, 255) {
        ParseOutcome::Found(b, n) => {
            proof {
                lemma_parse_number_len(s.skip(1), 255);
                assert(s.skip(1 + n as int) =~= buf@.skip(pos as int + 1 + n as int));
            }
            match parse_bytes_rest(buf, pos + 1 + n) {
                ParseOutcome::Found(mut v, m) => {
                    v.insert(0, b as u8);
                    proof {
                        assert(v@ =~= seq![b as u8] + v@.drop_first());
                    }
                    ParseOutcome::Found(v, 1 + n + m)
                },
                ParseOutcome::Incomplete => ParseOutcome::Incomplete,
                ParseOutcome::Bad => ParseOutcome::Bad,
            }
        },
        ParseOutcome::Incomplete => ParseOutcome::Incomplete,
        ParseOutcome::Bad => ParseOutcome::Bad,
    }
}

/// Parse a byte list at `pos`, from just after its opening bracket through
/// its closing bracket.
fn parse_byte_list(buf: &Vec<char>, pos: usize) -> (r: ParseOutcome<Vec<u8>>)
    requires
        pos <= buf@.len(),
    ensures
        match spec_parse_byte_list(buf@.skip(pos as int)) {
            SpecParse::Found(t, n) => r matches ParseOutcome::Found(v, m) && v@ == t && m == n
                && pos + m <= buf@.len(),
            SpecParse::Incomplete => r is Incomplete,
            SpecParse::Bad => r is Bad,
        },
{
    let ghost s = buf@.skip(pos as int);
    if pos == buf.len() {
        return ParseOutcome::Incomplete;
    }
    let c = buf[pos];
    if c == ']' {
        let v: Vec<u8> = Vec::new();
        proof {
            assert(v@ =~= Seq::<u8>::empty());
        }
        return ParseOutcome::Found(v, 1);
    }
    match parse_number(buf, pos, 255) {
        ParseOutcome::Found(b, n) => {
            proof {
                lemma_parse_number_len(s, 255);
                assert(s.skip(n as int) =~= buf@.skip(pos as int + n as int));
            }
            match parse_bytes_rest(buf, pos + n) {
                ParseOutcome::Found(mut v, m) => {
                    v.insert(0, b as u8);
                    proof {
                        assert(v@ =~= seq![b as u8] + v@.drop_first());
                    }
                    ParseOutcome::Found(v, n + m)
                },
                ParseOutcome::Incomplete => ParseOutcome::Incomplete,
                ParseOutcome::Bad => ParseOutcome::Bad,
            }
        },
        ParseOutcome::Incomplete => ParseOutcome::Incomplete,
        ParseOutcome::Bad => ParseOutcome::Bad,
    }
}


/// Relies on std's `FromIterator` for `String`: collecting characters
/// builds the string of exactly those characters, in order.
#[verifier::external_body]
fn chars_to_string(v: &Vec<char>) -> (r: String)
    ensures
        r@ == v@,
{
    v.iter().collect()
}

/// Parse a motor record at `pos`.
fn parse_motor(buf: &Vec<char>, pos: usize) -> (r: ParseOutcome<HardwareRequest>)
    requires
        pos <= buf@.len(),
    ensures
        match spec_parse_motor(buf@.skip(pos as int)) {
            SpecParse::Found(m, n) => r matches ParseOutcome::Found(req, used) && req@ == m
                && used == n && pos + used <= buf@.len(),
            SpecParse::Incomplete => r is Incomplete,
            SpecParse::Bad => r is Bad,
        },
{
    let ghost s = buf@.skip(pos as int);
    proof {
        assert(buf.len() == buf@.len());
    }
    match expect_lit(buf, pos, "{\"MotorWrite\":{\"motor\":\"") {
        ParseOutcome::Found(_, n1) => {
            proof {
                assert(s.skip(n1 as int) =~= buf@.skip(pos as int + n1 as int));
            }
            match parse_string_body(buf, pos + n1) {
                ParseOutcome::Found(name_chars, n2) => {
                    proof {
                        assert(s.skip(n1 as int + n2 as int) =~= buf@.skip(
                            pos as int + n1 as int + n2 as int,
                        ));
                    }
                    match expect_lit(buf, pos + n1 + n2, ",\"command\":[") {
                        ParseOutcome::Found(_, n3) => {
                            proof {
                                assert(s.skip(n1 as int + n2 as int + n3 as int) =~= buf@.skip(
                                    pos as int + n1 as int + n2 as int + n3 as int,
                                ));
                            }
                            match parse_byte_list(buf, pos + n1 + n2 + n3) {
                                ParseOutcome::Found(val, n4) => {
                                    proof {
                                        assert(s.skip(
                                            n1 as int + n2 as int + n3 as int + n4 as int,
                                        ) =~= buf@.skip(
                                            pos as int + n1 as int + n2 as int + n3 as int
                                                + n4 as int,
                                        ));
                                    }
                                    match expect_lit(buf, pos + n1 + n2 + n3 + n4, "}}") {
                                        ParseOutcome::Found(_, n5) => {
                                            let name = chars_to_string(&name_chars);
                                            ParseOutcome::Found(
                                                HardwareRequest::MotorWrite { motor: name, command: val },
                                                n1 + n2 + n3 + n4 + n5,
                                            )
                                        },
                                        ParseOutcome::Incomplete => ParseOutcome::Incomplete,
                                        ParseOutcome::Bad => ParseOutcome::Bad,
                                    }
                                },
                                ParseOutcome::Incomplete => ParseOutcome::Incomplete,
                                ParseOutcome::Bad => ParseOutcome::Bad,
                            }
                        },
                        ParseOutcome::Incomplete => ParseOutcome::Incomplete,
                        ParseOutcome::Bad => ParseOutcome::Bad,
                    }
                },
                ParseOutcome::Incomplete => ParseOutcome::Incomplete,
                ParseOutcome::Bad => ParseOutcome::Bad,
            }
        },
        ParseOutcome::Incomplete => ParseOutcome::Incomplete,
        ParseOutcome::Bad => ParseOutcome::Bad,
    }
}

/// Parse a servo record at `pos`.
fn parse_servo(buf: &Vec<char>, pos: usize) -> (r: ParseOutcome<HardwareRequest>)
    requires
        pos <= buf@.len(),
    ensures
        match spec_parse_servo(buf@.skip(pos as int)) {
            SpecParse::Found(m, n) => r matches ParseOutcome::Found(req, used) && req@ == m
                && used == n && pos + used <= buf@.len(),
            SpecParse::Incomplete => r is Incomplete,
            SpecParse::Bad => r is Bad,
        },
{
    let ghost s = buf@.skip(pos as int);
    proof {
        assert(buf.len() == buf@.len());
    }
    match expect_lit(buf, pos, "{\"ServoWrite\":{\"servo\":\"") {
        ParseOutcome::Found(_, n1) => {
            proof {
                assert(s.skip(n1 as int) =~= buf@.skip(pos as int + n1 as int));
            }
            match parse_string_body(buf, pos + n1) {
                ParseOutcome::Found(name_chars, n2) => {
                    proof {
                        assert(s.skip(n1 as int + n2 as int) =~= buf@.skip(
                            pos as int + n1 as int + n2 as int,
                        ));
                    }
                    match expect_lit(buf, pos + n1 + n2, ",\"position\":") {
                        ParseOutcome::Found(_, n3) => {
                            proof {
                                assert(s.skip(n1 as int + n2 as int + n3 as int) =~= buf@.skip(
                                    pos as int + n1 as int + n2 as int + n3 as int,
                                ));
                            }
                            match parse_number(buf, pos + n1 + n2 + n3, 65535) {
                                ParseOutcome::Found(val, n4) => {
                                    proof {
                                        assert(s.skip(
                                            n1 as int + n2 as int + n3 as int + n4 as int,
                                        ) =~= buf@.skip(
                                            pos as int + n1 as int + n2 as int + n3 as int
                                                + n4 as int,
                                        ));
                                    }
                                    match expect_lit(buf, pos + n1 + n2 + n3 + n4, "}}") {
                                        ParseOutcome::Found(_, n5) => {
                                            let name = chars_to_string(&name_chars);
                                            ParseOutcome::Found(
                                                HardwareRequest::ServoWrite { servo: name, position: val as u16 },
                                                n1 + n2 + n3 + n4 + n5,
                                            )
                                        },
                                        ParseOutcome::Incomplete => ParseOutcome::Incomplete,
                                        ParseOutcome::Bad => ParseOutcome::Bad,
                                    }
                                },
                                ParseOutcome::Incomplete => ParseOutcome::Incomplete,
                                ParseOutcome::Bad => ParseOutcome::Bad,
                            }
                        },
                        ParseOutcome::Incomplete => ParseOutcome::Incomplete,
                        ParseOutcome::Bad => ParseOutcome::Bad,
                    }
                },
                ParseOutcome::Incomplete => ParseOutcome::Incomplete,
                ParseOutcome::Bad => ParseOutcome::Bad,
            }
        },
        ParseOutcome::Incomplete => ParseOutcome::Incomplete,
        ParseOutcome::Bad => ParseOutcome::Bad,
    }
}

/// Parse a encoder record at `pos`.
fn parse_encoder(buf: &Vec<char>, pos: usize) -> (r: ParseOutcome<HardwareRequest>)
    requires
        pos <= buf@.len(),
    ensures
        match spec_parse_encoder(buf@.skip(pos as int)) {
            SpecParse::Found(m, n) => r matches ParseOutcome::Found(req, used) && req@ == m
                && used == n && pos + used <= buf@.len(),
            SpecParse::Incomplete => r is Incomplete,
            SpecParse::Bad => r is Bad,
        },
{
    let ghost s = buf@.skip(pos as int);
    proof {
        assert(buf.len() == buf@.len());
    }
    match expect_lit(buf, pos, "{\"EncoderRead\":{\"encoder\":\"") {
        ParseOutcome::Found(_, n1) => {
            proof {
                assert(s.skip(n1 as int) =~= buf@.skip(pos as int + n1 as int));
            }
            match parse_string_body(buf, pos + n1) {
                ParseOutcome::Found(name_chars, n2) => {
                    proof {
                        assert(s.skip(n1 as int + n2 as int) =~= buf@.skip(
                            pos as int + n1 as int + n2 as int,
                        ));
                    }
                    match expect_lit(buf, pos + n1 + n2, "}}") {
                        ParseOutcome::Found(_, n3) => {
                            let name = chars_to_string(&name_chars);
                            ParseOutcome::Found(
                                HardwareRequest::EncoderRead { encoder: name },
                                n1 + n2 + n3,
                            )
                        },
                        ParseOutcome::Incomplete => ParseOutcome::Incomplete,
                        ParseOutcome::Bad => ParseOutcome::Bad,
                    }
                },
                ParseOutcome::Incomplete => ParseOutcome::Incomplete,
                ParseOutcome::Bad => ParseOutcome::Bad,
            }
        },
        ParseOutcome::Incomplete => ParseOutcome::Incomplete,
        ParseOutcome::Bad => ParseOutcome::Bad,
    }
}

/// Parse a switch record at `pos`.
fn parse_switch(buf: &Vec<char>, pos: usize) -> (r: ParseOutcome<HardwareRequest>)
    requires
        pos <= buf@.len(),
    ensures
        match spec_parse_switch(buf@.skip(pos as int)) {
            SpecParse::Found(m, n) => r matches ParseOutcome::Found(req, used) && req@ == m
                && used == n && pos + used <= buf@.len(),
            SpecParse::Incomplete => r is Incomplete,
            SpecParse::Bad => r is Bad,
        },
{
    let ghost s = buf@.skip(pos as int);
    proof {
        assert(buf.len() == buf@.len());
    }
    match expect_lit(buf, pos, "{\"SwitchRead\":{\"switch\":\"") {
        ParseOutcome::Found(_, n1) => {
            proof {
                assert(s.skip(n1 as int) =~= buf@.skip(pos as int + n1 as int));
            }
            match parse_string_body(buf, pos + n1) {
                ParseOutcome::Found(name_chars, n2) => {
                    proof {
                        assert(s.skip(n1 as int + n2 as int) =~= buf@.skip(
                            pos as int + n1 as int + n2 as int,
                        ));
                    }
                    match expect_lit(buf, pos + n1 + n2, "}}") {
                        ParseOutcome::Found(_, n3) => {
                            let name = chars_to_string(&name_chars);
                            ParseOutcome::Found(
                                HardwareRequest::SwitchRead { switch: name },
                                n1 + n2 + n3,
                            )
                        },
                        ParseOutcome::Incomplete => ParseOutcome::Incomplete,
                        ParseOutcome::Bad => ParseOutcome::Bad,
                    }
                },
                ParseOutcome::Incomplete => ParseOutcome::Incomplete,
                ParseOutcome::Bad => ParseOutcome::Bad,
            }
        },
        ParseOutcome::Incomplete => ParseOutcome::Incomplete,
        ParseOutcome::Bad => ParseOutcome::Bad,
    }
}

/// Parse a led record at `pos`.
fn parse_led(buf: &Vec<char>, pos: usize) -> (r: ParseOutcome<HardwareRequest>)
    requires
        pos <= buf@.len(),
    ensures
        match spec_parse_led(buf@.skip(pos as int)) {
            SpecParse::Found(m, n) => r matches ParseOutcome::Found(req, used) && req@ == m
                && used == n && pos + used <= buf@.len(),
            SpecParse::Incomplete => r is Incomplete,
            SpecParse::Bad => r is Bad,
        },
{
    let ghost s = buf@.skip(pos as int);
    proof {
        assert(buf.len() == buf@.len());
    }
    match expect_lit(buf, pos, "{\"LedWrite\":{\"led\":\"") {
        ParseOutcome::Found(_, n1) => {
            proof {
                assert(s.skip(n1 as int) =~= buf@.skip(pos as int + n1 as int));
            }
            match parse_string_body(buf, pos + n1) {
                ParseOutcome::Found(name_chars, n2) => {
                    proof {
                        assert(s.skip(n1 as int + n2 as int) =~= buf@.skip(
                            pos as int + n1 as int + n2 as int,
                        ));
                    }
                    match expect_lit(buf, pos + n1 + n2, ",\"state\":") {
                        ParseOutcome::Found(_, n3) => {
                            proof {
                                assert(s.skip(n1 as int + n2 as int + n3 as int) =~= buf@.skip(
                                    pos as int + n1 as int + n2 as int + n3 as int,
                                ));
                            }
                            match parse_number(buf, pos + n1 + n2 + n3, 255) {
                                ParseOutcome::Found(val, n4) => {
                                    proof {
                                        assert(s.skip(
                                            n1 as int + n2 as int + n3 as int + n4 as int,
                                        ) =~= buf@.skip(
                                            pos as int + n1 as int + n2 as int + n3 as int
                                                + n4 as int,
                                        ));
                                    }
                                    match expect_lit(buf, pos + n1 + n2 + n3 + n4, "}}") {
                                        ParseOutcome::Found(_, n5) => {
                                            let name = chars_to_string(&name_chars);
                                            ParseOutcome::Found(
                                                HardwareRequest::LedWrite { led: name, state: val as u8 },
                                                n1 + n2 + n3 + n4 + n5,
                                            )
                                        },
                                        ParseOutcome::Incomplete => ParseOutcome::Incomplete,
                                        ParseOutcome::Bad => ParseOutcome::Bad,
                                    }
                                },
                                ParseOutcome::Incomplete => ParseOutcome::Incomplete,
                                ParseOutcome::Bad => ParseOutcome::Bad,
                            }
                        },
                        ParseOutcome::Incomplete => ParseOutcome::Incomplete,
                        ParseOutcome::Bad => ParseOutcome::Bad,
                    }
                },
                ParseOutcome::Incomplete => ParseOutcome::Incomplete,
                ParseOutcome::Bad => ParseOutcome::Bad,
            }
        },
        ParseOutcome::Incomplete => ParseOutcome::Incomplete,
        ParseOutcome::Bad => ParseOutcome::Bad,
    }
}

/// Parse one record at `pos`: a bare reset string or a tagged object.
fn parse_request(buf: &Vec<char>, pos: usize) -> (r: ParseOutcome<HardwareRequest>)
    requires
        pos <= buf@.len(),
    ensures
        match spec_parse_req(buf@.skip(pos as int)) {
            SpecParse::Found(m, n) => r matches ParseOutcome::Found(req, used) && req@ == m
                && used == n && pos + used <= buf@.len(),
            SpecParse::Incomplete => r is Incomplete,
            SpecParse::Bad => r is Bad,
        },
{
    let ghost s = buf@.skip(pos as int);
    if pos == buf.len() {
        return ParseOutcome::Incomplete;
    }
    let c = buf[pos];
    if c == '"' {
        return match expect_lit(buf, pos, "\"PadReset\"") {
            ParseOutcome::Found(_, n) => ParseOutcome::Found(HardwareRequest::PadReset, n),
            ParseOutcome::Incomplete => ParseOutcome::Incomplete,
            ParseOutcome::Bad => ParseOutcome::Bad,
        };
    }
    if c != '{' {
        return ParseOutcome::Bad;
    }
    match parse_motor(buf, pos) {
        ParseOutcome::Bad => match parse_servo(buf, pos) {
            ParseOutcome::Bad => match parse_encoder(buf, pos) {
                ParseOutcome::Bad => match parse_switch(buf, pos) {
                    ParseOutcome::Bad => parse_led(buf, pos),
                    ParseOutcome::Found(req, n) => ParseOutcome::Found(req, n),
                    ParseOutcome::Incomplete => ParseOutcome::Incomplete,
                },
                ParseOutcome::Found(req, n) => ParseOutcome::Found(req, n),
                ParseOutcome::Incomplete => ParseOutcome::Incomplete,
            },
            ParseOutcome::Found(req, n) => ParseOutcome::Found(req, n),
            ParseOutcome::Incomplete => ParseOutcome::Incomplete,
        },
        ParseOutcome::Found(req, n) => ParseOutcome::Found(req, n),
        ParseOutcome::Incomplete => ParseOutcome::Incomplete,
    }
}

/// Decode a prefix of the receive buffer: the records it holds, in order,
/// and how many characters they (and any blanks and skipped malformed
/// characters) consumed. Decoding stops before a trailing incomplete
/// record, which the caller keeps for the next read.
pub open spec fn spec_decode_stream(s: Seq<char>) -> (Seq<ReqModel>, int)
    decreases s.len(),
{
    if s.len() == 0 {
        (Seq::empty(), 0)
    } else if is_ws(s[0]) {
        let (rs, n) = spec_decode_stream(s.drop_first());
        (rs, n + 1)
    } else {
        match spec_parse_req(s) {
            SpecParse::Found(r, n) => {
                proof {
                    lemma_parse_req_len(s);
                }
                let (rs, m) = spec_decode_stream(s.skip(n));
                (seq![r] + rs, n + m)
            },
            SpecParse::Incomplete => (Seq::empty(), 0),
            SpecParse::Bad => {
                let (rs, m) = spec_decode_stream(s.drop_first());
                (rs, m + 1)
            },
        }
    }
}

/// A decode pass consumes no more than the buffer.
pub proof fn lemma_decode_stream_consumed(s: Seq<char>)
    ensures
        0 <= spec_decode_stream(s).1 <= s.len(),
    decreases s.len(),
{
    if s.len() > 0 {
        if is_ws(s[0]) {
            lemma_decode_stream_consumed(s.drop_first());
        } else {
            match spec_parse_req(s) {
                SpecParse::Found(r, n) => {
                    lemma_parse_req_len(s);
                    lemma_decode_stream_consumed(s.skip(n));
                },
                SpecParse::Incomplete => {},
                SpecParse::Bad => {
                    lemma_decode_stream_consumed(s.drop_first());
                },
            }
        }
    }
}

/// What a decode pass leaves unconsumed decodes to nothing: the leftover
/// holds at most one incomplete record.
#[verifier::rlimit(100)]
#[verifier::spinoff_prover]
pub proof fn lemma_decode_stream_leftover(s: Seq<char>)
    ensures
        spec_decode_stream(s.skip(spec_decode_stream(s).1)) == (Seq::<ReqModel>::empty(), 0int),
    decreases s.len(),
{
    if s.len() == 0 {
        assert(s.skip(0) =~= s);
    } else if is_ws(s[0]) {
        lemma_decode_stream_consumed(s.drop_first());
        lemma_decode_stream_leftover(s.drop_first());
        let n = spec_decode_stream(s.drop_first()).1;
        assert(s.skip(n + 1) =~= s.drop_first().skip(n));
    } else {
        match spec_parse_req(s) {
            SpecParse::Found(r, n) => {
                lemma_parse_req_len(s);
                lemma_decode_stream_consumed(s.skip(n));
                lemma_decode_stream_leftover(s.skip(n));
                let m = spec_decode_stream(s.skip(n)).1;
                assert(s.skip(n + m) =~= s.skip(n).skip(m));
            },
            SpecParse::Incomplete => {
                assert(s.skip(0) =~= s);
            },
            SpecParse::Bad => {
                lemma_decode_stream_consumed(s.drop_first());
                lemma_decode_stream_leftover(s.drop_first());
                let n = spec_decode_stream(s.drop_first()).1;
                assert(s.skip(n + 1) =~= s.drop_first().skip(n));
            },
        }
    }
}

/// The record values a sequence of requests denotes.
pub open spec fn views_of(rs: Seq<HardwareRequest>) -> Seq<ReqModel> {
    rs.map_values(|r: HardwareRequest| r@)
}

/// Decode every complete record in a prefix of the receive buffer.
pub fn decode_stream(buf: &Vec<char>) -> (r: (Vec<HardwareRequest>, usize))
    ensures
        views_of(r.0@) == spec_decode_stream(buf@).0,
        r.1 == spec_decode_stream(buf@).1,
        r.1 <= buf@.len(),
{
    proof {
        lemma_decode_stream_consumed(buf@);
        assert(buf@.skip(0) =~= buf@);
    }
    let mut out: Vec<HardwareRequest> = Vec::new();
    let mut pos: usize = 0;
    let len = buf.len();
    loop
        invariant
            pos <= len,
            len == buf@.len(),
            spec_decode_stream(buf@).0 =~= views_of(out@) + spec_decode_stream(
                buf@.skip(pos as int),
            ).0,
            spec_decode_stream(buf@).1 == pos + spec_decode_stream(buf@.skip(pos as int)).1,
        decreases len - pos,
    {
        let ghost s = buf@.skip(pos as int);
        proof {
            lemma_decode_stream_consumed(s);
        }
        if pos == len {
            proof {
                assert(s =~= Seq::<char>::empty());
                assert(views_of(out@) + spec_decode_stream(s).0 =~= views_of(out@));
            }
            return (out, pos);
        }
        let c = buf[pos];
        if c == ' ' || c == '\t' || c == '\n' || c == '\r' {
            proof {
                assert(s.drop_first() =~= buf@.skip(pos as int + 1));
            }
            pos = pos + 1;
        } else {
            match parse_request(buf, pos) {
                ParseOutcome::Found(req, n) => {
                    proof {
                        lemma_parse_req_len(s);
                        assert(s.skip(n as int) =~= buf@.skip(pos as int + n as int));
                        assert(views_of(out@.push(req)) =~= views_of(out@) + seq![req@]);
                        assert((views_of(out@) + seq![req@]) + spec_decode_stream(
                            buf@.skip(pos as int + n as int),
                        ).0 =~= views_of(out@) + (seq![req@] + spec_decode_stream(
                            buf@.skip(pos as int + n as int),
                        ).0));
                    }
                    out.push(req);
                    pos = pos + n;
                },
                ParseOutcome::Incomplete => {
                    proof {
                        assert(views_of(out@) + spec_decode_stream(s).0 =~= views_of(out@));
                    }
                    return (out, pos);
                },
                ParseOutcome::Bad => {
                    proof {
                        assert(s.drop_first() =~= buf@.skip(pos as int + 1));
                    }
                    pos = pos + 1;
                },
            }
        }
    }
}

/// The textual rendering of a boolean scalar on the client wire.
pub open spec fn bool_chars(b: bool) -> Seq<char> {
    if b {
        "true"@
    } else {
        "false"@
    }
}

/// Relies on serde_json::to_string for i32: the plain decimal rendering,
/// with a leading minus sign for negative values. Serialising an i32 to a
/// fresh string cannot fail.
#[verifier::external_body]
fn encode_i32_text(v: i32) -> (r: String)
    ensures
        r@ == spec_dec_i32(v),
{
    serde_json::to_string(&v).unwrap()
}

/// Relies on serde_json::to_string for bool: `true` or `false`.
/// Serialising a bool to a fresh string cannot fail.
#[verifier::external_body]
fn encode_bool_text(b: bool) -> (r: String)
    ensures
        r@ == bool_chars(b),
{
    serde_json::to_string(&b).unwrap()
}

/// Encode the record written back to a client for one response: an encoder
/// count or a switch level as a textual scalar; the silent acknowledgement
/// produces nothing.
pub fn encode_response(resp: &HardwareResponse) -> (r: Option<String>)
    ensures
        match resp {
            HardwareResponse::EncoderValue(v) => r matches Some(t) && t@ == spec_dec_i32(*v),
            HardwareResponse::SwitchOn(b) => r matches Some(t) && t@ == bool_chars(*b),
            HardwareResponse::Done => r is None,
        },
{
    match resp {
        HardwareResponse::EncoderValue(v) => Some(encode_i32_text(*v)),
        HardwareResponse::SwitchOn(b) => Some(encode_bool_text(*b)),
        HardwareResponse::Done => None,
    }
}


/// The wire text of a whole sequence of requests: each record's encoding,
/// one after another.
pub open spec fn spec_encode_stream(rs: Seq<ReqModel>) -> Seq<char>
    decreases rs.len(),
{
    if rs.len() == 0 {
        Seq::empty()
    } else {
        spec_encode_req(rs[0]) + spec_encode_stream(rs.drop_first())
    }
}

/// Decoding the wire text of any sequence of requests yields exactly those
/// requests, in order, and consumes all of it.
#[verifier::rlimit(100)]
#[verifier::spinoff_prover]
pub proof fn lemma_stream_round_trip(rs: Seq<ReqModel>)
    ensures
        spec_decode_stream(spec_encode_stream(rs)) == (rs, spec_encode_stream(rs).len() as int),
    decreases rs.len(),
{
    let s = spec_encode_stream(rs);
    if rs.len() == 0 {
        assert(s =~= Seq::<char>::empty());
        assert(rs =~= Seq::<ReqModel>::empty());
    } else {
        let r0 = rs[0];
        let rest = spec_encode_stream(rs.drop_first());
        lemma_parse_req_prefix(r0, rest);
        let n = spec_encode_req(r0).len() as int;
        assert(s =~= spec_encode_req(r0) + rest);
        assert(s[0] == spec_encode_req(r0)[0]);
        assert(s.skip(n) =~= rest);
        lemma_stream_round_trip(rs.drop_first());
        assert(seq![r0] + rs.drop_first() =~= rs);
    }
}

} // verus!
