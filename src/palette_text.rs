//! The text format of custom palettes.
//!
//! The text is read line by line. A line whose first character other than
//! white space is `#` names a color: the first word after the `#` is read as
//! a hexadecimal `RRGGBB` number, and the rest of the line is a comment. Other
//! lines are comments. Reading stops at the first word that is not a
//! hexadecimal number.

use crate::palette::{hex_to_rgb, rgb_of_hex, Entry};
use std::num::ParseIntError;
use vstd::prelude::*;

verus! {

#[verifier::external_type_specification]
#[verifier::external_body]
pub struct ExParseIntError(ParseIntError);

/// White space as Unicode defines it, the characters that `char::is_whitespace`
/// accepts.
pub open spec fn is_space(c: char) -> bool {
    let u = c as u32;
    u == 0x20 || (0x09 <= u <= 0x0d) || u == 0x85 || u == 0xa0 || u == 0x1680 || (0x2000 <= u
        <= 0x200a) || u == 0x2028 || u == 0x2029 || u == 0x202f || u == 0x205f || u == 0x3000
}

/// First position at or after `i`, and before `end`, that holds no white
/// space; `end` if there is none.
pub open spec fn skip_space(s: Seq<char>, i: int, end: int) -> int
    decreases end - i,
{
    if i < end && is_space(s[i]) {
        skip_space(s, i + 1, end)
    } else {
        i
    }
}

/// First position at or after `i`, and before `end`, that holds white space;
/// `end` if there is none.
pub open spec fn word_end(s: Seq<char>, i: int, end: int) -> int
    decreases end - i,
{
    if i < end && !is_space(s[i]) {
        word_end(s, i + 1, end)
    } else {
        i
    }
}

/// Position of the first line break at or after `i`, or the end of the text.
pub open spec fn line_end(s: Seq<char>, i: int) -> int
    decreases s.len() - i,
{
    if 0 <= i < s.len() && s[i] != '\n' {
        line_end(s, i + 1)
    } else {
        i
    }
}

/// The color word of the line `start..end`, if the line names a color.
pub open spec fn line_word(s: Seq<char>, start: int, end: int) -> Option<Seq<char>> {
    let a = skip_space(s, start, end);
    if a < end && s[a] == '#' {
        let b = skip_space(s, a + 1, end);
        if b < end {
            Some(s.subrange(b, word_end(s, b, end)))
        } else {
            None
        }
    } else {
        None
    }
}

/// The color words of the lines that start at `i` or later, in order.
pub open spec fn words_from(s: Seq<char>, i: int) -> Seq<Seq<char>>
    decreases s.len() - i,
{
    let e = line_end(s, i);
    let rest = if i <= e < s.len() {
        words_from(s, e + 1)
    } else {
        Seq::empty()
    };
    match line_word(s, i, e) {
        Some(w) => seq![w] + rest,
        None => rest,
    }
}

/// The color words of a palette text, in order.
pub open spec fn color_words(s: Seq<char>) -> Seq<Seq<char>> {
    words_from(s, 0)
}

/// Whether `c` is a hexadecimal digit.
pub open spec fn is_hex_digit(c: char) -> bool {
    ('0' <= c <= '9') || ('a' <= c <= 'f') || ('A' <= c <= 'F')
}

/// Value of a hexadecimal digit.
pub open spec fn hex_digit_value(c: char) -> int {
    if '0' <= c <= '9' {
        c as int - '0' as int
    } else if 'a' <= c <= 'f' {
        c as int - 'a' as int + 10
    } else {
        c as int - 'A' as int + 10
    }
}

/// Value of a string of hexadecimal digits.
pub open spec fn digits_value(d: Seq<char>) -> int
    decreases d.len(),
{
    if d.len() == 0 {
        0
    } else {
        digits_value(d.drop_last()) * 16 + hex_digit_value(d.last())
    }
}

/// The digits of a word: all of it but a leading `+`.
pub open spec fn hex_digits(w: Seq<char>) -> Seq<char> {
    if w.len() > 0 && w[0] == '+' {
        w.drop_first()
    } else {
        w
    }
}

/// Whether a word is a hexadecimal number that fits a `u32`: an optional `+`,
/// then one or more hexadecimal digits.
pub open spec fn is_hex_number(w: Seq<char>) -> bool {
    let d = hex_digits(w);
    &&& d.len() > 0
    &&& forall|i: int| 0 <= i < d.len() ==> is_hex_digit(#[trigger] d[i])
    &&& digits_value(d) <= u32::MAX
}

/// Value of a hexadecimal word.
pub open spec fn hex_value(w: Seq<char>) -> int {
    digits_value(hex_digits(w))
}

/// The colors that the color words name, when every one of them is a
/// hexadecimal number.
pub open spec fn colors_of_words(words: Seq<Seq<char>>) -> Seq<Seq<u8>> {
    Seq::new(words.len(), |k: int| rgb_of_hex(hex_value(words[k]) as u32))
}

/// The error that reading `word` as a hexadecimal `u32` gives.
pub uninterp spec fn hex_error(word: Seq<char>) -> ParseIntError;

/// The first color word that is not a hexadecimal number is at `k`, and
/// `e` is the error that reading it gives.
pub open spec fn first_bad_word(words: Seq<Seq<char>>, k: int, e: ParseIntError) -> bool {
    &&& 0 <= k < words.len()
    &&& !is_hex_number(words[k])
    &&& forall|j: int| 0 <= j < k ==> is_hex_number(#[trigger] words[j])
    &&& e == hex_error(words[k])
}

/// Relies on `u32::from_str_radix` with radix 16: an optional `+`, then one
/// or more hexadecimal digits of either case, of a value that fits a `u32`;
/// anything else is an error, which depends on the text alone.
#[verifier::external_body]
fn parse_hex(word: &Vec<char>) -> (r: Result<u32, ParseIntError>)
    ensures
        r is Ok <==> is_hex_number(word@),
        r matches Ok(n) ==> n as int == hex_value(word@),
        r matches Err(e) ==> e == hex_error(word@),
{
    let text: String = word.iter().collect();
    u32::from_str_radix(&text, 16)
}

/// The characters of a text.
fn chars_of(s: &str) -> (cs: Vec<char>)
    ensures
        cs@ == s@,
{
    let mut cs: Vec<char> = Vec::new();
    for c in it: s.chars()
        invariant
            cs@ == it.seq().take(it.index() as int),
    {
        cs.push(c);
    }
    cs
}

/// Whether `c` is white space.
fn is_space_char(c: char) -> (b: bool)
    ensures
        b == is_space(c),
{
    let u = c as u32;
    u == 0x20 || (0x09 <= u && u <= 0x0d) || u == 0x85 || u == 0xa0 || u == 0x1680 || (0x2000
        <= u && u <= 0x200a) || u == 0x2028 || u == 0x2029 || u == 0x202f || u == 0x205f || u
        == 0x3000
}

fn skip_space_at(cs: &Vec<char>, i: usize, end: usize) -> (j: usize)
    requires
        i <= end <= cs@.len(),
    ensures
        j as int == skip_space(cs@, i as int, end as int),
        i <= j <= end,
{
    let mut j = i;
    while j < end && is_space_char(cs[j])
        invariant
            i <= j <= end <= cs@.len(),
            skip_space(cs@, j as int, end as int) == skip_space(cs@, i as int, end as int),
        decreases end - j,
    {
        j = j + 1;
    }
    j
}

fn word_end_at(cs: &Vec<char>, i: usize, end: usize) -> (j: usize)
    requires
        i <= end <= cs@.len(),
    ensures
        j as int == word_end(cs@, i as int, end as int),
        i <= j <= end,
{
    let mut j = i;
    while j < end && !is_space_char(cs[j])
        invariant
            i <= j <= end <= cs@.len(),
            word_end(cs@, j as int, end as int) == word_end(cs@, i as int, end as int),
        decreases end - j,
    {
        j = j + 1;
    }
    j
}

fn line_end_at(cs: &Vec<char>, i: usize) -> (j: usize)
    requires
        i <= cs@.len(),
    ensures
        j as int == line_end(cs@, i as int),
        i <= j <= cs@.len(),
{
    let mut j = i;
    while j < cs.len() && cs[j] != '\n'
        invariant
            i <= j <= cs@.len(),
            line_end(cs@, j as int) == line_end(cs@, i as int),
        decreases cs@.len() - j,
    {
        j = j + 1;
    }
    j
}

/// The color word of the line `start..end`, if the line names a color.
fn line_word_at(cs: &Vec<char>, start: usize, end: usize) -> (r: Option<Vec<char>>)
    requires
        start <= end <= cs@.len(),
    ensures
        r is Some <==> line_word(cs@, start as int, end as int) is Some,
        r matches Some(w) ==> line_word(cs@, start as int, end as int) == Some(w@),
{
    let a = skip_space_at(cs, start, end);
    if a < end && cs[a] == '#' {
        let b = skip_space_at(cs, a + 1, end);
        if b < end {
            let e = word_end_at(cs, b, end);
            let mut w: Vec<char> = Vec::new();
            let mut k = b;
            while k < e
                invariant
                    b <= k <= e <= end <= cs@.len(),
                    w@ == cs@.subrange(b as int, k as int),
                decreases e - k,
            {
                w.push(cs[k]);
                k = k + 1;
            }
            Some(w)
        } else {
            None
        }
    } else {
        None
    }
}

/// Reads the colors of a palette text, in order, or the error of the first
/// color word that is not a hexadecimal number.
pub fn parse_palette_text(s: &str) -> (r: Result<Vec<Entry>, ParseIntError>)
    ensures
        r is Ok <==> forall|k: int|
            0 <= k < color_words(s@).len() ==> is_hex_number(#[trigger] color_words(s@)[k]),
        r matches Ok(v) ==> v@.len() == color_words(s@).len() && forall|k: int|
            0 <= k < v@.len() ==> (#[trigger] v@[k])@ == colors_of_words(color_words(s@))[k],
        r is Err ==> exists|k: int| first_bad_word(color_words(s@), k, r->Err_0),
{
    let cs = chars_of(s);
    let n = cs.len();
    let ghost all = color_words(cs@);
    let ghost done: Seq<Seq<char>> = Seq::empty();
    let mut colors: Vec<Entry> = Vec::new();
    let mut i: usize = 0;
    loop
        invariant
            i <= n == cs@.len(),
            cs@ == s@,
            all == color_words(cs@),
            all == done + words_from(cs@, i as int),
            colors@.len() == done.len(),
            forall|k: int| 0 <= k < done.len() ==> is_hex_number(#[trigger] done[k]),
            forall|k: int|
                0 <= k < done.len() ==> (#[trigger] colors@[k])@ == rgb_of_hex(
                    hex_value(done[k]) as u32,
                ),
        decreases n - i,
    {
        let e = line_end_at(&cs, i);
        let ghost rest = if e < n {
            words_from(cs@, e + 1)
        } else {
            Seq::<Seq<char>>::empty()
        };
        assert(words_from(cs@, i as int) == match line_word(cs@, i as int, e as int) {
            Some(w) => seq![w] + rest,
            None => rest,
        });
        match line_word_at(&cs, i, e) {
            Some(w) => {
                match parse_hex(&w) {
                    Ok(hex) => {
                        colors.push(hex_to_rgb(hex));
                        proof {
                            assert(all == (done + seq![w@]) + rest);
                            done = done + seq![w@];
                        }
                    },
                    Err(err) => {
                        proof {
                            assert(all[done.len() as int] == w@);
                            assert(first_bad_word(all, done.len() as int, err));
                            assert(first_bad_word(color_words(s@), done.len() as int, err));
                        }
                        let r: Result<Vec<Entry>, ParseIntError> = Err(err);
                        assert(first_bad_word(color_words(s@), done.len() as int, r->Err_0));
                        return r;
                    },
                }
            },
            None => {},
        }
        if e < n {
            i = e + 1;
        } else {
            proof {
                assert(all == done);
                assert forall|k: int| 0 <= k < colors@.len() implies (#[trigger] colors@[k])@
                    == colors_of_words(all)[k] by {}
            }
            return Ok(colors);
        }
    }
}

} // verus!
