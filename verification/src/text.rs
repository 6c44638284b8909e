//! Text: white space, ASCII and decimal numbers.
use vstd::prelude::*;

verus! {

/// Whether `c` has the Unicode property `White_Space`.
pub open spec fn is_white_space(c: char) -> bool {
    let v = c as u32;
    ||| 0x09 <= v <= 0x0d
    ||| v == 0x20
    ||| v == 0x85
    ||| v == 0xa0
    ||| v == 0x1680
    ||| 0x2000 <= v <= 0x200a
    ||| v == 0x2028
    ||| v == 0x2029
    ||| v == 0x202f
    ||| v == 0x205f
    ||| v == 0x3000
}

/// `s` from its first character on that is not white space.
pub open spec fn trimmed_start(s: Seq<char>) -> Seq<char>
    decreases s.len(),
{
    if s.len() > 0 && is_white_space(s[0]) {
        trimmed_start(s.skip(1))
    } else {
        s
    }
}

/// `s` up to its last character that is not white space.
pub open spec fn trimmed_end(s: Seq<char>) -> Seq<char>
    decreases s.len(),
{
    if s.len() > 0 && is_white_space(s.last()) {
        trimmed_end(s.drop_last())
    } else {
        s
    }
}

/// `s` without white space at either end.
pub open spec fn trimmed(s: Seq<char>) -> Seq<char> {
    trimmed_end(trimmed_start(s))
}

/// `c` in lower case, if it is an ASCII letter.
pub open spec fn lower_char(c: char) -> char {
    if 'A' <= c <= 'Z' {
        ((c as u32) + 32) as char
    } else {
        c
    }
}

/// `s` with its ASCII letters in lower case.
pub open spec fn lower_case(s: Seq<char>) -> Seq<char> {
    s.map_values(|c: char| lower_char(c))
}

/// The text of ASCII bytes.
pub open spec fn ascii_text(bytes: Seq<u8>) -> Seq<char> {
    bytes.map_values(|b: u8| b as char)
}

/// `bytes` up to the last one that is not ASCII.
pub open spec fn before_ascii_end(bytes: Seq<u8>) -> Seq<u8>
    decreases bytes.len(),
{
    if bytes.len() > 0 && bytes.last() < 128 {
        before_ascii_end(bytes.drop_last())
    } else {
        bytes
    }
}

/// The ASCII at the end of `bytes`.
pub open spec fn ascii_end(bytes: Seq<u8>) -> Seq<u8> {
    bytes.skip(before_ascii_end(bytes).len() as int)
}

/// The characters of a text that may be missing.
pub open spec fn optional_text(s: Option<String>) -> Option<Seq<char>> {
    match s {
        Some(text) => Some(text@),
        None => None,
    }
}

/// The character of one decimal digit.
pub open spec fn digit_char(d: nat) -> char
    recommends
        d < 10,
{
    (('0' as u32) + d) as char
}

/// The decimal representation of `n`, without leading zeros.
pub open spec fn decimal(n: nat) -> Seq<char>
    decreases n,
{
    if n < 10 {
        seq![digit_char(n)]
    } else {
        decimal(n / 10).push(digit_char(n % 10))
    }
}

fn digit_str(d: u64) -> (s: &'static str)
    requires
        d < 10,
    ensures
        s@ == seq![digit_char(d as nat)],
{
    proof {
        reveal_strlit("0");
        reveal_strlit("1");
        reveal_strlit("2");
        reveal_strlit("3");
        reveal_strlit("4");
        reveal_strlit("5");
        reveal_strlit("6");
        reveal_strlit("7");
        reveal_strlit("8");
        reveal_strlit("9");
    }
    if d == 0 {
        "0"
    } else if d == 1 {
        "1"
    } else if d == 2 {
        "2"
    } else if d == 3 {
        "3"
    } else if d == 4 {
        "4"
    } else if d == 5 {
        "5"
    } else if d == 6 {
        "6"
    } else if d == 7 {
        "7"
    } else if d == 8 {
        "8"
    } else {
        "9"
    }
}

/// Appends the decimal representation of `n` to `out`.
pub fn push_decimal(out: &mut String, n: u64)
    ensures
        final(out)@ == old(out)@ + decimal(n as nat),
    decreases n,
{
    if n >= 10 {
        push_decimal(out, n / 10);
    }
    out.append(digit_str(n % 10));
}

/// Whether `c` is a decimal digit.
pub open spec fn is_digit(c: char) -> bool {
    '0' <= c <= '9'
}

/// The number that a text of decimal digits reads as.
pub open spec fn number(text: Seq<char>) -> int
    decreases text.len(),
{
    if text.len() == 0 {
        0
    } else {
        number(text.drop_last()) * 10 + (text.last() as int - '0' as int)
    }
}

/// Whether `text` is how `n` is written: digits that read as `n`, and no zero before
/// another digit.
pub open spec fn writes(text: Seq<char>, n: int) -> bool {
    &&& text.len() > 0
    &&& forall|i: int| 0 <= i < text.len() ==> is_digit(#[trigger] text[i])
    &&& number(text) == n
    &&& text.len() > 1 ==> text[0] != '0'
}

/// The decimal representation of a number consists of digits that read as the number,
/// without a leading zero.
pub proof fn decimal_reads_back(n: nat)
    ensures
        writes(decimal(n), n as int),
    decreases n,
{
    let text = decimal(n);
    if n < 10 {
        assert(text.drop_last() =~= Seq::empty());
        assert(number(text) == n) by {
            reveal_with_fuel(number, 2);
        }
    } else {
        let front = decimal(n / 10);
        decimal_reads_back(n / 10);
        assert(text.drop_last() =~= front);
        assert(text[0] == front[0]);
        assert(n == n / 10 * 10 + n % 10);
        if front.len() == 1 {
            assert(front.drop_last() =~= Seq::empty());
            reveal_with_fuel(number, 2);
        }
        assert forall|i: int| 0 <= i < text.len() implies is_digit(#[trigger] text[i]) by {
            if i < front.len() {
                assert(text[i] == front[i]);
            }
        }
    }
}

/// White space behind a text that does not end in it is dropped, and nothing else.
pub proof fn trimming_drops_the_white_space_behind(text: Seq<char>, end: Seq<char>)
    requires
        text.len() > 0 ==> !is_white_space(text.last()),
        forall|i: int| 0 <= i < end.len() ==> is_white_space(#[trigger] end[i]),
    ensures
        trimmed_end(text + end) == text,
    decreases end.len(),
{
    if end.len() == 0 {
        assert(text + end =~= text);
    } else {
        let shorter = end.drop_last();
        assert forall|i: int| 0 <= i < shorter.len() implies is_white_space(
            #[trigger] shorter[i],
        ) by {
            assert(shorter[i] == end[i]);
        }
        assert(is_white_space(end.last()));
        trimming_drops_the_white_space_behind(text, shorter);
        assert((text + end).drop_last() =~= text + shorter);
    }
}

/// White space before a text that does not begin with it is dropped, and nothing else.
pub proof fn trimming_drops_the_white_space_before(start: Seq<char>, text: Seq<char>)
    requires
        text.len() > 0 ==> !is_white_space(text[0]),
        forall|i: int| 0 <= i < start.len() ==> is_white_space(#[trigger] start[i]),
    ensures
        trimmed_start(start + text) == text,
    decreases start.len(),
{
    if start.len() == 0 {
        assert(start + text =~= text);
    } else {
        let shorter = start.skip(1);
        assert(is_white_space(start[0]));
        assert forall|i: int| 0 <= i < shorter.len() implies is_white_space(
            #[trigger] shorter[i],
        ) by {
            assert(shorter[i] == start[i + 1]);
        }
        trimming_drops_the_white_space_before(shorter, text);
        assert((start + text).skip(1) =~= shorter + text);
    }
}

/// A text keeps all that stands between the white space at its ends.
pub proof fn trimming_drops_the_white_space_around(
    start: Seq<char>,
    text: Seq<char>,
    end: Seq<char>,
)
    requires
        text.len() > 0 ==> !is_white_space(text[0]) && !is_white_space(text.last()),
        forall|i: int| 0 <= i < start.len() ==> is_white_space(#[trigger] start[i]),
        forall|i: int| 0 <= i < end.len() ==> is_white_space(#[trigger] end[i]),
    ensures
        trimmed(start + text + end) == text,
{
    if text.len() > 0 {
        trimming_drops_the_white_space_before(start, text + end);
        assert(start + (text + end) =~= start + text + end);
        trimming_drops_the_white_space_behind(text, end);
    } else {
        let all = start + text + end;
        assert forall|i: int| 0 <= i < all.len() implies is_white_space(#[trigger] all[i]) by {
            if i < start.len() {
                assert(all[i] == start[i]);
            } else {
                assert(all[i] == end[i - start.len()]);
            }
        }
        trimming_drops_the_white_space_before(all, text);
        assert(all + text =~= all);
    }
}

/// Lower case changes the letters from `A` to `Z` and no other character.
pub proof fn lower_case_changes_capitals_only(s: Seq<char>)
    ensures
        lower_case(s).len() == s.len(),
        forall|i: int|
            0 <= i < s.len() ==> if 'A' <= s[i] <= 'Z' {
                (#[trigger] lower_case(s)[i]) as int == s[i] as int + ('a' as int - 'A' as int)
            } else {
                lower_case(s)[i] == s[i]
            },
{
}

} // verus!
