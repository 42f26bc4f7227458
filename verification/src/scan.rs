//! Executable text operations on vectors of characters.

use crate::text;
use vstd::prelude::*;

verus! {

/// The characters of `s`.
pub fn chars_of(s: &str) -> (r: Vec<char>)
    ensures
        r@ == s@,
{
    let mut out: Vec<char> = Vec::new();
    for c in it: s.chars()
        invariant
            it.seq() == s@,
            out@ == it.seq().take(it.index()),
    {
        out.push(c);
    }
    out
}

/// The string that `chars` spells.
pub fn string_of(chars: &Vec<char>) -> (r: String)
    ensures
        r@ == chars@,
{
    let mut out = String::new();
    let mut i: usize = 0;
    while i < chars.len()
        invariant
            i <= chars.len(),
            out@ == chars@.take(i as int),
        decreases chars.len() - i,
    {
        out.push(chars[i]);
        i += 1;
        assert(chars@.take(i as int) =~= chars@.take(i - 1).push(chars@[i - 1]));
    }
    assert(chars@.take(i as int) =~= chars@);
    out
}

/// The characters of `s` from `from` up to `to`.
pub fn slice_of(s: &Vec<char>, from: usize, to: usize) -> (r: Vec<char>)
    requires
        from <= to <= s.len(),
    ensures
        r@ == s@.subrange(from as int, to as int),
{
    let mut out: Vec<char> = Vec::new();
    let mut i: usize = from;
    while i < to
        invariant
            from <= i <= to <= s.len(),
            out@ == s@.subrange(from as int, i as int),
        decreases to - i,
    {
        out.push(s[i]);
        i += 1;
        assert(s@.subrange(from as int, i as int) =~= s@.subrange(from as int, i - 1).push(
            s@[i - 1],
        ));
    }
    out
}

/// Whether the two texts are the same.
pub fn same_text(a: &Vec<char>, b: &Vec<char>) -> (r: bool)
    ensures
        r == (a@ == b@),
{
    if a.len() != b.len() {
        return false;
    }
    let mut i: usize = 0;
    while i < a.len()
        invariant
            i <= a.len() == b.len(),
            a@.take(i as int) == b@.take(i as int),
        decreases a.len() - i,
    {
        if a[i] != b[i] {
            return false;
        }
        i += 1;
        assert(a@.take(i as int) =~= a@.take(i - 1).push(a@[i - 1]));
        assert(b@.take(i as int) =~= b@.take(i - 1).push(b@[i - 1]));
    }
    assert(a@.take(i as int) =~= a@);
    assert(b@.take(i as int) =~= b@);
    true
}

/// Whether `s` is the text `t`.
pub fn equals_str(s: &Vec<char>, t: &str) -> (r: bool)
    ensures
        r == (s@ == t@),
{
    let t = chars_of(t);
    same_text(s, &t)
}

pub fn white_space(c: char) -> (r: bool)
    ensures
        r == text::is_white_space(c),
{
    ('\u{9}' <= c && c <= '\u{d}') || c == '\u{20}' || c == '\u{85}' || c == '\u{a0}' || c
        == '\u{1680}' || ('\u{2000}' <= c && c <= '\u{200a}') || c == '\u{2028}' || c == '\u{2029}'
        || c == '\u{202f}' || c == '\u{205f}' || c == '\u{3000}'
}

/// `s` without white space at its beginning.
pub fn trimmed_start(s: &Vec<char>) -> (r: Vec<char>)
    ensures
        r@ == text::trim_start(s@),
{
    let mut i: usize = 0;
    assert(s@.skip(0) =~= s@);
    while i < s.len() && white_space(s[i])
        invariant
            i <= s.len(),
            text::trim_start(s@) == text::trim_start(s@.skip(i as int)),
        decreases s.len() - i,
    {
        assert(s@.skip(i as int).drop_first() =~= s@.skip(i + 1));
        i += 1;
    }
    assert(s@.subrange(i as int, s@.len() as int) =~= s@.skip(i as int));
    slice_of(s, i, s.len())
}

/// `s` without white space at its end.
pub fn trimmed_end(s: &Vec<char>) -> (r: Vec<char>)
    ensures
        r@ == text::trim_end(s@),
{
    let mut n: usize = s.len();
    assert(s@.take(n as int) =~= s@);
    while n > 0 && white_space(s[n - 1])
        invariant
            n <= s.len(),
            text::trim_end(s@) == text::trim_end(s@.take(n as int)),
        decreases n,
    {
        assert(s@.take(n as int).drop_last() =~= s@.take(n - 1));
        n -= 1;
    }
    assert(s@.subrange(0, n as int) =~= s@.take(n as int));
    slice_of(s, 0, n)
}

/// `s` without white space at either end.
pub fn trimmed(s: &Vec<char>) -> (r: Vec<char>)
    ensures
        r@ == text::trim(s@),
{
    let t = trimmed_start(s);
    trimmed_end(&t)
}

/// Whether `s` holds nothing but white space.
pub fn blank(s: &Vec<char>) -> (r: bool)
    ensures
        r == text::is_blank(s@),
{
    let mut i: usize = 0;
    while i < s.len()
        invariant
            i <= s.len(),
            forall|j: int| 0 <= j < i ==> text::is_white_space(#[trigger] s@[j]),
        decreases s.len() - i,
    {
        if !white_space(s[i]) {
            return false;
        }
        i += 1;
    }
    true
}

/// Whether `pat` stands in `s` at position `i`.
pub fn stands_at(s: &Vec<char>, pat: &Vec<char>, i: usize) -> (r: bool)
    ensures
        r == text::occurs_at(s@, pat@, i as int),
{
    if i > s.len() || pat.len() > s.len() - i {
        return false;
    }
    let mut k: usize = 0;
    while k < pat.len()
        invariant
            k <= pat.len(),
            i + pat.len() <= s.len(),
            forall|j: int| 0 <= j < k ==> s@[i + j] == #[trigger] pat@[j],
        decreases pat.len() - k,
    {
        if s[i + k] != pat[k] {
            assert(s@.subrange(i as int, i + pat.len())[k as int] == s@[i + k]);
            return false;
        }
        k += 1;
    }
    assert(s@.subrange(i as int, i + pat.len()) =~= pat@);
    true
}

/// Whether `s` begins with `pat`.
pub fn begins_with(s: &Vec<char>, pat: &str) -> (r: bool)
    ensures
        r == text::starts_with(s@, pat@),
{
    let p = chars_of(pat);
    stands_at(s, &p, 0)
}

/// The first position at which `pat` stands in `s`.
pub fn find_text(s: &Vec<char>, pat: &str) -> (r: Option<usize>)
    ensures
        match r {
            Some(i) => text::find(s@, pat@) == Some(i as int) && text::occurs_at(s@, pat@, i as int),
            None => text::find(s@, pat@) is None,
        },
{
    let p = chars_of(pat);
    let mut i: usize = 0;
    while i <= s.len() && p.len() <= s.len() - i
        invariant
            p@ == pat@,
            i <= s.len() + 1,
            text::find(s@, pat@) == text::find_from(s@, pat@, i as int),
        decreases s.len() + 1 - i,
    {
        if stands_at(s, &p, i) {
            return Some(i);
        }
        if i == s.len() {
            proof {
                assert(p@.len() == 0);
                assert(s@.subrange(i as int, i + p@.len()) =~= p@);
            }
            return None;
        }
        i += 1;
    }
    None
}

/// The first position that holds `c`.
pub fn position_of(s: &Vec<char>, c: char) -> (r: Option<usize>)
    ensures
        match r {
            Some(i) => text::position(s@, c) == Some(i as int) && i < s.len(),
            None => text::position(s@, c) is None,
        },
{
    let mut i: usize = 0;
    while i < s.len()
        invariant
            i <= s.len(),
            text::position(s@, c) == text::position_from(s@, c, i as int),
        decreases s.len() - i,
    {
        if s[i] == c {
            return Some(i);
        }
        i += 1;
    }
    None
}

/// What a list of texts spells, text by text.
pub open spec fn spelled(v: Seq<Vec<char>>) -> Seq<Seq<char>> {
    v.map_values(|t: Vec<char>| t@)
}

/// The pieces of `s` between the occurrences of `sep`.
pub fn split_at(s: &Vec<char>, sep: char) -> (r: Vec<Vec<char>>)
    ensures
        spelled(r@) == text::split(s@, sep),
{
    let mut out: Vec<Vec<char>> = Vec::new();
    let mut rest: Vec<char> = slice_of(s, 0, s.len());
    assert(rest@ =~= s@);
    assert(spelled(out@) + text::split(rest@, sep) =~= text::split(s@, sep));
    loop
        invariant_except_break
            spelled(out@) + text::split(rest@, sep) == text::split(s@, sep),
        ensures
            spelled(out@) == text::split(s@, sep),
        decreases rest.len(),
    {
        let ghost before = out@;
        match position_of(&rest, sep) {
            Some(i) => {
                out.push(slice_of(&rest, 0, i));
                let next = slice_of(&rest, i + 1, rest.len());
                proof {
                    assert(rest@.subrange(0, i as int) =~= rest@.take(i as int));
                    assert(next@ =~= rest@.skip(i + 1));
                    assert(spelled(out@) =~= spelled(before).push(rest@.take(i as int)));
                    assert(spelled(out@) + text::split(next@, sep) =~= spelled(before)
                        + text::split(rest@, sep));
                }
                rest = next;
            },
            None => {
                out.push(rest);
                proof {
                    assert(spelled(out@) =~= spelled(before) + text::split(rest@, sep));
                }
                break;
            },
        }
    }
    out
}

/// The words of `s`, which white space sets apart.
pub fn words_of(s: &Vec<char>) -> (r: Vec<Vec<char>>)
    ensures
        spelled(r@) == text::words(s@),
{
    let mut out: Vec<Vec<char>> = Vec::new();
    let mut rest: Vec<char> = trimmed_start(s);
    proof {
        text::lemma_trim_start(s@);
        assert(text::trim_start(rest@) == rest@);
        assert(text::words(rest@) == text::words(s@));
        assert(spelled(out@) + text::words(rest@) =~= text::words(s@));
    }
    while rest.len() > 0
        invariant
            spelled(out@) + text::words(rest@) == text::words(s@),
            text::trim_start(rest@) == rest@,
        decreases rest.len(),
    {
        let ghost before = out@;
        proof {
            text::lemma_trim_start(rest@);
            text::lemma_word_len(rest@);
        }
        let n = word_end(&rest);
        out.push(slice_of(&rest, 0, n));
        let tail = slice_of(&rest, n, rest.len());
        let next = trimmed_start(&tail);
        proof {
            assert(rest@.subrange(0, n as int) =~= rest@.take(n as int));
            assert(tail@ =~= rest@.skip(n as int));
            text::lemma_trim_start(tail@);
            assert(text::trim_start(next@) == next@);
            assert(text::words(next@) == text::words(tail@));
            assert(spelled(out@) =~= spelled(before).push(rest@.take(n as int)));
            assert(spelled(out@) + text::words(next@) =~= spelled(before) + text::words(rest@));
        }
        rest = next;
    }
    assert(text::words(rest@) =~= Seq::empty());
    assert(spelled(out@) + text::words(rest@) =~= spelled(out@));
    out
}

/// The number of characters before the first white space.
fn word_end(s: &Vec<char>) -> (n: usize)
    ensures
        n == text::word_len(s@),
        n <= s.len(),
{
    let mut n: usize = 0;
    assert(s@.skip(0) =~= s@);
    while n < s.len() && !white_space(s[n])
        invariant
            n <= s.len(),
            text::word_len(s@) == n + text::word_len(s@.skip(n as int)),
        decreases s.len() - n,
    {
        assert(s@.skip(n as int).drop_first() =~= s@.skip(n + 1));
        n += 1;
    }
    n
}

/// The first word of `s`, empty when there is none.
pub fn leading_word(s: &Vec<char>) -> (r: Vec<char>)
    ensures
        r@ == text::first_word(s@),
{
    let t = trimmed_start(s);
    let n = word_end(&t);
    assert(t@.subrange(0, n as int) =~= t@.take(n as int));
    slice_of(&t, 0, n)
}

/// The lines of `s`.
pub fn lines_of(s: &Vec<char>) -> (r: Vec<Vec<char>>)
    ensures
        spelled(r@) == text::lines(s@),
{
    let mut out: Vec<Vec<char>> = Vec::new();
    let mut rest: Vec<char> = slice_of(s, 0, s.len());
    assert(rest@ =~= s@);
    assert(spelled(out@) + text::lines(rest@) =~= text::lines(s@));
    while rest.len() > 0
        invariant
            spelled(out@) + text::lines(rest@) == text::lines(s@),
        decreases rest.len(),
    {
        let ghost before = out@;
        match position_of(&rest, '\n') {
            Some(i) => {
                let n: usize = if i > 0 && rest[i - 1] == '\r' {
                    i - 1
                } else {
                    i
                };
                out.push(slice_of(&rest, 0, n));
                let next = slice_of(&rest, i + 1, rest.len());
                proof {
                    assert(rest@.subrange(0, n as int) =~= text::strip_cr(rest@.take(i as int)));
                    assert(next@ =~= rest@.skip(i + 1));
                    assert(spelled(out@) =~= spelled(before).push(
                        text::strip_cr(rest@.take(i as int)),
                    ));
                    assert(spelled(out@) + text::lines(next@) =~= spelled(before) + text::lines(
                        rest@,
                    ));
                }
                rest = next;
            },
            None => {
                let ghost last = rest@;
                out.push(rest);
                rest = Vec::new();
                proof {
                    assert(spelled(out@) =~= spelled(before).push(last));
                    assert(spelled(out@) + text::lines(rest@) =~= spelled(before) + text::lines(
                        last,
                    ));
                }
            },
        }
    }
    assert(spelled(out@) + text::lines(rest@) =~= spelled(out@));
    out
}

/// Appends `t` to `s`.
pub fn append_text(s: &mut Vec<char>, t: &Vec<char>)
    ensures
        final(s)@ == old(s)@ + t@,
{
    let mut i: usize = 0;
    assert(s@ =~= old(s)@ + t@.take(0));
    while i < t.len()
        invariant
            i <= t.len(),
            s@ == old(s)@ + t@.take(i as int),
        decreases t.len() - i,
    {
        s.push(t[i]);
        i += 1;
        assert(t@.take(i as int) =~= t@.take(i - 1).push(t@[i - 1]));
    }
    assert(t@.take(i as int) =~= t@);
}

/// The pieces one after the other, with a line feed between two of them.
pub fn joined_lines(pieces: &Vec<Vec<char>>) -> (r: Vec<char>)
    ensures
        r@ == text::join_lines(spelled(pieces@)),
{
    let mut out: Vec<char> = Vec::new();
    let mut i: usize = 0;
    while i < pieces.len()
        invariant
            i <= pieces.len(),
            out@ == text::join_lines(spelled(pieces@).take(i as int)),
        decreases pieces.len() - i,
    {
        let ghost all = spelled(pieces@);
        if i > 0 {
            out.push('\n');
        }
        append_text(&mut out, &pieces[i]);
        i += 1;
        assert(all.take(i as int).drop_last() =~= all.take(i - 1));
    }
    assert(spelled(pieces@).take(i as int) =~= spelled(pieces@));
    out
}

/// Fewer digits write no larger number.
proof fn lemma_decimal_prefix(s: Seq<char>, i: int)
    requires
        0 <= i <= s.len(),
        text::all_digits(s),
    ensures
        0 <= text::decimal_value(s.take(i)) <= text::decimal_value(s),
    decreases s.len(),
{
    if i == s.len() {
        assert(s.take(i) =~= s);
        if i > 0 {
            lemma_decimal_prefix(s.drop_last(), i - 1);
            assert(s.drop_last().take(i - 1) =~= s.drop_last());
        }
    } else {
        lemma_decimal_prefix(s.drop_last(), i);
        assert(s.drop_last().take(i) =~= s.take(i));
    }
}

/// The 64-bit number that `s` writes.
pub fn read_unsigned(s: &Vec<char>) -> (r: Option<u64>)
    ensures
        r == text::unsigned_value(s@),
{
    let from: usize = if s.len() > 0 && s[0] == '+' {
        1
    } else {
        0
    };
    let ghost d = text::unsigned_digits(s@);
    assert(d =~= s@.skip(from as int));
    if from == s.len() {
        return None;
    }
    let mut value: u64 = 0;
    let mut i: usize = from;
    while i < s.len()
        invariant
            from <= i <= s.len(),
            d == s@.skip(from as int),
            d == text::unsigned_digits(s@),
            text::all_digits(d.take(i - from)),
            value == text::decimal_value(d.take(i - from)),
        decreases s.len() - i,
    {
        let c = s[i];
        assert(d[i - from] == c);
        if !('0' <= c && c <= '9') {
            return None;
        }
        let digit: u64 = (c as u32 - '0' as u32) as u64;
        let ghost longer = d.take(i + 1 - from);
        proof {
            assert(longer.drop_last() =~= d.take(i - from));
            assert(longer.last() == c);
            assert forall|j: int| 0 <= j < longer.len() implies text::is_digit(
                #[trigger] longer[j],
            ) by {
                if j < i - from {
                    assert(longer[j] == d.take(i - from)[j]);
                }
            }
            if text::all_digits(d) {
                lemma_decimal_prefix(d, i + 1 - from);
            }
        }
        if value > (u64::MAX - digit) / 10 {
            return None;
        }
        value = value * 10 + digit;
        i += 1;
    }
    assert(d.take(i - from) =~= d);
    Some(value)
}

fn digit_of(d: u64) -> (c: char)
    requires
        d < 10,
    ensures
        c == text::digit_char(d as int),
{
    let table: [char; 10] = ['0', '1', '2', '3', '4', '5', '6', '7', '8', '9'];
    table[d as usize]
}

fn digits_of(n: u64) -> (r: Vec<char>)
    ensures
        r@ == text::digits(n as nat),
    decreases n,
{
    if n < 10 {
        let mut out: Vec<char> = Vec::new();
        out.push(digit_of(n));
        assert(out@ =~= text::digits(n as nat));
        out
    } else {
        let mut out = digits_of(n / 10);
        out.push(digit_of(n % 10));
        out
    }
}

/// `n` in decimal.
pub fn number_of(n: u64) -> (r: String)
    ensures
        r@ == text::digits(n as nat),
{
    let digits = digits_of(n);
    string_of(&digits)
}

/// `n` in decimal.
pub fn decimal_of(n: i64) -> (r: String)
    ensures
        r@ == text::decimal(n as int),
{
    if n < 0 {
        let size: u64 = (-(n + 1)) as u64 + 1;
        let digits = digits_of(size);
        let mut out: Vec<char> = Vec::new();
        out.push('-');
        append_text(&mut out, &digits);
        assert(out@ =~= text::decimal(n as int));
        string_of(&out)
    } else {
        let digits = digits_of(n as u64);
        string_of(&digits)
    }
}

fn hex_digit_of(d: u16) -> (c: char)
    requires
        d < 16,
    ensures
        c == text::hex_char(d as int),
{
    let table: [char; 16] = [
        '0',
        '1',
        '2',
        '3',
        '4',
        '5',
        '6',
        '7',
        '8',
        '9',
        'a',
        'b',
        'c',
        'd',
        'e',
        'f',
    ];
    table[d as usize]
}

/// `n` as four hexadecimal digits.
pub fn hex4_of(n: u16) -> (r: String)
    ensures
        r@ == text::hex4(n as nat),
{
    let mut out: Vec<char> = Vec::new();
    out.push(hex_digit_of(n / 4096));
    out.push(hex_digit_of((n / 256) % 16));
    out.push(hex_digit_of((n / 16) % 16));
    out.push(hex_digit_of(n % 16));
    assert(out@ =~= text::hex4(n as nat));
    string_of(&out)
}

/// The texts of a list of characters are those of its members, in their order.
pub proof fn law_spelled_in_order(v: Seq<Vec<char>>, i: int)
    requires
        0 <= i < v.len(),
    ensures
        spelled(v).len() == v.len(),
        spelled(v)[i] == v[i]@,
{
}

} // verus!
