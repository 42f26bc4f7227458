//! Text as a sequence of characters: searching, splitting, trimming and the
//! reading and writing of numbers.

use vstd::prelude::*;

verus! {

/// `String::push` appends one character at the end.
pub assume_specification[ String::push ](s: &mut String, c: char)
    ensures
        final(s)@ == old(s)@.push(c),
;

/// Characters with the Unicode property `White_Space`.
pub open spec fn is_white_space(c: char) -> bool {
    ||| '\u{9}' <= c <= '\u{d}'
    ||| c == '\u{20}'
    ||| c == '\u{85}'
    ||| c == '\u{a0}'
    ||| c == '\u{1680}'
    ||| '\u{2000}' <= c <= '\u{200a}'
    ||| c == '\u{2028}'
    ||| c == '\u{2029}'
    ||| c == '\u{202f}'
    ||| c == '\u{205f}'
    ||| c == '\u{3000}'
}

/// `s` from the first character on that is no white space.
pub open spec fn trim_start(s: Seq<char>) -> Seq<char>
    decreases s.len(),
{
    if s.len() > 0 && is_white_space(s[0]) {
        trim_start(s.drop_first())
    } else {
        s
    }
}

/// `s` up to the last character that is no white space.
pub open spec fn trim_end(s: Seq<char>) -> Seq<char>
    decreases s.len(),
{
    if s.len() > 0 && is_white_space(s.last()) {
        trim_end(s.drop_last())
    } else {
        s
    }
}

/// `s` without white space at either end.
pub open spec fn trim(s: Seq<char>) -> Seq<char> {
    trim_end(trim_start(s))
}

/// Whether `s` holds nothing but white space.
pub open spec fn is_blank(s: Seq<char>) -> bool {
    forall|i: int| 0 <= i < s.len() ==> is_white_space(#[trigger] s[i])
}

/// Whether `pat` stands in `s` at position `i`.
pub open spec fn occurs_at(s: Seq<char>, pat: Seq<char>, i: int) -> bool {
    0 <= i && i + pat.len() <= s.len() && s.subrange(i, i + pat.len()) == pat
}

/// Whether `s` begins with `pat`.
pub open spec fn starts_with(s: Seq<char>, pat: Seq<char>) -> bool {
    occurs_at(s, pat, 0)
}

/// The first position from `i` on at which `pat` stands in `s`.
pub open spec fn find_from(s: Seq<char>, pat: Seq<char>, i: int) -> Option<int>
    decreases s.len() - i + 1,
{
    if i + pat.len() > s.len() {
        None
    } else if occurs_at(s, pat, i) {
        Some(i)
    } else {
        find_from(s, pat, i + 1)
    }
}

/// The first position at which `pat` stands in `s`.
pub open spec fn find(s: Seq<char>, pat: Seq<char>) -> Option<int> {
    find_from(s, pat, 0)
}

/// The first position from `i` on that holds `c`.
pub open spec fn position_from(s: Seq<char>, c: char, i: int) -> Option<int>
    decreases s.len() - i,
{
    if i >= s.len() {
        None
    } else if s[i] == c {
        Some(i)
    } else {
        position_from(s, c, i + 1)
    }
}

/// The first position that holds `c`.
pub open spec fn position(s: Seq<char>, c: char) -> Option<int> {
    position_from(s, c, 0)
}

/// What `position_from` finds: the first place from `i` on, and only where there
/// is one.
pub proof fn lemma_position_from(s: Seq<char>, c: char, i: int)
    requires
        0 <= i,
    ensures
        match position_from(s, c, i) {
            Some(k) => i <= k < s.len() && s[k] == c && forall|j: int| i <= j < k ==> s[j] != c,
            None => forall|j: int| i <= j < s.len() ==> s[j] != c,
        },
    decreases s.len() - i,
{
    if i < s.len() && s[i] != c {
        lemma_position_from(s, c, i + 1);
    }
}

/// What `position` finds.
pub proof fn lemma_position(s: Seq<char>, c: char)
    ensures
        match position(s, c) {
            Some(k) => 0 <= k < s.len() && s[k] == c && forall|j: int| 0 <= j < k ==> s[j] != c,
            None => forall|j: int| 0 <= j < s.len() ==> s[j] != c,
        },
{
    lemma_position_from(s, c, 0);
}

/// The pieces of `s` between the occurrences of `sep`.
pub open spec fn split(s: Seq<char>, sep: char) -> Seq<Seq<char>>
    decreases s.len(),
{
    match position(s, sep) {
        Some(i) => if 0 <= i < s.len() {
            seq![s.take(i)] + split(s.skip(i + 1), sep)
        } else {
            seq![s]
        },
        None => seq![s],
    }
}

/// There is always at least one piece.
pub proof fn lemma_split_nonempty(s: Seq<char>, sep: char)
    ensures
        split(s, sep).len() > 0,
{
}

/// The texts that a list of strings holds.
pub open spec fn texts(v: Seq<String>) -> Seq<Seq<char>> {
    v.map_values(|s: String| s@)
}

/// The text of an optional string.
pub open spec fn optional(s: Option<String>) -> Option<Seq<char>> {
    match s {
        Some(s) => Some(s@),
        None => None,
    }
}

/// The text of an optional string slice.
pub open spec fn optional_str(s: Option<&str>) -> Option<Seq<char>> {
    match s {
        Some(s) => Some(s@),
        None => None,
    }
}

/// Whether `c` stands nowhere in `s`.
pub open spec fn lacks(s: Seq<char>, c: char) -> bool {
    forall|i: int| 0 <= i < s.len() ==> #[trigger] s[i] != c
}

/// A text without the separator is a single piece.
pub proof fn lemma_split_single(s: Seq<char>, sep: char)
    requires
        lacks(s, sep),
    ensures
        split(s, sep) == seq![s],
{
    lemma_position(s, sep);
}

/// The first piece ends at the first separator; the others are the pieces of what
/// follows.
pub proof fn lemma_split_first(a: Seq<char>, sep: char, rest: Seq<char>)
    requires
        lacks(a, sep),
    ensures
        split(a.push(sep) + rest, sep) == seq![a] + split(rest, sep),
{
    let s = a.push(sep) + rest;
    lemma_position(s, sep);
    assert(s[a.len() as int] == sep);
    let k = position(s, sep)->0;
    if k < a.len() {
        assert(s[k] == a[k]);
    }
    assert(k == a.len());
    assert(s.take(k) =~= a);
    assert(s.skip(k + 1) =~= rest);
}

/// A text that neither begins nor ends with white space is trimmed already.
pub proof fn lemma_trimmed(s: Seq<char>)
    requires
        s.len() > 0,
        !is_white_space(s[0]),
        !is_white_space(s.last()),
    ensures
        trim(s) == s,
{
}

/// The number of characters before the first white space.
pub open spec fn word_len(s: Seq<char>) -> nat
    decreases s.len(),
{
    if s.len() == 0 || is_white_space(s[0]) {
        0
    } else {
        1 + word_len(s.drop_first())
    }
}

/// The first word of `s`, empty when there is none.
pub open spec fn first_word(s: Seq<char>) -> Seq<char> {
    let t = trim_start(s);
    t.take(word_len(t) as int)
}

/// The words of `s`, which white space sets apart.
pub open spec fn words(s: Seq<char>) -> Seq<Seq<char>>
    decreases s.len(),
    via words_decreases
{
    let t = trim_start(s);
    if t.len() == 0 {
        Seq::empty()
    } else {
        seq![t.take(word_len(t) as int)] + words(t.skip(word_len(t) as int))
    }
}

#[via_fn]
proof fn words_decreases(s: Seq<char>) {
    lemma_trim_start(s);
    lemma_word_len(trim_start(s));
}

/// What `trim_start` leaves is an end of `s`; it is empty or begins with a
/// character that is no white space.
pub proof fn lemma_trim_start(s: Seq<char>)
    ensures
        trim_start(s).len() <= s.len(),
        trim_start(s) == s.skip(s.len() - trim_start(s).len()),
        trim_start(s).len() > 0 ==> !is_white_space(trim_start(s)[0]),
    decreases s.len(),
{
    if s.len() > 0 && is_white_space(s[0]) {
        lemma_trim_start(s.drop_first());
    }
    assert(trim_start(s) =~= s.skip(s.len() - trim_start(s).len()));
}

/// What `trim_end` leaves is a beginning of `s`; it is empty or ends with a
/// character that is no white space.
pub proof fn lemma_trim_end(s: Seq<char>)
    ensures
        trim_end(s).len() <= s.len(),
        trim_end(s) == s.take(trim_end(s).len() as int),
        trim_end(s).len() > 0 ==> !is_white_space(trim_end(s).last()),
    decreases s.len(),
{
    if s.len() > 0 && is_white_space(s.last()) {
        lemma_trim_end(s.drop_last());
    }
    assert(trim_end(s) =~= s.take(trim_end(s).len() as int));
}

/// A word is no longer than the text, and not empty where the text begins with
/// one.
pub proof fn lemma_word_len(s: Seq<char>)
    ensures
        word_len(s) <= s.len(),
        s.len() > 0 && !is_white_space(s[0]) ==> word_len(s) > 0,
    decreases s.len(),
{
    if s.len() > 0 && !is_white_space(s[0]) {
        lemma_word_len(s.drop_first());
    }
}

/// `s` without one carriage return at its end.
pub open spec fn strip_cr(s: Seq<char>) -> Seq<char> {
    if s.len() > 0 && s.last() == '\r' {
        s.drop_last()
    } else {
        s
    }
}

/// The lines of `s`: each ends at a line feed, which a carriage return may
/// precede; neither belongs to the line. A last line needs no line feed.
pub open spec fn lines(s: Seq<char>) -> Seq<Seq<char>>
    decreases s.len(),
{
    if s.len() == 0 {
        Seq::empty()
    } else {
        match position(s, '\n') {
            Some(i) => if 0 <= i < s.len() {
                seq![strip_cr(s.take(i))] + lines(s.skip(i + 1))
            } else {
                seq![s]
            },
            None => seq![s],
        }
    }
}

/// The pieces one after the other, with a line feed between two of them.
pub open spec fn join_lines(pieces: Seq<Seq<char>>) -> Seq<char>
    decreases pieces.len(),
{
    if pieces.len() == 0 {
        Seq::empty()
    } else if pieces.len() == 1 {
        pieces[0]
    } else {
        join_lines(pieces.drop_last()) + seq!['\n'] + pieces.last()
    }
}

pub open spec fn is_digit(c: char) -> bool {
    '0' <= c <= '9'
}

pub open spec fn digit_value(c: char) -> int {
    c as int - '0' as int
}

pub open spec fn all_digits(s: Seq<char>) -> bool {
    forall|i: int| 0 <= i < s.len() ==> is_digit(#[trigger] s[i])
}

/// The number that the decimal digits `s` write.
pub open spec fn decimal_value(s: Seq<char>) -> int
    decreases s.len(),
{
    if s.len() == 0 {
        0
    } else {
        10 * decimal_value(s.drop_last()) + digit_value(s.last())
    }
}

/// The digits of a number, which a plus sign may precede.
pub open spec fn unsigned_digits(s: Seq<char>) -> Seq<char> {
    if s.len() > 0 && s[0] == '+' {
        s.drop_first()
    } else {
        s
    }
}

/// Digits write a number that is not negative.
pub proof fn lemma_decimal_value(s: Seq<char>)
    requires
        all_digits(s),
    ensures
        0 <= decimal_value(s),
    decreases s.len(),
{
    if s.len() > 0 {
        lemma_decimal_value(s.drop_last());
    }
}

/// The 64-bit number that `s` writes: at least one decimal digit and nothing
/// else but a plus sign in front.
pub open spec fn unsigned_value(s: Seq<char>) -> Option<u64> {
    let d = unsigned_digits(s);
    if d.len() > 0 && all_digits(d) && decimal_value(d) <= u64::MAX {
        Some(decimal_value(d) as u64)
    } else {
        None
    }
}

/// The decimal digit that stands for `d`.
pub open spec fn digit_char(d: int) -> char {
    ('0' as int + d) as char
}

/// The decimal digits of `n`.
pub open spec fn digits(n: nat) -> Seq<char>
    decreases n,
{
    if n < 10 {
        seq![digit_char(n as int)]
    } else {
        digits(n / 10).push(digit_char((n % 10) as int))
    }
}

/// `n` in decimal, with a minus sign in front of a negative number.
pub open spec fn decimal(n: int) -> Seq<char> {
    if n < 0 {
        seq!['-'] + digits((-n) as nat)
    } else {
        digits(n as nat)
    }
}

/// The digits of a number write that number.
pub proof fn lemma_digits(n: nat)
    ensures
        digits(n).len() > 0,
        all_digits(digits(n)),
        decimal_value(digits(n)) == n,
    decreases n,
{
    if n < 10 {
        assert(digits(n).drop_last() =~= Seq::<char>::empty());
        assert(decimal_value(Seq::<char>::empty()) == 0);
    } else {
        lemma_digits(n / 10);
        assert(digits(n).drop_last() =~= digits(n / 10));
    }
}

/// Different numbers are written differently.
pub proof fn lemma_decimal_differs(a: int, b: int)
    requires
        a != b,
    ensures
        decimal(a) != decimal(b),
{
    let x = if a < 0 { -a } else { a };
    let y = if b < 0 { -b } else { b };
    lemma_digits(x as nat);
    lemma_digits(y as nat);
    if a < 0 {
        assert(decimal(a)[0] == '-');
        assert(decimal(a).skip(1) =~= digits(x as nat));
    } else {
        assert(is_digit(decimal(a)[0]));
    }
    if b < 0 {
        assert(decimal(b)[0] == '-');
        assert(decimal(b).skip(1) =~= digits(y as nat));
    } else {
        assert(is_digit(decimal(b)[0]));
    }
}

/// The hexadecimal digit that stands for `d`.
pub open spec fn hex_char(d: int) -> char {
    if d < 10 {
        digit_char(d)
    } else {
        ('a' as int + d - 10) as char
    }
}

/// A number below 65536 as four hexadecimal digits.
pub open spec fn hex4(n: nat) -> Seq<char> {
    seq![
        hex_char((n / 4096) as int),
        hex_char(((n / 256) % 16) as int),
        hex_char(((n / 16) % 16) as int),
        hex_char((n % 16) as int),
    ]
}

/// White space are the tab and the four characters behind it, the space, the next line,
/// the no-break space, the spaces of other scripts and of typography, and the line and
/// paragraph separators.
pub proof fn law_white_space(c: char)
    ensures
        is_white_space(c) <==> {
            let n = c as u32;
            n == 9 || n == 10 || n == 11 || n == 12 || n == 13 || n == 32 || n == 133 || n == 160
                || n == 5760 || (8192 <= n && n <= 8202) || n == 8232 || n == 8233 || n == 8239
                || n == 8287 || n == 12288
        },
{
}

/// What stands between white space is trimmed out of it, whole and unchanged.
pub proof fn law_trim(before: Seq<char>, s: Seq<char>, after: Seq<char>)
    requires
        forall|i: int| 0 <= i < before.len() ==> is_white_space(#[trigger] before[i]),
        forall|i: int| 0 <= i < after.len() ==> is_white_space(#[trigger] after[i]),
        s.len() > 0 ==> !is_white_space(s[0]) && !is_white_space(s[s.len() - 1]),
    ensures
        trim(before + s + after) == s,
{
    if s.len() > 0 {
        assert((s + after)[0] == s[0]);
        law_trim_start(before, s + after);
        assert(before + s + after =~= before + (s + after));
        law_trim_end(s, after);
    } else {
        let all = before + s + after;
        assert forall|i: int| 0 <= i < all.len() implies is_white_space(#[trigger] all[i]) by {
            if i < before.len() {
                assert(all[i] == before[i]);
            } else {
                assert(all[i] == after[i - before.len()]);
            }
        }
        law_trim_start(all, Seq::empty());
        assert(all + Seq::<char>::empty() =~= all);
        law_trim_end(Seq::empty(), Seq::empty());
        assert(Seq::<char>::empty() + Seq::<char>::empty() =~= Seq::<char>::empty());
        assert(s =~= Seq::<char>::empty());
    }
}

/// White space in front is trimmed, and nothing else.
pub proof fn law_trim_start(before: Seq<char>, s: Seq<char>)
    requires
        forall|i: int| 0 <= i < before.len() ==> is_white_space(#[trigger] before[i]),
        s.len() > 0 ==> !is_white_space(s[0]),
    ensures
        trim_start(before + s) == s,
    decreases before.len(),
{
    let all = before + s;
    if before.len() > 0 {
        assert(all[0] == before[0]);
        let rest = before.drop_first();
        assert forall|i: int| 0 <= i < rest.len() implies is_white_space(#[trigger] rest[i]) by {
            assert(rest[i] == before[i + 1]);
        }
        assert(all.drop_first() =~= rest + s);
        law_trim_start(rest, s);
    } else {
        assert(all =~= s);
    }
}

/// White space at the end is trimmed, and nothing else.
pub proof fn law_trim_end(s: Seq<char>, after: Seq<char>)
    requires
        forall|i: int| 0 <= i < after.len() ==> is_white_space(#[trigger] after[i]),
        s.len() > 0 ==> !is_white_space(s[s.len() - 1]),
    ensures
        trim_end(s + after) == s,
    decreases after.len(),
{
    let all = s + after;
    if after.len() > 0 {
        assert(all.last() == after[after.len() - 1]);
        let rest = after.drop_last();
        assert forall|i: int| 0 <= i < rest.len() implies is_white_space(#[trigger] rest[i]) by {
            assert(rest[i] == after[i]);
        }
        assert(all.drop_last() =~= s + rest);
        law_trim_end(s, rest);
    } else {
        assert(all =~= s);
    }
}

/// A text is blank where nothing is left of it without white space, and only there.
pub proof fn law_blank(s: Seq<char>)
    ensures
        is_blank(s) <==> trim(s) == Seq::<char>::empty(),
        is_blank(s) <==> trim_end(s) == Seq::<char>::empty(),
        is_blank(s) <==> forall|i: int| 0 <= i < s.len() ==> is_white_space(#[trigger] s[i]),
{
    if is_blank(s) {
        assert(s + Seq::<char>::empty() + Seq::<char>::empty() =~= s);
        law_trim(s, Seq::empty(), Seq::empty());
        assert(Seq::<char>::empty() + s =~= s);
        law_trim_end(Seq::empty(), s);
    } else {
        let k = choose|k: int| 0 <= k < s.len() && !is_white_space(#[trigger] s[k]);
        lemma_trim_start(s);
        let t = trim_start(s);
        lemma_trim_end(t);
        lemma_kept_by_trim_end(s, k);
        lemma_kept_by_trim_start(s, k);
        let j = k - (s.len() - t.len());
        assert(t[j] == s[k]);
        lemma_kept_by_trim_end(t, j);
    }
}

/// What is no white space stays when the end is trimmed.
proof fn lemma_kept_by_trim_end(s: Seq<char>, k: int)
    requires
        0 <= k < s.len(),
        !is_white_space(s[k]),
    ensures
        k < trim_end(s).len(),
    decreases s.len(),
{
    if is_white_space(s.last()) {
        assert(s.drop_last()[k] == s[k]);
        lemma_kept_by_trim_end(s.drop_last(), k);
    }
}

/// What is no white space stays when the start is trimmed.
proof fn lemma_kept_by_trim_start(s: Seq<char>, k: int)
    requires
        0 <= k < s.len(),
        !is_white_space(s[k]),
    ensures
        s.len() - trim_start(s).len() <= k,
    decreases s.len(),
{
    if is_white_space(s[0]) {
        assert(s.drop_first()[k - 1] == s[k]);
        lemma_kept_by_trim_start(s.drop_first(), k - 1);
    }
}

/// A text begins with its beginnings, and with nothing else.
pub proof fn law_starts_with(s: Seq<char>, pat: Seq<char>, rest: Seq<char>)
    ensures
        starts_with(pat + rest, pat),
        starts_with(s, pat) <==> s.len() >= pat.len() && s.take(pat.len() as int) == pat,
        starts_with(s, pat) ==> s == pat + s.skip(pat.len() as int),
{
    assert((pat + rest).subrange(0, pat.len() as int) =~= pat);
    if s.len() >= pat.len() {
        assert(s.subrange(0, pat.len() as int) =~= s.take(pat.len() as int));
        assert(s =~= s.take(pat.len() as int) + s.skip(pat.len() as int));
    }
}

/// A text is found at the first place where it stands, and nowhere if it stands nowhere.
pub proof fn law_find(s: Seq<char>, pat: Seq<char>)
    ensures
        match find(s, pat) {
            Some(i) => {
                &&& 0 <= i <= s.len() - pat.len()
                &&& s.subrange(i, i + pat.len()) == pat
                &&& forall|j: int| 0 <= j < i ==> #[trigger] s.subrange(j, j + pat.len()) != pat
            },
            None => forall|j: int|
                0 <= j <= s.len() - pat.len() ==> #[trigger] s.subrange(j, j + pat.len()) != pat,
        },
{
    lemma_find_from(s, pat, 0);
}

/// What `find_from` finds.
pub proof fn lemma_find_from(s: Seq<char>, pat: Seq<char>, i: int)
    requires
        0 <= i,
    ensures
        match find_from(s, pat, i) {
            Some(k) => {
                &&& i <= k <= s.len() - pat.len()
                &&& s.subrange(k, k + pat.len()) == pat
                &&& forall|j: int| i <= j < k ==> #[trigger] s.subrange(j, j + pat.len()) != pat
            },
            None => forall|j: int|
                i <= j <= s.len() - pat.len() ==> #[trigger] s.subrange(j, j + pat.len()) != pat,
        },
    decreases s.len() - i + 1,
{
    if i + pat.len() <= s.len() && !occurs_at(s, pat, i) {
        lemma_find_from(s, pat, i + 1);
    }
}

/// A character is found at the first place that holds it, and nowhere if none does.
pub proof fn law_position(s: Seq<char>, c: char)
    ensures
        match position(s, c) {
            Some(k) => 0 <= k < s.len() && s[k] == c && forall|j: int| 0 <= j < k ==> s[j] != c,
            None => forall|j: int| 0 <= j < s.len() ==> s[j] != c,
        },
{
    lemma_position(s, c);
}

/// A text is cut at every separator and nowhere else: the first piece reaches up to the
/// first separator, and the others are those of what follows it.
pub proof fn law_split(a: Seq<char>, sep: char, rest: Seq<char>)
    requires
        forall|i: int| 0 <= i < a.len() ==> #[trigger] a[i] != sep,
    ensures
        split(a, sep) == seq![a],
        split(a + seq![sep] + rest, sep) == seq![a] + split(rest, sep),
{
    lemma_split_single(a, sep);
    lemma_split_first(a, sep, rest);
    assert(a + seq![sep] + rest =~= a.push(sep) + rest);
}

/// The words of a text are what stands between its white space: after the white space in
/// front comes the first word, which reaches up to the next white space, and then the
/// words of what follows. White space alone has none.
pub proof fn law_words(before: Seq<char>, word: Seq<char>, rest: Seq<char>)
    requires
        forall|i: int| 0 <= i < before.len() ==> is_white_space(#[trigger] before[i]),
        forall|i: int| 0 <= i < word.len() ==> !is_white_space(#[trigger] word[i]),
        word.len() > 0,
        rest.len() > 0 ==> is_white_space(rest[0]),
    ensures
        words(before) == Seq::<Seq<char>>::empty(),
        first_word(before) == Seq::<char>::empty(),
        words(before + word + rest) == seq![word] + words(rest),
        first_word(before + word + rest) == word,
{
    law_trim_start(before, Seq::empty());
    assert(before + Seq::<char>::empty() =~= before);
    assert(Seq::<char>::empty().take(0) =~= Seq::<char>::empty());
    let t = word + rest;
    assert(t[0] == word[0]);
    law_trim_start(before, t);
    assert(before + word + rest =~= before + t);
    lemma_first_word_len(word, rest);
    assert(t.take(word.len() as int) =~= word);
    assert(t.skip(word.len() as int) =~= rest);
}

/// A word ends where white space begins.
proof fn lemma_first_word_len(word: Seq<char>, rest: Seq<char>)
    requires
        forall|i: int| 0 <= i < word.len() ==> !is_white_space(#[trigger] word[i]),
        rest.len() > 0 ==> is_white_space(rest[0]),
    ensures
        word_len(word + rest) == word.len(),
    decreases word.len(),
{
    let t = word + rest;
    if word.len() == 0 {
        assert(t =~= rest);
    } else {
        assert(t[0] == word[0]);
        let less = word.drop_first();
        assert forall|i: int| 0 <= i < less.len() implies !is_white_space(#[trigger] less[i]) by {
            assert(less[i] == word[i + 1]);
        }
        assert(t.drop_first() =~= less + rest);
        lemma_first_word_len(less, rest);
    }
}

/// A text is cut into lines at every line feed. A carriage return in front of the line
/// feed is no part of the line, and a last line needs no line feed.
pub proof fn law_lines(line: Seq<char>, rest: Seq<char>)
    requires
        forall|i: int| 0 <= i < line.len() ==> #[trigger] line[i] != '\n',
    ensures
        lines(Seq::empty()) == Seq::<Seq<char>>::empty(),
        line.len() > 0 ==> lines(line) == seq![line],
        lines(line + seq!['\r', '\n'] + rest) == seq![line] + lines(rest),
        line.len() == 0 || line[line.len() - 1] != '\r' ==> lines(line + seq!['\n'] + rest)
            == seq![line] + lines(rest),
{
    lemma_position(line, '\n');
    let a = line + seq!['\n'] + rest;
    lemma_position(a, '\n');
    assert(a[line.len() as int] == '\n');
    let i = position(a, '\n')->0;
    if i < line.len() {
        assert(a[i] == line[i]);
    }
    assert(i == line.len());
    assert(a.take(i) =~= line);
    assert(a.skip(i + 1) =~= rest);
    let returned = line.push('\r');
    let b = line + seq!['\r', '\n'] + rest;
    lemma_position(b, '\n');
    assert(b[(line.len() + 1) as int] == '\n');
    let k = position(b, '\n')->0;
    if k < line.len() {
        assert(b[k] == line[k]);
    }
    assert(b[line.len() as int] == '\r');
    assert(k == line.len() + 1);
    assert(b.take(k) =~= returned);
    assert(returned.drop_last() =~= line);
    assert(b.skip(k + 1) =~= rest);
}

/// Pieces are joined in their order, with one line feed between two of them.
pub proof fn law_join_lines(pieces: Seq<Seq<char>>, piece: Seq<char>)
    ensures
        join_lines(Seq::empty()) == Seq::<char>::empty(),
        join_lines(seq![piece]) == piece,
        pieces.len() > 0 ==> join_lines(pieces.push(piece)) == join_lines(pieces) + seq!['\n']
            + piece,
{
    assert(pieces.push(piece).drop_last() =~= pieces);
}

/// Joined lines are cut apart again into the same lines, where none of them holds a line
/// feed or ends with a carriage return, and the last one is not empty.
pub proof fn law_joined_lines_come_apart(pieces: Seq<Seq<char>>)
    requires
        pieces.len() > 0,
        pieces.last().len() > 0,
        forall|i: int, k: int|
            0 <= i < pieces.len() && 0 <= k < pieces[i].len() ==> #[trigger] pieces[i][k] != '\n',
        forall|i: int|
            0 <= i < pieces.len() && (#[trigger] pieces[i]).len() > 0 ==> pieces[i].last() != '\r',
    ensures
        lines(join_lines(pieces)) == pieces,
    decreases pieces.len(),
{
    if pieces.len() == 1 {
        assert forall|k: int| 0 <= k < pieces[0].len() implies #[trigger] pieces[0][k] != '\n' by {}
        law_lines(pieces[0], Seq::empty());
        assert(pieces =~= seq![pieces[0]]);
    } else {
        let head = pieces[0];
        let rest = pieces.drop_first();
        assert forall|i: int, k: int|
            0 <= i < rest.len() && 0 <= k < rest[i].len() implies #[trigger] rest[i][k]
            != '\n' by {
            assert(rest[i] == pieces[i + 1]);
            assert(pieces[i + 1][k] != '\n');
        }
        assert forall|i: int| 0 <= i < rest.len() && (#[trigger] rest[i]).len() > 0 implies rest[i].last()
            != '\r' by {
            assert(rest[i] == pieces[i + 1]);
        }
        law_joined_lines_come_apart(rest);
        lemma_join_first(head, rest);
        assert(pieces =~= seq![head] + rest);
        assert forall|k: int| 0 <= k < head.len() implies #[trigger] head[k] != '\n' by {
            assert(pieces[0][k] != '\n');
        }
        law_lines(head, join_lines(rest));
    }
}

/// The first of the joined pieces comes first.
pub proof fn lemma_join_first(head: Seq<char>, rest: Seq<Seq<char>>)
    requires
        rest.len() > 0,
    ensures
        join_lines(seq![head] + rest) == head + seq!['\n'] + join_lines(rest),
    decreases rest.len(),
{
    let all = seq![head] + rest;
    if rest.len() == 1 {
        assert(all.drop_last() =~= seq![head]);
        assert(join_lines(seq![head]) == head);
    } else {
        assert(all.drop_last() =~= seq![head] + rest.drop_last());
        lemma_join_first(head, rest.drop_last());
        assert(join_lines(all) =~= head + seq!['\n'] + join_lines(rest));
    }
}

/// A number is read from its decimal digits: one digit more is ten times as much and the
/// digit. A plus sign may stand in front. Nothing else is a number, nor is what exceeds
/// 64 bits.
pub proof fn law_unsigned(s: Seq<char>, c: char)
    ensures
        unsigned_value(Seq::empty()) is None,
        unsigned_value(seq!['+']) is None,
        '0' <= c <= '9' ==> unsigned_value(seq![c]) == Some((c as u32 - '0' as u32) as u64),
        !('0' <= c <= '9') ==> unsigned_value(seq![c]) is None,
        s.len() > 0 && s[0] == '+' ==> unsigned_value(seq!['+'] + s) is None,
        s.len() > 0 && s[0] != '+' ==> unsigned_value(seq!['+'] + s) == unsigned_value(s),
        s.len() > 0 && s != seq!['+'] ==> match unsigned_value(s) {
            Some(n) => if '0' <= c <= '9' && 10 * n + (c as u32 - '0' as u32) <= u64::MAX {
                unsigned_value(s.push(c)) == Some((10 * n + (c as u32 - '0' as u32)) as u64)
            } else {
                unsigned_value(s.push(c)) is None
            },
            None => unsigned_value(s.push(c)) is None,
        },
{
    assert(seq![c].drop_last() =~= Seq::<char>::empty());
    assert(decimal_value(Seq::<char>::empty()) == 0);
    assert(seq!['+'].drop_first() =~= Seq::<char>::empty());
    if '0' <= c <= '9' {
        assert(unsigned_digits(seq![c]) == seq![c]);
        assert(decimal_value(seq![c]) == c as u32 - '0' as u32);
    }
    if s.len() > 0 {
        assert((seq!['+'] + s).drop_first() =~= s);
        if s[0] == '+' {
            assert(!is_digit(s[0]));
            assert(!all_digits(s));
        }
    }
    if !('0' <= c <= '9') {
        if c == '+' {
            assert(seq![c] =~= seq!['+']);
        } else {
            assert(unsigned_digits(seq![c]) == seq![c]);
            assert(!is_digit(seq![c][0]));
            assert(!all_digits(seq![c]));
        }
    }
    if s.len() > 0 && s != seq!['+'] {
        let d = unsigned_digits(s);
        let e = unsigned_digits(s.push(c));
        if s[0] == '+' {
            assert(s.push(c).drop_first() =~= s.drop_first().push(c));
            if s.len() == 1 {
                assert(s =~= seq!['+']);
            }
        }
        assert(e == d.push(c));
        assert(d.len() > 0);
        assert(e.drop_last() =~= d);
        assert(decimal_value(e) == 10 * decimal_value(d) + digit_value(c));
        if all_digits(d) {
            lemma_decimal_value(d);
            if is_digit(c) {
                assert(all_digits(e));
            } else {
                assert(e[d.len() as int] == c);
                assert(!all_digits(e));
            }
        } else {
            let k = choose|k: int| 0 <= k < d.len() && !is_digit(#[trigger] d[k]);
            assert(e[k] == d[k]);
            assert(!all_digits(e));
        }
    }
}

/// A number that is written is read back as it was. It is written without a zero in
/// front, and with a minus sign in front where it is negative.
pub proof fn law_decimal(n: u64)
    ensures
        unsigned_value(decimal(n as int)) == Some(n),
        n > 0 ==> decimal(n as int)[0] != '0',
        n > 0 ==> decimal(-(n as int)) == seq!['-'] + decimal(n as int),
        decimal(0) == seq!['0'],
{
    lemma_digits(n as nat);
    lemma_digits_lead(n as nat);
    assert(is_digit(digits(n as nat)[0]));
    assert(digits(0) =~= seq!['0']);
}

/// The first digit of a number is no zero, unless it is zero itself.
proof fn lemma_digits_lead(n: nat)
    ensures
        digits(n).len() > 0,
        n > 0 ==> digits(n)[0] != '0',
    decreases n,
{
    if n >= 10 {
        lemma_digits_lead(n / 10);
    }
}

/// The value of a hexadecimal digit.
pub open spec fn hex_value(c: char) -> int {
    if '0' <= c <= '9' {
        c as int - '0' as int
    } else {
        c as int - 'a' as int + 10
    }
}

/// Four hexadecimal digits in lower case write their number.
pub proof fn law_hex4(n: nat)
    requires
        n < 65536,
    ensures
        hex4(n).len() == 4,
        forall|i: int|
            0 <= i < 4 ==> '0' <= #[trigger] hex4(n)[i] <= '9' || 'a' <= hex4(n)[i] <= 'f',
        n == 4096 * hex_value(hex4(n)[0]) + 256 * hex_value(hex4(n)[1]) + 16 * hex_value(hex4(n)[2])
            + hex_value(hex4(n)[3]),
{
    lemma_hex_digits(n);
    lemma_hex_char((n / 4096) as int);
    lemma_hex_char(((n / 256) % 16) as int);
    lemma_hex_char(((n / 16) % 16) as int);
    lemma_hex_char((n % 16) as int);
    let h = hex4(n);
    assert(h[0] == hex_char((n / 4096) as int));
    assert(h[1] == hex_char(((n / 256) % 16) as int));
    assert(h[2] == hex_char(((n / 16) % 16) as int));
    assert(h[3] == hex_char((n % 16) as int));
}

/// A number is the sum of its hexadecimal digits, each at its place.
proof fn lemma_hex_digits(n: nat)
    requires
        n < 65536,
    ensures
        n == 4096 * (n / 4096) + 256 * ((n / 256) % 16) + 16 * ((n / 16) % 16) + n % 16,
        n / 4096 < 16,
{
    let x = n / 16;
    let y = x / 16;
    assert(n / 256 == y);
    assert(n / 4096 == y / 16);
    assert(n == 16 * x + n % 16);
    assert(x == 16 * y + x % 16);
    assert(y == 16 * (y / 16) + y % 16);
}

proof fn lemma_hex_char(d: int)
    requires
        0 <= d < 16,
    ensures
        hex_value(hex_char(d)) == d,
        '0' <= hex_char(d) <= '9' || 'a' <= hex_char(d) <= 'f',
{
}

/// An optional text is the text of the string, an empty one too, and none only where there
/// is no string. A list of strings has their texts, in their order.
pub proof fn law_strings_say_their_texts(s: String, t: &str, v: Seq<String>, i: int)
    ensures
        optional(Some(s)) == Some(s@),
        optional(None) is None,
        optional_str(Some(t)) == Some(t@),
        optional_str(None) is None,
        texts(v).len() == v.len(),
        0 <= i < v.len() ==> texts(v)[i] == v[i]@,
{
}

/// A character is lacking where it stands nowhere.
pub proof fn law_lacks(s: Seq<char>, c: char)
    ensures
        lacks(s, c) <==> !s.contains(c),
{
    if !lacks(s, c) {
        let i = choose|i: int| 0 <= i < s.len() && #[trigger] s[i] == c;
        assert(s.contains(c));
    }
}

} // verus!
