//! Text: the character-level operations that the parsers and the messages of
//! this library are made of, each stated over sequences of characters.

use vstd::prelude::*;
use vstd::string::*;

verus! {

/// `String::push` appends one character.
pub assume_specification[ String::push ](s: &mut String, c: char)
    ensures
        final(s)@ == old(s)@.push(c),
;

/// The texts of a sequence of strings.
pub open spec fn texts(items: Seq<String>) -> Seq<Seq<char>> {
    items.map_values(|s: String| s@)
}

/// The text of an optional string.
pub open spec fn opt_text(s: Option<String>) -> Option<Seq<char>> {
    match s {
        Some(s) => Some(s@),
        None => None,
    }
}

/// The characters of a text.
pub fn chars_of(s: &str) -> (out: Vec<char>)
    ensures
        out@ == s@,
{
    let mut out: Vec<char> = Vec::new();
    for c in it: s.chars()
        invariant
            out@ == s@.take(it.index()),
            it.seq() == s@,
    {
        out.push(c);
        assert(out@ =~= s@.take(it.index() + 1));
    }
    assert(s@.take(s@.len() as int) =~= s@);
    out
}

/// The text made of the characters `start..end`.
pub fn string_range(chars: &[char], start: usize, end: usize) -> (out: String)
    requires
        start <= end <= chars@.len(),
    ensures
        out@ == chars@.subrange(start as int, end as int),
{
    let mut out = String::new();
    let mut i: usize = start;
    assert(out@ =~= chars@.subrange(start as int, start as int));
    while i < end
        invariant
            start <= i <= end <= chars@.len(),
            out@ == chars@.subrange(start as int, i as int),
        decreases end - i,
    {
        out.push(chars[i]);
        i = i + 1;
        assert(out@ =~= chars@.subrange(start as int, i as int));
    }
    out
}

/// Whether two texts are the same.
pub fn str_eq(a: &str, b: &str) -> (r: bool)
    ensures
        r == (a@ == b@),
{
    let x = chars_of(a);
    let y = chars_of(b);
    chars_eq(x.as_slice(), y.as_slice())
}

/// Whether two sequences of characters are the same.
pub fn chars_eq(a: &[char], b: &[char]) -> (r: bool)
    ensures
        r == (a@ == b@),
{
    if a.len() != b.len() {
        return false;
    }
    let mut i: usize = 0;
    while i < a.len()
        invariant
            i <= a@.len(),
            a@.len() == b@.len(),
            forall|j: int| 0 <= j < i ==> a@[j] == b@[j],
        decreases a@.len() - i,
    {
        if a[i] != b[i] {
            return false;
        }
        i = i + 1;
    }
    assert(a@ =~= b@);
    true
}

/// The decimal digit of a number below ten.
pub open spec fn digit_char(d: int) -> char {
    (48 + d) as char
}

/// A number in decimal.
pub open spec fn decimal_text(n: nat) -> Seq<char>
    decreases n,
{
    if n < 10 {
        seq![digit_char(n as int)]
    } else {
        decimal_text(n / 10).push(digit_char((n % 10) as int))
    }
}

/// Writes a number in decimal.
pub fn decimal(n: u64) -> (out: String)
    ensures
        out@ == decimal_text(n as nat),
    decreases n,
{
    let digit: char = (48 + (n % 10) as u8) as char;
    if n < 10 {
        let mut out = String::new();
        out.push(digit);
        assert(out@ =~= decimal_text(n as nat));
        out
    } else {
        let mut out = decimal(n / 10);
        out.push(digit);
        out
    }
}

/// The lower-case hexadecimal digit of a number below sixteen.
pub open spec fn hex_char(d: int) -> char {
    if d < 10 {
        (48 + d) as char
    } else {
        (87 + d) as char
    }
}

/// A byte as two lower-case hexadecimal digits.
pub open spec fn hex_byte_text(b: u8) -> Seq<char> {
    seq![hex_char((b / 16) as int), hex_char((b % 16) as int)]
}

/// Writes a number below sixteen as a lower-case hexadecimal digit.
pub fn hex_digit(d: u8) -> (c: char)
    requires
        d < 16,
    ensures
        c == hex_char(d as int),
{
    if d < 10 {
        (48 + d) as char
    } else {
        (87 + d) as char
    }
}

/// Appends a byte as two lower-case hexadecimal digits.
pub fn push_hex_byte(out: &mut String, b: u8)
    ensures
        final(out)@ == old(out)@ + hex_byte_text(b),
{
    out.push(hex_digit(b / 16));
    out.push(hex_digit(b % 16));
    assert(out@ =~= old(out)@ + hex_byte_text(b));
}

/// The pieces of a text between separators, empty ones included. A text
/// without the separator is its own only piece.
pub open spec fn split_on(s: Seq<char>, sep: char) -> Seq<Seq<char>>
    decreases s.len(),
{
    if s.len() == 0 {
        seq![Seq::empty()]
    } else {
        let before = split_on(s.drop_last(), sep);
        if s.last() == sep {
            before.push(Seq::empty())
        } else {
            before.drop_last().push(before.last().push(s.last()))
        }
    }
}

/// A text cut at a separator has at least one piece.
pub proof fn lemma_split_nonempty(s: Seq<char>, sep: char)
    ensures
        split_on(s, sep).len() >= 1,
    decreases s.len(),
{
    if s.len() > 0 {
        lemma_split_nonempty(s.drop_last(), sep);
    }
}

/// Cuts a text at every separator.
pub fn split_text(s: &str, sep: char) -> (out: Vec<String>)
    ensures
        texts(out@) == split_on(s@, sep),
        out@.len() == split_on(s@, sep).len(),
        out@.len() >= 1,
        forall|i: int| 0 <= i < out@.len() ==> (#[trigger] out@[i])@ == split_on(s@, sep)[i],
{
    let chars = chars_of(s);
    let mut out: Vec<String> = Vec::new();
    let mut piece = String::new();
    let mut i: usize = 0;
    proof {
        assert(chars@.take(0) =~= Seq::<char>::empty());
        assert(texts(out@).push(piece@) =~= split_on(chars@.take(0), sep));
    }
    while i < chars.len()
        invariant
            i <= chars@.len(),
            texts(out@).push(piece@) == split_on(chars@.take(i as int), sep),
        decreases chars@.len() - i,
    {
        let ghost before = texts(out@).push(piece@);
        let c: char = chars[i];
        proof {
            assert(chars@.take(i + 1).drop_last() =~= chars@.take(i as int));
            assert(chars@.take(i + 1).last() == c);
            assert(before.drop_last() =~= texts(out@));
        }
        if c == sep {
            let done = piece;
            let ghost out_before = out@;
            out.push(done);
            piece = String::new();
            assert(texts(out@) =~= texts(out_before).push(done@));
            assert(piece@ =~= Seq::<char>::empty());
        } else {
            piece.push(c);
        }
        i = i + 1;
    }
    let ghost out_before = out@;
    out.push(piece);
    proof {
        assert(chars@.take(chars@.len() as int) =~= chars@);
        assert(texts(out@) =~= texts(out_before).push(piece@));
        assert forall|j: int| 0 <= j < out@.len() implies (#[trigger] out@[j])@ == split_on(
            s@,
            sep,
        )[j] by {
            assert(texts(out@)[j] == out@[j]@);
        }
    }
    out
}

/// Several texts in a row, with another text between each two.
pub open spec fn join_text(items: Seq<Seq<char>>, sep: Seq<char>) -> Seq<char>
    decreases items.len(),
{
    if items.len() == 0 {
        Seq::empty()
    } else if items.len() == 1 {
        items[0]
    } else {
        join_text(items.drop_last(), sep) + sep + items.last()
    }
}

/// Writes several texts in a row, with another text between each two.
pub fn join_strings(items: &Vec<String>, sep: &str) -> (out: String)
    ensures
        out@ == join_text(texts(items@), sep@),
{
    let mut out = String::new();
    let mut i: usize = 0;
    assert(texts(items@).take(0) =~= Seq::<Seq<char>>::empty());
    assert(out@ =~= join_text(texts(items@).take(0), sep@));
    while i < items.len()
        invariant
            i <= items@.len(),
            out@ == join_text(texts(items@).take(i as int), sep@),
        decreases items@.len() - i,
    {
        let ghost done = texts(items@).take(i + 1);
        assert(done.drop_last() =~= texts(items@).take(i as int));
        if i > 0 {
            out.append(sep);
        }
        out.append(items[i].as_str());
        i = i + 1;
        assert(done.last() == items@[i - 1]@);
        assert(out@ =~= join_text(done, sep@));
    }
    assert(texts(items@).take(items@.len() as int) =~= texts(items@));
    out
}

/// Whether a character is white space in the sense of Unicode.
pub open spec fn is_space(c: char) -> bool {
    let n = c as u32;
    ||| 0x09 <= n <= 0x0d
    ||| n == 0x20
    ||| n == 0x85
    ||| n == 0xa0
    ||| n == 0x1680
    ||| 0x2000 <= n <= 0x200a
    ||| n == 0x2028
    ||| n == 0x2029
    ||| n == 0x202f
    ||| n == 0x205f
    ||| n == 0x3000
}

/// Tells whether a character is white space.
pub fn is_white_space(c: char) -> (r: bool)
    ensures
        r == is_space(c),
{
    let n: u32 = c as u32;
    (0x09 <= n && n <= 0x0d) || n == 0x20 || n == 0x85 || n == 0xa0 || n == 0x1680 || (0x2000 <= n
        && n <= 0x200a) || n == 0x2028 || n == 0x2029 || n == 0x202f || n == 0x205f || n == 0x3000
}

/// A text without the white space it starts with.
pub open spec fn trim_start_text(s: Seq<char>) -> Seq<char>
    decreases s.len(),
{
    if s.len() > 0 && is_space(s[0]) {
        trim_start_text(s.drop_first())
    } else {
        s
    }
}

/// A text without the white space it ends with.
pub open spec fn trim_end_text(s: Seq<char>) -> Seq<char>
    decreases s.len(),
{
    if s.len() > 0 && is_space(s.last()) {
        trim_end_text(s.drop_last())
    } else {
        s
    }
}

/// A text without the white space around it.
pub open spec fn trim_text(s: Seq<char>) -> Seq<char> {
    trim_end_text(trim_start_text(s))
}

/// Takes off the white space around a text.
pub fn trimmed(s: &str) -> (out: String)
    ensures
        out@ == trim_text(s@),
{
    let chars = chars_of(s);
    let mut start: usize = 0;
    let mut end: usize = chars.len();
    assert(chars@.skip(0) =~= chars@);
    while start < end && is_white_space(chars[start])
        invariant
            start <= end == chars@.len(),
            trim_start_text(chars@.skip(start as int)) == trim_start_text(chars@),
        decreases end - start,
    {
        assert(chars@.skip(start as int).drop_first() =~= chars@.skip(start + 1));
        start = start + 1;
    }
    assert(trim_start_text(chars@) == chars@.skip(start as int));
    assert(chars@.subrange(start as int, end as int) =~= chars@.skip(start as int));
    while end > start && is_white_space(chars[end - 1])
        invariant
            start <= end <= chars@.len(),
            trim_end_text(chars@.subrange(start as int, end as int)) == trim_text(chars@),
        decreases end,
    {
        assert(chars@.subrange(start as int, end as int).drop_last() =~= chars@.subrange(
            start as int,
            end - 1,
        ));
        end = end - 1;
    }
    string_range(chars.as_slice(), start, end)
}

/// The number that a text of decimal digits stands for, most significant
/// digit first.
pub open spec fn digits_value(s: Seq<char>) -> nat
    decreases s.len(),
{
    if s.len() == 0 {
        0
    } else {
        digits_value(s.drop_last()) * 10 + (s.last() as nat - 48) as nat
    }
}

/// Whether a text is made of decimal digits alone.
pub open spec fn all_digits(s: Seq<char>) -> bool {
    forall|i: int| 0 <= i < s.len() ==> '0' <= #[trigger] s[i] <= '9'
}

/// The number in a decimal text: one digit at least, an optional plus sign in
/// front, and a value that is at most `max`.
pub open spec fn decimal_value(s: Seq<char>, max: nat) -> Option<nat> {
    let digits = if s.len() > 0 && s[0] == '+' {
        s.drop_first()
    } else {
        s
    };
    if digits.len() > 0 && all_digits(digits) && digits_value(digits) <= max {
        Some(digits_value(digits))
    } else {
        None
    }
}

/// The value of a text does not shrink when digits are put behind it.
proof fn lemma_digits_value_grows(s: Seq<char>, i: int)
    requires
        0 <= i <= s.len(),
        all_digits(s),
    ensures
        digits_value(s.take(i)) <= digits_value(s),
    decreases s.len() - i,
{
    if i < s.len() {
        lemma_digits_value_grows(s, i + 1);
        assert(s.take(i + 1).drop_last() =~= s.take(i));
        assert('0' <= s[i] <= '9');
    } else {
        assert(s.take(i) =~= s);
    }
}

/// Reads a run of decimal digits as a number of at most `max`.
pub fn parse_digits(digits: &[char], max: u32) -> (r: Option<u32>)
    ensures
        match r {
            Some(v) => digits@.len() > 0 && all_digits(digits@) && v == digits_value(digits@) && v
                <= max,
            None => digits@.len() == 0 || !all_digits(digits@) || digits_value(digits@) > max,
        },
{
    if digits.len() == 0 {
        return None;
    }
    let mut value: u64 = 0;
    let mut i: usize = 0;
    assert(digits@.take(0) =~= Seq::<char>::empty());
    while i < digits.len()
        invariant
            i <= digits@.len(),
            all_digits(digits@.take(i as int)),
            value == digits_value(digits@.take(i as int)),
            value <= max,
        decreases digits@.len() - i,
    {
        let c: char = digits[i];
        assert(digits@.take(i + 1).drop_last() =~= digits@.take(i as int));
        if c < '0' || '9' < c {
            assert(!all_digits(digits@));
            return None;
        }
        proof {
            assert forall|j: int| 0 <= j < i + 1 implies '0' <= #[trigger] digits@.take(i + 1)[j]
                <= '9' by {
                if j < i {
                    assert(digits@.take(i as int)[j] == digits@[j]);
                }
            }
        }
        let d: u64 = (c as u32 - 48) as u64;
        value = value * 10 + d;
        i = i + 1;
        if value > max as u64 {
            proof {
                if all_digits(digits@) {
                    lemma_digits_value_grows(digits@, i as int);
                }
            }
            return None;
        }
    }
    assert(digits@.take(digits@.len() as int) =~= digits@);
    Some(value as u32)
}

/// Reads a decimal text, with an optional plus sign in front, as a number of
/// at most `max`.
pub fn parse_decimal(s: &[char], max: u32) -> (r: Option<u32>)
    ensures
        r is Some <==> decimal_value(s@, max as nat) is Some,
        r matches Some(v) ==> decimal_value(s@, max as nat) == Some(v as nat),
{
    if s.len() > 0 && s[0] == '+' {
        let digits = vstd::slice::slice_subrange(s, 1, s.len());
        assert(digits@ =~= s@.drop_first());
        parse_digits(digits, max)
    } else {
        parse_digits(s, max)
    }
}

/// Reads a decimal text as a 16-bit number, as `str::parse` does.
pub fn parse_u16(s: &str) -> (r: Option<u16>)
    ensures
        r is Some <==> decimal_value(s@, 65535) is Some,
        r matches Some(v) ==> decimal_value(s@, 65535) == Some(v as nat),
{
    let chars = chars_of(s);
    match parse_decimal(chars.as_slice(), 65535) {
        Some(v) => Some(v as u16),
        None => None,
    }
}

/// Whether a text does not hold a character.
pub open spec fn free_of(s: Seq<char>, c: char) -> bool {
    forall|i: int| 0 <= i < s.len() ==> #[trigger] s[i] != c
}

/// A text without the separator is its own only piece.
pub proof fn lemma_split_single(s: Seq<char>, sep: char)
    requires
        free_of(s, sep),
    ensures
        split_on(s, sep) == seq![s],
    decreases s.len(),
{
    if s.len() > 0 {
        lemma_split_single(s.drop_last(), sep);
        assert(s.last() == s[s.len() - 1]);
        assert(s.drop_last().push(s.last()) =~= s);
        assert(split_on(s, sep) =~= seq![s]);
    } else {
        assert(s =~= Seq::<char>::empty());
    }
}

/// What follows the last separator is the last piece.
pub proof fn lemma_split_last(front: Seq<char>, sep: char, back: Seq<char>)
    requires
        free_of(back, sep),
    ensures
        split_on(front + seq![sep] + back, sep) == split_on(front, sep).push(back),
    decreases back.len(),
{
    let s = front + seq![sep] + back;
    if back.len() == 0 {
        assert(back =~= Seq::<char>::empty());
        assert(s.drop_last() =~= front);
        assert(s.last() == sep);
    } else {
        let shorter = back.drop_last();
        lemma_split_last(front, sep, shorter);
        assert(s.drop_last() =~= front + seq![sep] + shorter);
        assert(s.last() == back[back.len() - 1]);
        assert(shorter.push(back.last()) =~= back);
        assert(split_on(s, sep) =~= split_on(front, sep).push(back));
    }
}

/// Pieces that are put together with a separator that none of them holds are
/// cut apart again.
pub proof fn law_joined_pieces_are_cut_apart(items: Seq<Seq<char>>, sep: char)
    requires
        items.len() > 0,
        forall|i: int| 0 <= i < items.len() ==> free_of(#[trigger] items[i], sep),
    ensures
        split_on(join_text(items, seq![sep]), sep) == items,
    decreases items.len(),
{
    if items.len() == 1 {
        lemma_split_single(items[0], sep);
        assert(seq![items[0]] =~= items);
    } else {
        law_joined_pieces_are_cut_apart(items.drop_last(), sep);
        lemma_split_last(join_text(items.drop_last(), seq![sep]), sep, items.last());
        assert(items.drop_last().push(items.last()) =~= items);
    }
}

/// The first piece starts as the text does, unless that is with a separator.
pub proof fn lemma_split_first(s: Seq<char>, sep: char)
    requires
        s.len() > 0,
        s[0] != sep,
    ensures
        split_on(s, sep).len() > 0,
        split_on(s, sep)[0].len() > 0,
        split_on(s, sep)[0][0] == s[0],
    decreases s.len(),
{
    let before = split_on(s.drop_last(), sep);
    lemma_split_nonempty(s.drop_last(), sep);
    if s.len() > 1 {
        lemma_split_first(s.drop_last(), sep);
    } else {
        assert(s.drop_last() =~= Seq::<char>::empty());
        assert(before == seq![Seq::<char>::empty()]);
        assert(split_on(s, sep)[0] == Seq::<char>::empty().push(s[0]));
    }
}

/// A number in decimal is made of digits, stands for the number, and has no
/// needless zero in front.
pub proof fn law_decimal_reads_back(n: nat)
    ensures
        decimal_text(n).len() > 0,
        all_digits(decimal_text(n)),
        digits_value(decimal_text(n)) == n,
        n > 0 ==> decimal_text(n)[0] != '0',
        forall|max: nat| n <= max ==> #[trigger] decimal_value(decimal_text(n), max) == Some(n),
    decreases n,
{
    let s = decimal_text(n);
    if n < 10 {
        assert(s.drop_last() =~= Seq::<char>::empty());
        assert(digits_value(s.drop_last()) == 0);
    } else {
        law_decimal_reads_back(n / 10);
        assert(s.drop_last() =~= decimal_text(n / 10));
    }
    assert('0' <= s[0] <= '9');
}

/// How many digits a number below a thousand has.
pub proof fn lemma_decimal_len(n: nat)
    requires
        n < 1000,
    ensures
        decimal_text(n).len() == (if n < 10 {
            1int
        } else if n < 100 {
            2
        } else {
            3
        }),
{
    reveal_with_fuel(decimal_text, 3);
}

/// The number in a text is read digit by digit, with or without a plus sign
/// and with zeros in front, up to the largest that is allowed.
pub proof fn law_numbers_are_read(n: nat, max: nat)
    ensures
        n <= max ==> decimal_value(decimal_text(n), max) == Some(n),
        n > max ==> decimal_value(decimal_text(n), max) is None,
        n <= max ==> decimal_value(seq!['+'] + decimal_text(n), max) == Some(n),
        n <= max ==> decimal_value(seq!['0'] + decimal_text(n), max) == Some(n),
{
    law_decimal_reads_back(n);
    let s = decimal_text(n);
    let plus = seq!['+'] + s;
    assert('0' <= s[0] <= '9');
    assert(plus.drop_first() =~= s);
    let zero = seq!['0'] + s;
    lemma_zero_in_front(s);
    assert forall|i: int| 0 <= i < zero.len() implies '0' <= #[trigger] zero[i] <= '9' by {
        if i > 0 {
            assert(zero[i] == s[i - 1]);
        }
    }
}

proof fn lemma_zero_in_front(s: Seq<char>)
    ensures
        digits_value(seq!['0'] + s) == digits_value(s),
    decreases s.len(),
{
    let t = seq!['0'] + s;
    if s.len() == 0 {
        assert(t.drop_last() =~= Seq::<char>::empty());
        assert(digits_value(t.drop_last()) == 0);
    } else {
        lemma_zero_in_front(s.drop_last());
        assert(t.drop_last() =~= seq!['0'] + s.drop_last());
    }
}

/// A text without a digit is no number, and neither is one with anything else
/// behind its first character.
pub proof fn law_other_texts_are_no_numbers(s: Seq<char>, i: int, max: nat)
    requires
        s.len() == 0 || s == seq!['+'] || (0 < i < s.len() && !('0' <= s[i] <= '9')),
    ensures
        decimal_value(s, max) is None,
{
    if 0 < i < s.len() && !('0' <= s[i] <= '9') {
        assert(s.drop_first()[i - 1] == s[i]);
    }
}

/// White space around a text is taken off, and nothing else: what is left
/// neither starts nor ends with any.
pub proof fn law_trimming_takes_off_white_space(front: Seq<char>, s: Seq<char>, back: Seq<char>)
    requires
        forall|i: int| 0 <= i < front.len() ==> is_space(#[trigger] front[i]),
        forall|i: int| 0 <= i < back.len() ==> is_space(#[trigger] back[i]),
        s.len() > 0 ==> !is_space(s[0]) && !is_space(s.last()),
    ensures
        s.len() > 0 ==> trim_text(front + s + back) == s,
        trim_text(front) == Seq::<char>::empty(),
{
    lemma_trim_start(front, s + back);
    assert(front + s + back =~= front + (s + back));
    lemma_trim_start(front, Seq::empty());
    assert(front + Seq::<char>::empty() =~= front);
    if s.len() > 0 {
        assert((s + back)[0] == s[0]);
        lemma_trim_end(s, back);
    }
}

proof fn lemma_trim_start(front: Seq<char>, s: Seq<char>)
    requires
        forall|i: int| 0 <= i < front.len() ==> is_space(#[trigger] front[i]),
    ensures
        trim_start_text(front + s) == trim_start_text(s),
    decreases front.len(),
{
    if front.len() > 0 {
        let rest = front.drop_first();
        assert forall|i: int| 0 <= i < rest.len() implies is_space(#[trigger] rest[i]) by {
            assert(rest[i] == front[i + 1]);
        }
        lemma_trim_start(rest, s);
        assert((front + s).drop_first() =~= rest + s);
        assert((front + s)[0] == front[0]);
    } else {
        assert(front + s =~= s);
    }
}

proof fn lemma_trim_end(s: Seq<char>, back: Seq<char>)
    requires
        s.len() > 0,
        !is_space(s.last()),
        forall|i: int| 0 <= i < back.len() ==> is_space(#[trigger] back[i]),
    ensures
        trim_end_text(s + back) == s,
    decreases back.len(),
{
    let t = s + back;
    if back.len() > 0 {
        let rest = back.drop_last();
        lemma_trim_end(s, rest);
        assert(t.drop_last() =~= s + rest);
        assert(t.last() == back[back.len() - 1]);
    } else {
        assert(t =~= s);
    }
}

/// Blanks, tabs and line ends are white space; what can be seen of ASCII is
/// not.
pub proof fn law_white_space(c: char)
    ensures
        c == ' ' || c == '\t' || c == '\n' || c == '\r' ==> is_space(c),
        '!' <= c <= '~' ==> !is_space(c),
        c == '\u{b}' || c == '\u{c}' || c == '\u{85}' || c == '\u{a0}' || c == '\u{1680}' || c
            == '\u{2028}' || c == '\u{2029}' || c == '\u{202f}' || c == '\u{205f}' || c
            == '\u{3000}' ==> is_space(c),
        '\u{2000}' <= c <= '\u{200a}' ==> is_space(c),
        c < '\t' || '\r' < c < ' ' || '~' < c < '\u{85}' || '\u{85}' < c < '\u{a0}' || '\u{a0}'
            < c < '\u{1680}' || '\u{1680}' < c < '\u{2000}' || '\u{200a}' < c < '\u{2028}'
            || '\u{2029}' < c < '\u{202f}' || '\u{202f}' < c < '\u{205f}' || '\u{205f}' < c
            < '\u{3000}' || '\u{3000}' < c ==> !is_space(c),
{
}

/// A further text is put behind the others with one separator in between.
pub proof fn law_joining_separates(items: Seq<Seq<char>>, item: Seq<char>, sep: Seq<char>)
    ensures
        join_text(seq![item], sep) == item,
        items.len() > 0 ==> join_text(items.push(item), sep) == join_text(items, sep) + sep + item,
{
    assert(items.push(item).drop_last() =~= items);
}

/// A byte in hexadecimal is two digits, the higher one first, in small letters.
pub proof fn law_bytes_in_hexadecimal(b: u8)
    ensures
        hex_byte_text(b).len() == 2,
        b / 16 < 10 ==> hex_byte_text(b)[0] as int == '0' as int + b / 16,
        b / 16 >= 10 ==> hex_byte_text(b)[0] as int == 'a' as int + b / 16 - 10,
        b % 16 < 10 ==> hex_byte_text(b)[1] as int == '0' as int + b % 16,
        b % 16 >= 10 ==> hex_byte_text(b)[1] as int == 'a' as int + b % 16 - 10,
{
}

/// Cutting puts every character in its piece: what is between two separators
/// is one piece, and putting the pieces together again gives the text.
pub proof fn law_cut_pieces_make_up_the_text(s: Seq<char>, sep: char)
    ensures
        join_text(split_on(s, sep), seq![sep]) == s,
        forall|i: int| 0 <= i < split_on(s, sep).len() ==> free_of(#[trigger] split_on(s, sep)[i], sep),
    decreases s.len(),
{
    let pieces = split_on(s, sep);
    if s.len() > 0 {
        let front = s.drop_last();
        let before = split_on(front, sep);
        lemma_split_nonempty(front, sep);
        law_cut_pieces_make_up_the_text(front, sep);
        assert(front.push(s.last()) =~= s);
        if s.last() == sep {
            assert(pieces.drop_last() =~= before);
            assert(join_text(pieces, seq![sep]) =~= s);
        } else {
            let last = before.last();
            assert(last == before[before.len() - 1]);
            assert(pieces.drop_last() =~= before.drop_last());
            assert(join_text(pieces, seq![sep]) =~= s);
            assert forall|i: int| 0 <= i < pieces.len() implies free_of(
                #[trigger] pieces[i],
                sep,
            ) by {
                if i < before.len() - 1 {
                    assert(pieces[i] == before[i]);
                } else {
                    assert(pieces[i] == last.push(s.last()));
                }
            }
        }
    } else {
        assert(s =~= Seq::<char>::empty());
    }
}

/// Strings are told by their characters, in their order.
pub proof fn law_strings_are_told(items: Seq<String>, s: String, i: int)
    ensures
        texts(items).len() == items.len(),
        0 <= i < items.len() ==> texts(items)[i] == items[i]@,
        opt_text(Some(s)) == Some(s@),
        opt_text(None) is None,
{
}

} // verus!
