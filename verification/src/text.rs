//! Text handling on sequences of characters: numbers in decimal, trimming,
//! splitting, joining and searching.

use vstd::prelude::*;

verus! {

broadcast use vstd::string::group_string_axioms;

/// `String::push` appends the given character to the end of the string.
pub assume_specification[ String::push ](s: &mut String, c: char)
    ensures
        final(s)@ == old(s)@.push(c),
;

/// The texts that a sequence of strings holds.
pub open spec fn texts(parts: Seq<String>) -> Seq<Seq<char>> {
    parts.map_values(|s: String| s@)
}

/// What `str::to_lowercase` makes of a text.
pub uninterp spec fn lowercase(s: Seq<char>) -> Seq<char>;

/// Calls `str::to_lowercase`, which maps a text to lower case by the Unicode
/// tables; the result depends on the text alone.
#[verifier::external_body]
pub(crate) fn to_lowercase(s: &str) -> (r: String)
    ensures
        r@ == lowercase(s@),
{
    s.to_lowercase()
}

/// A copy of an optional text.
pub fn copy_of(o: &Option<String>) -> (r: Option<String>)
    ensures
        r == *o,
{
    match o {
        Some(t) => Some(t.clone()),
        None => None,
    }
}

/// What an optional value holds.
pub open spec fn view_of<T: View>(o: Option<T>) -> Option<T::V> {
    match o {
        Some(t) => Some(t@),
        None => None,
    }
}

/// The characters of a text.
pub fn to_chars(s: &str) -> (chars: Vec<char>)
    ensures
        chars@ == s@,
{
    let mut chars: Vec<char> = Vec::new();
    for c in it: s.chars()
        invariant
            chars@ == it.seq().take(it.index()),
            it.seq() == s@,
    {
        chars.push(c);
    }
    assert(s@.take(s@.len() as int) == s@);
    chars
}

/// The text made of the characters from `from` up to `to`.
pub fn slice_text(chars: &Vec<char>, from: usize, to: usize) -> (s: String)
    requires
        from <= to <= chars.len(),
    ensures
        s@ == chars@.subrange(from as int, to as int),
{
    let mut s = String::new();
    let mut i: usize = from;
    while i < to
        invariant
            from <= i <= to <= chars.len(),
            s@ == chars@.subrange(from as int, i as int),
        decreases to - i,
    {
        s.push(chars[i]);
        i += 1;
        assert(s@ == chars@.subrange(from as int, i as int));
    }
    s
}

/// Whether two texts are the same.
pub fn same_text(a: &str, b: &str) -> (r: bool)
    ensures
        r == (a@ == b@),
{
    let a = a.to_owned();
    let b = b.to_owned();
    a == b
}

// ── decimal numbers ──────────────────────────────────────────────────────────

/// The decimal digit for `d`, which is below ten.
pub open spec fn digit_char(d: nat) -> char {
    (48 + d) as char
}

/// A number written in decimal, without leading zeros.
pub open spec fn decimal(n: nat) -> Seq<char>
    decreases n,
{
    if n < 10 {
        seq![digit_char(n)]
    } else {
        decimal(n / 10).push(digit_char(n % 10))
    }
}

/// An integer written in decimal, with a minus sign if it is negative.
pub open spec fn signed_decimal(n: int) -> Seq<char> {
    if n < 0 {
        seq!['-'] + decimal((-n) as nat)
    } else {
        decimal(n as nat)
    }
}

/// A number written in decimal with at least two digits.
pub open spec fn two_digits(n: nat) -> Seq<char> {
    if n < 10 {
        seq!['0'] + decimal(n)
    } else {
        decimal(n)
    }
}

/// Whether a character is one of `0` to `9`.
pub open spec fn is_digit(c: char) -> bool {
    '0' <= c && c <= '9'
}

/// Whether a text is made of digits, at least one.
pub open spec fn all_digits(s: Seq<char>) -> bool {
    s.len() > 0 && forall|i: int| 0 <= i < s.len() ==> is_digit(#[trigger] s[i])
}

/// The number that a text of digits denotes.
pub open spec fn digits_value(s: Seq<char>) -> nat
    decreases s.len(),
{
    if s.len() == 0 {
        0
    } else {
        (digits_value(s.drop_last()) * 10 + (s.last() as int - 48)) as nat
    }
}

/// The number below 2^32 that a text denotes: an optional plus sign, then digits.
pub open spec fn u32_of(s: Seq<char>) -> Option<u32> {
    let digits = if s.len() > 0 && s[0] == '+' {
        s.drop_first()
    } else {
        s
    };
    if all_digits(digits) && digits_value(digits) <= u32::MAX {
        Some(digits_value(digits) as u32)
    } else {
        None
    }
}

/// The 64-bit integer that a text denotes: an optional sign, then digits.
pub open spec fn i64_of(s: Seq<char>) -> Option<i64> {
    let signed = s.len() > 0 && (s[0] == '+' || s[0] == '-');
    let digits = if signed {
        s.drop_first()
    } else {
        s
    };
    let value = if signed && s[0] == '-' {
        -digits_value(digits)
    } else {
        digits_value(digits) as int
    };
    if all_digits(digits) && i64::MIN <= value <= i64::MAX {
        Some(value as i64)
    } else {
        None
    }
}

/// The decimal form of a number is made of digits, and denotes that number.
pub proof fn lemma_decimal_value(n: nat)
    ensures
        all_digits(decimal(n)),
        digits_value(decimal(n)) == n,
    decreases n,
{
    if n < 10 {
        let s = decimal(n);
        assert(s.drop_last() =~= Seq::<char>::empty());
        assert(digits_value(s.drop_last()) == 0);
        assert(s.last() == digit_char(n));
    } else {
        lemma_decimal_value(n / 10);
        let s = decimal(n);
        assert(s.drop_last() =~= decimal(n / 10));
        assert forall|i: int| 0 <= i < s.len() implies is_digit(#[trigger] s[i]) by {
            if i < s.len() - 1 {
                assert(s[i] == decimal(n / 10)[i]);
            }
        }
    }
}

/// Every number below 2^32 is read back from its decimal form.
pub proof fn u32_round_trip(n: u32)
    ensures
        u32_of(decimal(n as nat)) == Some(n),
{
    lemma_decimal_value(n as nat);
    assert(is_digit(decimal(n as nat)[0]));
}

/// The two-digit form of a number is made of digits, and denotes that number.
pub proof fn lemma_two_digits_value(n: nat)
    ensures
        all_digits(two_digits(n)),
        digits_value(two_digits(n)) == n,
{
    lemma_decimal_value(n);
    if n < 10 {
        let s = two_digits(n);
        assert(s.drop_last() =~= seq!['0']);
        assert(seq!['0'].drop_last() =~= Seq::<char>::empty());
        assert(digits_value(seq!['0'].drop_last()) == 0);
        assert(digits_value(seq!['0']) == 0);
        assert(is_digit(decimal(n)[0]));
        assert(s[1] == decimal(n)[0]);
    }
}

/// Every number below 2^32 is read back from its two-digit form.
pub proof fn two_digits_round_trip(n: u32)
    ensures
        u32_of(two_digits(n as nat)) == Some(n),
{
    lemma_two_digits_value(n as nat);
    assert(is_digit(two_digits(n as nat)[0]));
}

/// Every 64-bit integer is read back from its decimal form.
pub proof fn i64_round_trip(n: i64)
    ensures
        i64_of(signed_decimal(n as int)) == Some(n),
{
    let s = signed_decimal(n as int);
    if n < 0 {
        lemma_decimal_value((-n) as nat);
        assert(s.drop_first() =~= decimal((-n) as nat));
    } else {
        lemma_decimal_value(n as nat);
        assert(is_digit(s[0]));
    }
}

/// A number in decimal.
pub fn decimal_text(n: u64) -> (s: String)
    ensures
        s@ == decimal(n as nat),
    decreases n,
{
    let mut s = if n < 10 {
        String::new()
    } else {
        decimal_text(n / 10)
    };
    s.push((48u8 + (n % 10) as u8) as char);
    s
}

/// An integer in decimal.
pub fn signed_decimal_text(n: i64) -> (s: String)
    ensures
        s@ == signed_decimal(n as int),
{
    if n < 0 {
        let magnitude: u64 = (-(n as i128)) as u64;
        let digits = decimal_text(magnitude);
        let mut s = String::new();
        s.push('-');
        s.append(digits.as_str());
        assert(s@ == signed_decimal(n as int));
        s
    } else {
        decimal_text(n as u64)
    }
}

/// A number in decimal, with at least two digits.
pub fn two_digits_text(n: u32) -> (s: String)
    ensures
        s@ == two_digits(n as nat),
{
    let digits = decimal_text(n as u64);
    if n < 10 {
        let mut s = String::new();
        s.push('0');
        s.append(digits.as_str());
        assert(s@ == two_digits(n as nat));
        s
    } else {
        digits
    }
}

/// The value of the digits from `from` on; a value above 2^64 is only known to
/// be above it.
fn digits_from(chars: &Vec<char>, from: usize) -> (r: Option<u128>)
    requires
        from <= chars.len(),
    ensures
        r is Some <==> all_digits(chars@.skip(from as int)),
        r matches Some(v) ==> {
            let value = digits_value(chars@.skip(from as int));
            if value <= 0x1_0000_0000_0000_0000 {
                v == value
            } else {
                v > 0x1_0000_0000_0000_0000
            }
        },
{
    let ghost digits = chars@.skip(from as int);
    if from == chars.len() {
        return None;
    }
    let mut value: u128 = 0;
    let mut i: usize = from;
    while i < chars.len()
        invariant
            from <= i <= chars.len(),
            digits == chars@.skip(from as int),
            forall|j: int| 0 <= j < i - from ==> is_digit(#[trigger] digits[j]),
            ({
                let known = digits_value(digits.take(i - from));
                if known <= 0x1_0000_0000_0000_0000 {
                    value == known
                } else {
                    0x1_0000_0000_0000_0000 < value <= 0xB_0000_0000_0000_0000
                }
            }),
        decreases chars.len() - i,
    {
        let c = chars[i];
        assert(c == digits[i - from]);
        if !('0' <= c && c <= '9') {
            return None;
        }
        proof {
            assert(digits.take(i + 1 - from).drop_last() == digits.take(i - from));
        }
        if value <= 0x1_0000_0000_0000_0000 {
            value = value * 10 + (c as u32 - 48) as u128;
        }
        i += 1;
    }
    assert(digits.take(digits.len() as int) == digits);
    Some(value)
}

/// Reads a number below 2^32.
pub fn parse_u32(s: &str) -> (r: Option<u32>)
    ensures
        r == u32_of(s@),
{
    let chars = to_chars(s);
    let from: usize = if chars.len() > 0 && chars[0] == '+' {
        1
    } else {
        0
    };
    assert(chars@.skip(0) == chars@);
    assert(from == 1 ==> chars@.skip(1) == chars@.drop_first());
    match digits_from(&chars, from) {
        Some(v) if v <= 0xffff_ffff => Some(v as u32),
        _ => None,
    }
}

/// Reads a 64-bit integer.
pub fn parse_i64(s: &str) -> (r: Option<i64>)
    ensures
        r == i64_of(s@),
{
    let chars = to_chars(s);
    let signed = chars.len() > 0 && (chars[0] == '+' || chars[0] == '-');
    let negative = signed && chars[0] == '-';
    let from: usize = if signed {
        1
    } else {
        0
    };
    assert(chars@.skip(0) == chars@);
    assert(from == 1 ==> chars@.skip(1) == chars@.drop_first());
    match digits_from(&chars, from) {
        Some(v) => {
            if negative && v <= 0x8000_0000_0000_0000 {
                Some((-(v as i128)) as i64)
            } else if !negative && v <= 0x7fff_ffff_ffff_ffff {
                Some(v as i64)
            } else {
                None
            }
        },
        None => None,
    }
}

// ── white space, words, search ───────────────────────────────────────────────

/// Whether a character has the Unicode property `White_Space`.
pub open spec fn is_white_space(c: char) -> bool {
    let n = c as int;
    ||| 0x9 <= n <= 0xd
    ||| n == 0x20
    ||| n == 0x85
    ||| n == 0xa0
    ||| n == 0x1680
    ||| 0x2000 <= n <= 0x200a
    ||| n == 0x2028
    ||| n == 0x2029
    ||| n == 0x202f
    ||| n == 0x205f
    ||| n == 0x3000
}

/// A text without its leading white space.
pub open spec fn trim_start(s: Seq<char>) -> Seq<char>
    decreases s.len(),
{
    if s.len() > 0 && is_white_space(s[0]) {
        trim_start(s.drop_first())
    } else {
        s
    }
}

/// A text without its trailing white space.
pub open spec fn trim_end(s: Seq<char>) -> Seq<char>
    decreases s.len(),
{
    if s.len() > 0 && is_white_space(s.last()) {
        trim_end(s.drop_last())
    } else {
        s
    }
}

/// A text without white space at either end.
pub open spec fn trimmed(s: Seq<char>) -> Seq<char> {
    trim_end(trim_start(s))
}

/// The pieces of a text between the characters of `separators`.
pub open spec fn split_on(s: Seq<char>, separators: Seq<char>) -> Seq<Seq<char>>
    decreases s.len(),
{
    if s.len() == 0 {
        seq![Seq::<char>::empty()]
    } else {
        let pieces = split_on(s.drop_last(), separators);
        if separators.contains(s.last()) {
            pieces.push(Seq::<char>::empty())
        } else {
            pieces.drop_last().push(pieces.last().push(s.last()))
        }
    }
}

/// The pieces of a text, put one after the other with `separator` between them.
pub open spec fn joined(pieces: Seq<Seq<char>>, separator: Seq<char>) -> Seq<char>
    decreases pieces.len(),
{
    if pieces.len() == 0 {
        Seq::<char>::empty()
    } else if pieces.len() == 1 {
        pieces[0]
    } else {
        joined(pieces.drop_last(), separator) + separator + pieces.last()
    }
}

/// The pieces that are not empty.
pub open spec fn non_empty(pieces: Seq<Seq<char>>) -> Seq<Seq<char>> {
    pieces.filter(|p: Seq<char>| p.len() > 0)
}

/// Whether `part` stands somewhere in `s`.
pub open spec fn has_part(s: Seq<char>, part: Seq<char>) -> bool {
    exists|i: int|
        0 <= i <= s.len() - part.len() && #[trigger] s.subrange(i, i + part.len()) == part
}

/// Whether `s` ends with `part`.
pub open spec fn has_suffix(s: Seq<char>, part: Seq<char>) -> bool {
    part.len() <= s.len() && s.skip(s.len() - part.len()) == part
}

/// A text with every occurrence of `part` taken out, found from the left
/// without overlap.
pub open spec fn without(s: Seq<char>, part: Seq<char>) -> Seq<char>
    decreases s.len(),
{
    if part.len() == 0 || s.len() < part.len() {
        s
    } else if s.take(part.len() as int) == part {
        without(s.skip(part.len() as int), part)
    } else {
        seq![s[0]] + without(s.drop_first(), part)
    }
}

/// Whether a character has the Unicode property `White_Space`.
pub fn white_space(c: char) -> (r: bool)
    ensures
        r == is_white_space(c),
{
    let n = c as u32;
    (0x9 <= n && n <= 0xd) || n == 0x20 || n == 0x85 || n == 0xa0 || n == 0x1680 || (0x2000 <= n
        && n <= 0x200a) || n == 0x2028 || n == 0x2029 || n == 0x202f || n == 0x205f || n == 0x3000
}

/// Takes white space off both ends of a text.
pub fn trim(s: &str) -> (r: String)
    ensures
        r@ == trimmed(s@),
{
    let chars = to_chars(s);
    let mut from: usize = 0;
    assert(chars@.skip(0) == chars@);
    while from < chars.len() && white_space(chars[from])
        invariant
            from <= chars.len(),
            trim_start(chars@) == trim_start(chars@.skip(from as int)),
        decreases chars.len() - from,
    {
        assert(chars@.skip(from as int).drop_first() == chars@.skip(from + 1));
        from += 1;
    }
    let mut to: usize = chars.len();
    let ghost kept = chars@.skip(from as int);
    assert(kept == trim_start(chars@));
    assert(chars@.subrange(from as int, to as int) == kept);
    while from < to && white_space(chars[to - 1])
        invariant
            from <= to <= chars.len(),
            trim_end(kept) == trim_end(chars@.subrange(from as int, to as int)),
        decreases to - from,
    {
        assert(chars@.subrange(from as int, to as int).drop_last() == chars@.subrange(
            from as int,
            to - 1,
        ));
        to -= 1;
    }
    slice_text(&chars, from, to)
}

/// Whether a character is among the given ones.
fn is_among(c: char, set: &[char]) -> (r: bool)
    ensures
        r == set@.contains(c),
{
    let mut i: usize = 0;
    while i < set.len()
        invariant
            i <= set.len(),
            forall|j: int| 0 <= j < i ==> set@[j] != c,
        decreases set.len() - i,
    {
        if set[i] == c {
            assert(set@[i as int] == c);
            return true;
        }
        i += 1;
    }
    false
}

/// Splits a text at each character that is among `separators`.
pub fn split(s: &str, separators: &[char]) -> (r: Vec<String>)
    ensures
        texts(r@) == split_on(s@, separators@),
{
    let chars = to_chars(s);
    let mut done: Vec<String> = Vec::new();
    let mut last = String::new();
    let mut i: usize = 0;
    assert(chars@.take(0) == Seq::<char>::empty());
    assert(texts(done@).push(last@) == split_on(chars@.take(0), separators@));
    while i < chars.len()
        invariant
            i <= chars.len(),
            texts(done@).push(last@) == split_on(chars@.take(i as int), separators@),
        decreases chars.len() - i,
    {
        let c = chars[i];
        let ghost before = texts(done@).push(last@);
        assert(chars@.take(i + 1).drop_last() == chars@.take(i as int));
        assert(before.drop_last() == texts(done@));
        if is_among(c, separators) {
            let ghost piece = last@;
            let ghost finished = done@;
            done.push(last);
            last = String::new();
            assert(texts(done@) == texts(finished).push(piece));
        } else {
            last.push(c);
        }
        i += 1;
    }
    assert(chars@.take(chars@.len() as int) == chars@);
    let ghost piece = last@;
    let ghost finished = done@;
    done.push(last);
    assert(texts(done@) == texts(finished).push(piece));
    done
}

/// Joins texts with a separator between them.
pub fn join(pieces: &Vec<String>, separator: &str) -> (r: String)
    ensures
        r@ == joined(texts(pieces@), separator@),
{
    let mut r = String::new();
    let mut i: usize = 0;
    assert(texts(pieces@).take(0) == Seq::<Seq<char>>::empty());
    while i < pieces.len()
        invariant
            i <= pieces.len(),
            r@ == joined(texts(pieces@).take(i as int), separator@),
        decreases pieces.len() - i,
    {
        assert(texts(pieces@).take(i + 1).drop_last() == texts(pieces@).take(i as int));
        if i > 0 {
            r.append(separator);
        }
        let ghost before = r@;
        r.append(pieces[i].as_str());
        i += 1;
        assert(r@ == joined(texts(pieces@).take(i as int), separator@));
    }
    assert(texts(pieces@).take(pieces@.len() as int) == texts(pieces@));
    r
}

/// Keeps the texts that are not empty.
pub fn keep_non_empty(pieces: Vec<String>) -> (r: Vec<String>)
    ensures
        texts(r@) == non_empty(texts(pieces@)),
{
    let ghost keep = |p: Seq<char>| p.len() > 0;
    let mut r: Vec<String> = Vec::new();
    let mut i: usize = 0;
    assert(texts(pieces@).take(0) == Seq::<Seq<char>>::empty());
    proof {
        reveal(Seq::filter);
    }
    while i < pieces.len()
        invariant
            i <= pieces.len(),
            keep == (|p: Seq<char>| p.len() > 0),
            texts(r@) == texts(pieces@).take(i as int).filter(keep),
        decreases pieces.len() - i,
    {
        proof {
            reveal(Seq::filter);
            assert(texts(pieces@).take(i + 1).drop_last() == texts(pieces@).take(i as int));
        }
        if !pieces[i].as_str().is_empty() {
            let ghost kept = r@;
            r.push(pieces[i].clone());
            assert(texts(r@) == texts(kept).push(pieces@[i as int]@));
        }
        i += 1;
    }
    assert(texts(pieces@).take(pieces@.len() as int) == texts(pieces@));
    r
}

/// Whether the characters from `at` on start with `part`.
fn part_at(chars: &Vec<char>, at: usize, part: &Vec<char>) -> (r: bool)
    requires
        at + part.len() <= chars.len(),
    ensures
        r == (chars@.subrange(at as int, at + part.len()) == part@),
{
    let mut i: usize = 0;
    while i < part.len()
        invariant
            i <= part.len(),
            at + part.len() <= chars.len(),
            forall|j: int| 0 <= j < i ==> chars@[at + j] == part@[j],
        decreases part.len() - i,
    {
        if chars[at + i] != part[i] {
            assert(chars@.subrange(at as int, at + part.len())[i as int] != part@[i as int]);
            return false;
        }
        i += 1;
    }
    assert(chars@.subrange(at as int, at + part.len()) == part@);
    true
}

/// Whether `part` stands somewhere in `s`.
pub fn contains(s: &str, part: &str) -> (r: bool)
    ensures
        r == has_part(s@, part@),
{
    let chars = to_chars(s);
    let wanted = to_chars(part);
    if chars.len() < wanted.len() {
        return false;
    }
    let last: usize = chars.len() - wanted.len();
    let mut i: usize = 0;
    loop
        invariant
            i <= last,
            last + wanted.len() == chars.len(),
            chars@ == s@,
            wanted@ == part@,
            forall|j: int|
                0 <= j < i ==> #[trigger] chars@.subrange(j, j + wanted@.len()) != wanted@,
        decreases last - i,
    {
        if part_at(&chars, i, &wanted) {
            return true;
        }
        if i == last {
            return false;
        }
        i += 1;
    }
}

/// Whether `s` ends with `part`.
pub fn ends_with(s: &str, part: &str) -> (r: bool)
    ensures
        r == has_suffix(s@, part@),
{
    let chars = to_chars(s);
    let part = to_chars(part);
    if chars.len() < part.len() {
        return false;
    }
    let at: usize = chars.len() - part.len();
    assert(chars@.skip(at as int) == chars@.subrange(at as int, chars@.len() as int));
    part_at(&chars, at, &part)
}

/// Takes every occurrence of `part` out of `s`.
pub fn remove_all(s: &str, part: &str) -> (r: String)
    ensures
        r@ == without(s@, part@),
{
    let chars = to_chars(s);
    let part = to_chars(part);
    if part.len() == 0 {
        return slice_text(&chars, 0, chars.len());
    }
    let mut r = String::new();
    let mut i: usize = 0;
    assert(chars@.skip(0) == chars@);
    while part.len() <= chars.len() - i
        invariant
            0 < part.len(),
            i <= chars.len(),
            r@ + without(chars@.skip(i as int), part@) == without(chars@, part@),
        decreases chars.len() - i,
    {
        let ghost rest = chars@.skip(i as int);
        assert(rest.take(part@.len() as int) == chars@.subrange(i as int, i + part@.len()));
        if part_at(&chars, i, &part) {
            assert(rest.skip(part@.len() as int) == chars@.skip(i + part@.len()));
            i += part.len();
        } else {
            assert(rest.drop_first() == chars@.skip(i + 1));
            let ghost before = r@;
            r.push(chars[i]);
            assert(before + (seq![rest[0]] + without(chars@.skip(i + 1), part@)) == r@ + without(
                chars@.skip(i + 1),
                part@,
            ));
            i += 1;
        }
    }
    let tail = slice_text(&chars, i, chars.len());
    assert(tail@ == chars@.skip(i as int));
    r.append(tail.as_str());
    r
}

// ── words ────────────────────────────────────────────────────────────────────

/// Whether a text holds none of the separators.
pub open spec fn is_free_of(s: Seq<char>, separators: Seq<char>) -> bool {
    forall|i: int| 0 <= i < s.len() ==> !separators.contains(#[trigger] s[i])
}

/// Whether texts are words: not empty, and free of the separators.
pub open spec fn are_words(words: Seq<Seq<char>>, separators: Seq<char>) -> bool {
    forall|i: int|
        0 <= i < words.len() ==> (#[trigger] words[i]).len() > 0 && is_free_of(
            words[i],
            separators,
        )
}

/// Whether a text has no space at either end, and no two spaces in a row.
pub open spec fn is_single_spaced(s: Seq<char>) -> bool {
    &&& s.len() > 0 ==> s[0] != ' ' && s.last() != ' '
    &&& forall|i: int| 0 <= i < s.len() - 1 ==> !((#[trigger] s[i]) == ' ' && s[i + 1] == ' ')
}

/// The pieces that a text is split into are free of the separators.
pub proof fn lemma_pieces_are_free(s: Seq<char>, separators: Seq<char>)
    ensures
        split_on(s, separators).len() > 0,
        forall|i: int|
            0 <= i < split_on(s, separators).len() ==> is_free_of(
                #[trigger] split_on(s, separators)[i],
                separators,
            ),
    decreases s.len(),
{
    if s.len() > 0 {
        lemma_pieces_are_free(s.drop_last(), separators);
        let before = split_on(s.drop_last(), separators);
        let after = split_on(s, separators);
        assert forall|i: int| 0 <= i < after.len() implies is_free_of(
            #[trigger] after[i],
            separators,
        ) by {
            if i < before.len() {
                assert(is_free_of(before[i], separators));
            }
        }
    }
}

/// What is trimmed is part of what was there.
proof fn lemma_trimmed_is_free(s: Seq<char>, separators: Seq<char>)
    requires
        is_free_of(s, separators),
    ensures
        is_free_of(trimmed(s), separators),
{
    lemma_trim_start_is_free(s, separators);
    lemma_trim_end_is_free(trim_start(s), separators);
}

proof fn lemma_trim_start_is_free(s: Seq<char>, separators: Seq<char>)
    requires
        is_free_of(s, separators),
    ensures
        is_free_of(trim_start(s), separators),
    decreases s.len(),
{
    if s.len() > 0 && is_white_space(s[0]) {
        assert(forall|i: int|
            0 <= i < s.drop_first().len() ==> #[trigger] s.drop_first()[i] == s[i + 1]);
        lemma_trim_start_is_free(s.drop_first(), separators);
    }
}

proof fn lemma_trim_end_is_free(s: Seq<char>, separators: Seq<char>)
    requires
        is_free_of(s, separators),
    ensures
        is_free_of(trim_end(s), separators),
    decreases s.len(),
{
    if s.len() > 0 && is_white_space(s.last()) {
        assert(forall|i: int|
            0 <= i < s.drop_last().len() ==> #[trigger] s.drop_last()[i] == s[i]);
        lemma_trim_end_is_free(s.drop_last(), separators);
    }
}

proof fn lemma_trim_end_keeps_front(s: Seq<char>)
    ensures
        trim_end(s).len() <= s.len(),
        trim_end(s) == s.take(trim_end(s).len() as int),
        trim_end(trim_end(s)) == trim_end(s),
    decreases s.len(),
{
    if s.len() > 0 && is_white_space(s.last()) {
        lemma_trim_end_keeps_front(s.drop_last());
        let kept = trim_end(s);
        assert(s.drop_last().take(kept.len() as int) =~= s.take(kept.len() as int));
    } else {
        assert(s.take(s.len() as int) =~= s);
    }
}

proof fn lemma_trim_start_begins_well(s: Seq<char>)
    ensures
        trim_start(s).len() > 0 ==> !is_white_space(trim_start(s)[0]),
    decreases s.len(),
{
    if s.len() > 0 && is_white_space(s[0]) {
        lemma_trim_start_begins_well(s.drop_first());
    }
}

/// Trimming twice is trimming once.
pub proof fn trimming_is_idempotent(s: Seq<char>)
    ensures
        trimmed(trimmed(s)) == trimmed(s),
{
    let start = trim_start(s);
    lemma_trim_start_begins_well(s);
    lemma_trim_end_keeps_front(start);
    let t = trimmed(s);
    if t.len() > 0 {
        assert(t[0] == start[0]);
    }
    assert(trim_start(t) == t);
}

/// The words among trimmed pieces: those that are not empty, each one trimmed.
pub proof fn lemma_trimmed_words(pieces: Seq<Seq<char>>, separators: Seq<char>)
    requires
        forall|i: int| 0 <= i < pieces.len() ==> is_free_of(#[trigger] pieces[i], separators),
    ensures
        ({
            let words = non_empty(pieces.map_values(|p: Seq<char>| trimmed(p)));
            &&& are_words(words, separators)
            &&& forall|i: int|
                0 <= i < words.len() ==> trimmed(#[trigger] words[i]) == words[i]
        }),
{
    let trim = |p: Seq<char>| trimmed(p);
    let keep = |p: Seq<char>| p.len() > 0;
    let all = pieces.map_values(trim);
    let words = all.filter(keep);
    assert forall|i: int| 0 <= i < words.len() implies (#[trigger] words[i]).len() > 0
        && is_free_of(words[i], separators) && trimmed(words[i]) == words[i] by {
        all.lemma_filter_pred(keep, i);
        all.lemma_filter_contains_rev(keep, words[i]);
        let j = choose|j: int| 0 <= j < all.len() && all[j] == words[i];
        assert(all[j] == trimmed(pieces[j]));
        lemma_trimmed_is_free(pieces[j], separators);
        trimming_is_idempotent(pieces[j]);
    }
}

/// The words among pieces: those that are not empty.
pub proof fn lemma_plain_words(pieces: Seq<Seq<char>>, separators: Seq<char>)
    requires
        forall|i: int| 0 <= i < pieces.len() ==> is_free_of(#[trigger] pieces[i], separators),
    ensures
        are_words(non_empty(pieces), separators),
{
    let keep = |p: Seq<char>| p.len() > 0;
    let words = pieces.filter(keep);
    assert forall|i: int| 0 <= i < words.len() implies (#[trigger] words[i]).len() > 0
        && is_free_of(words[i], separators) by {
        pieces.lemma_filter_pred(keep, i);
        pieces.lemma_filter_contains_rev(keep, words[i]);
        let j = choose|j: int| 0 <= j < pieces.len() && pieces[j] == words[i];
        assert(is_free_of(pieces[j], separators));
    }
}

/// Words that a space is put between make a text that is single-spaced and holds
/// no other separator.
pub proof fn lemma_joined_words(words: Seq<Seq<char>>, separators: Seq<char>)
    requires
        are_words(words, separators),
        separators.contains(' '),
    ensures
        is_single_spaced(joined(words, " "@)),
        words.len() > 0 ==> joined(words, " "@).len() > 0,
        forall|i: int|
            0 <= i < joined(words, " "@).len() ==> (separators.contains(
                #[trigger] joined(words, " "@)[i],
            ) ==> joined(words, " "@)[i] == ' '),
    decreases words.len(),
{
    reveal_strlit(" ");
    let s = joined(words, " "@);
    if words.len() == 1 {
        let w = words[0];
        assert(s == w);
        assert(forall|i: int| 0 <= i < w.len() ==> !separators.contains(#[trigger] w[i]));
    } else if words.len() > 1 {
        let front = joined(words.drop_last(), " "@);
        let w = words.last();
        assert(w == words[words.len() - 1]);
        assert(forall|i: int|
            0 <= i < words.drop_last().len() ==> #[trigger] words.drop_last()[i] == words[i]);
        lemma_joined_words(words.drop_last(), separators);
        assert(is_free_of(w, separators));
        assert(forall|i: int| 0 <= i < w.len() ==> !separators.contains(#[trigger] w[i]));
        let n = front.len() as int;
        assert(s == front + " "@ + w);
        assert(forall|i: int| 0 <= i < n ==> #[trigger] s[i] == front[i]);
        assert(s[n] == ' ');
        assert(forall|i: int| n < i < s.len() ==> #[trigger] s[i] == w[i - n - 1]);
        assert(w[0] != ' ' && w.last() != ' ');
        assert(s.last() == w.last());
        assert(front.last() == front[n - 1]);
        assert forall|i: int| 0 <= i < s.len() - 1 implies !((#[trigger] s[i]) == ' ' && s[i + 1]
            == ' ') by {
            if i + 1 < n {
                assert(!(front[i] == ' ' && front[i + 1] == ' '));
            } else if i > n {
                assert(!separators.contains(w[i - n - 1]));
            }
        }
    }
}

/// A text behind another is split like the other, if it is free of separators.
pub proof fn lemma_split_append(s: Seq<char>, w: Seq<char>, separators: Seq<char>)
    requires
        is_free_of(w, separators),
    ensures
        split_on(s + w, separators) == split_on(s, separators).drop_last().push(
            split_on(s, separators).last() + w,
        ),
    decreases w.len(),
{
    lemma_pieces_are_free(s, separators);
    let pieces = split_on(s, separators);
    if w.len() == 0 {
        assert(s + w =~= s);
        assert(pieces.last() + w =~= pieces.last());
        assert(pieces.drop_last().push(pieces.last()) =~= pieces);
    } else {
        let front = w.drop_last();
        assert(forall|i: int| 0 <= i < front.len() ==> #[trigger] front[i] == w[i]);
        lemma_split_append(s, front, separators);
        assert((s + w).drop_last() =~= s + front);
        assert((s + w).last() == w[w.len() - 1]);
        let before = split_on(s + front, separators);
        assert(before.drop_last() =~= pieces.drop_last());
        assert(before.last() =~= pieces.last() + front);
        assert((pieces.last() + front).push(w.last()) =~= pieces.last() + w);
    }
}

/// Words that a space is put between are what the text is split into.
pub proof fn lemma_split_joined(words: Seq<Seq<char>>, separators: Seq<char>)
    requires
        words.len() > 0,
        are_words(words, separators),
        separators.contains(' '),
    ensures
        split_on(joined(words, " "@), separators) == words,
    decreases words.len(),
{
    reveal_strlit(" ");
    let w = words.last();
    assert(w == words[words.len() - 1]);
    if words.len() == 1 {
        let empty = Seq::<char>::empty();
        lemma_split_append(empty, w, separators);
        assert(empty + w =~= w);
        assert(split_on(empty, separators).drop_last().push(
            split_on(empty, separators).last() + w,
        ) =~= words);
    } else {
        let front = words.drop_last();
        assert(forall|i: int| 0 <= i < front.len() ==> #[trigger] front[i] == words[i]);
        lemma_split_joined(front, separators);
        let text = joined(front, " "@);
        let spaced = text.push(' ');
        assert(spaced.drop_last() =~= text);
        assert(split_on(spaced, separators) == front.push(Seq::<char>::empty()));
        lemma_split_append(spaced, w, separators);
        assert(joined(words, " "@) =~= spaced + w);
        assert(front.push(Seq::<char>::empty()).drop_last() =~= front);
        assert(Seq::<char>::empty() + w =~= w);
        assert(front.push(w) =~= words);
    }
}

/// An empty piece at the end is dropped.
pub proof fn lemma_non_empty_drops_last(pieces: Seq<Seq<char>>)
    ensures
        non_empty(pieces.push(Seq::<char>::empty())) == non_empty(pieces),
{
    reveal(Seq::filter);
    assert(pieces.push(Seq::<char>::empty()).drop_last() =~= pieces);
}

/// Nothing is dropped where nothing is empty.
pub proof fn lemma_non_empty_keeps_words(words: Seq<Seq<char>>, separators: Seq<char>)
    requires
        are_words(words, separators),
    ensures
        non_empty(words) == words,
    decreases words.len(),
{
    reveal(Seq::filter);
    if words.len() > 0 {
        let front = words.drop_last();
        assert(forall|i: int| 0 <= i < front.len() ==> #[trigger] front[i] == words[i]);
        lemma_non_empty_keeps_words(front, separators);
        assert(words[words.len() - 1].len() > 0);
        assert(front.push(words.last()) =~= words);
    } else {
        assert(non_empty(words) =~= words);
    }
}

// ── laws ─────────────────────────────────────────────────────────────────────

/// What stands for an optional value, or for a list of strings, leaves nothing out.
pub proof fn views_are_faithful<T: View>(value: T, parts: Seq<String>)
    ensures
        view_of(Some(value)) == Some(value@),
        view_of(None::<T>) is None,
        texts(parts).len() == parts.len(),
        forall|i: int| 0 <= i < parts.len() ==> #[trigger] texts(parts)[i] == parts[i]@,
{
}

/// A text of digits is worth ten times what it is worth without its last digit, and
/// that digit more.
pub proof fn digits_are_read_from_the_left(s: Seq<char>, c: char)
    requires
        '0' <= c <= '9',
    ensures
        digits_value(Seq::empty()) == 0,
        digits_value(s.push(c)) == 10 * digits_value(s) + (c as int - '0' as int),
{
    assert(s.push(c).drop_last() =~= s);
}

/// The decimal form of a number is made of the characters from `0` to `9`, and does
/// not begin with `0` unless the number is zero.
pub proof fn decimal_has_no_leading_zero(n: nat)
    ensures
        decimal(n).len() > 0,
        forall|i: int| 0 <= i < decimal(n).len() ==> '0' <= #[trigger] decimal(n)[i] <= '9',
        n > 0 ==> decimal(n)[0] != '0',
        n < 10 ==> decimal(n).len() == 1,
    decreases n,
{
    lemma_decimal_value(n);
    assert forall|i: int| 0 <= i < decimal(n).len() implies '0' <= #[trigger] decimal(n)[i]
        <= '9' by {
        assert(is_digit(decimal(n)[i]));
    }
    if n >= 10 {
        decimal_has_no_leading_zero(n / 10);
        assert(decimal(n)[0] == decimal(n / 10)[0]);
    }
}

/// The two-digit form of a number is its decimal form, with one `0` in front if that
/// has a single digit; the decimal form of a negative one is that of its amount, with a
/// minus sign in front.
pub proof fn padding_and_sign_stand_in_front(n: nat)
    ensures
        two_digits(n).len() >= 2,
        decimal(n).len() == 1 ==> two_digits(n) == seq!['0'] + decimal(n),
        decimal(n).len() > 1 ==> two_digits(n) == decimal(n),
        signed_decimal(n as int) == decimal(n),
        n > 0 ==> signed_decimal(-n) == seq!['-'] + decimal(n),
{
    decimal_has_no_leading_zero(n);
    if n >= 10 {
        decimal_has_no_leading_zero(n / 10);
    }
}

/// A text of digits is read as the number that it denotes, with a sign in front if
/// there is one, as long as the number fits.
pub proof fn numbers_are_read_exactly(digits: Seq<char>)
    requires
        digits.len() > 0,
        forall|i: int| 0 <= i < digits.len() ==> '0' <= #[trigger] digits[i] <= '9',
    ensures
        ({
            let value = digits_value(digits);
            let small = if value <= 0xffff_ffff {
                Some(value as u32)
            } else {
                None
            };
            let large = if value <= 0x7fff_ffff_ffff_ffff {
                Some(value as i64)
            } else {
                None
            };
            let negative = if value <= 0x8000_0000_0000_0000 {
                Some((-value) as i64)
            } else {
                None
            };
            &&& u32_of(digits) == small
            &&& u32_of(seq!['+'] + digits) == small
            &&& i64_of(digits) == large
            &&& i64_of(seq!['+'] + digits) == large
            &&& i64_of(seq!['-'] + digits) == negative
        }),
{
    assert(all_digits(digits)) by {
        assert forall|i: int| 0 <= i < digits.len() implies is_digit(#[trigger] digits[i]) by {
            assert('0' <= digits[i] <= '9');
        }
    }
    assert('0' <= digits[0] <= '9');
    assert((seq!['+'] + digits).drop_first() =~= digits);
    assert((seq!['-'] + digits).drop_first() =~= digits);
}

/// Nothing but digits behind an optional sign is read as a number.
pub proof fn only_numbers_are_read(s: Seq<char>)
    ensures
        u32_of(s) is Some || i64_of(s) is Some ==> s.len() > 0 && s.last() >= '0' && s.last() <= '9',
        u32_of(s) is Some ==> '0' <= s[0] <= '9' || s[0] == '+',
        i64_of(s) is Some ==> '0' <= s[0] <= '9' || s[0] == '+' || s[0] == '-',
        u32_of(s) is Some || i64_of(s) is Some ==> forall|i: int|
            1 <= i < s.len() ==> '0' <= #[trigger] s[i] <= '9',
{
    let signed = s.len() > 0 && (s[0] == '+' || s[0] == '-');
    let digits = if signed {
        s.drop_first()
    } else {
        s
    };
    if u32_of(s) is Some || i64_of(s) is Some {
        assert(all_digits(digits)) by {
            if s.len() > 0 && s[0] == '-' && u32_of(s) is Some {
                assert(is_digit(s[0]));
            }
        }
        assert(is_digit(digits[digits.len() - 1]));
        assert(is_digit(digits[0]));
        assert forall|i: int| 1 <= i < s.len() implies '0' <= #[trigger] s[i] <= '9' by {
            if signed {
                assert(is_digit(digits[i - 1]));
            } else {
                assert(is_digit(digits[i]));
            }
        }
        if u32_of(s) is Some && s[0] == '-' {
            assert(is_digit(s[0]));
        }
    }
}

proof fn lemma_trim_start_skips(s: Seq<char>) -> (n: int)
    ensures
        0 <= n <= s.len(),
        trim_start(s) == s.skip(n),
        forall|i: int| 0 <= i < n ==> is_white_space(#[trigger] s[i]),
    decreases s.len(),
{
    if s.len() > 0 && is_white_space(s[0]) {
        let rest = s.drop_first();
        let n = lemma_trim_start_skips(rest);
        assert(rest.skip(n) =~= s.skip(n + 1));
        assert forall|i: int| 0 <= i < n + 1 implies is_white_space(#[trigger] s[i]) by {
            if i > 0 {
                assert(rest[i - 1] == s[i]);
            }
        }
        n + 1
    } else {
        assert(s.skip(0) =~= s);
        0
    }
}

proof fn lemma_trim_end_takes(s: Seq<char>) -> (n: int)
    ensures
        0 <= n <= s.len(),
        trim_end(s) == s.take(n),
        forall|i: int| n <= i < s.len() ==> is_white_space(#[trigger] s[i]),
        n > 0 ==> !is_white_space(s[n - 1]),
    decreases s.len(),
{
    if s.len() > 0 && is_white_space(s.last()) {
        let rest = s.drop_last();
        let n = lemma_trim_end_takes(rest);
        assert(rest.take(n) =~= s.take(n));
        assert forall|i: int| n <= i < s.len() implies is_white_space(#[trigger] s[i]) by {
            if i < rest.len() {
                assert(rest[i] == s[i]);
            }
        }
        n
    } else {
        assert(s.take(s.len() as int) =~= s);
        s.len() as int
    }
}

/// Trimming takes white space off both ends, all of it and nothing else.
pub proof fn trimming_takes_white_space_only(s: Seq<char>)
    ensures
        exists|from: int, to: int|
            0 <= from <= to <= s.len() && trimmed(s) == #[trigger] s.subrange(from, to) && (
            forall|i: int| 0 <= i < from ==> is_white_space(#[trigger] s[i])) && (forall|i: int|
                to <= i < s.len() ==> is_white_space(#[trigger] s[i])),
        trimmed(s).len() > 0 ==> !is_white_space(trimmed(s)[0]) && !is_white_space(
            trimmed(s).last(),
        ),
{
    let from = lemma_trim_start_skips(s);
    let rest = s.skip(from);
    lemma_trim_start_begins_well(s);
    let n = lemma_trim_end_takes(rest);
    assert(trimmed(s) =~= s.subrange(from, from + n));
    assert forall|i: int| from + n <= i < s.len() implies is_white_space(#[trigger] s[i]) by {
        assert(rest[i - from] == s[i]);
    }
    if n > 0 {
        assert(trimmed(s)[0] == rest[0]);
        assert(trimmed(s).last() == rest[n - 1]);
    }
}

/// A text without separators is its only piece, and the pieces on both sides of a
/// separator are those of the texts on both sides.
pub proof fn splitting_goes_piece_by_piece(
    a: Seq<char>,
    c: char,
    b: Seq<char>,
    separators: Seq<char>,
)
    requires
        separators.contains(c),
    ensures
        (forall|i: int| 0 <= i < a.len() ==> !separators.contains(#[trigger] a[i])) ==> split_on(
            a,
            separators,
        ) == seq![a],
        split_on(a.push(c) + b, separators) == split_on(a, separators) + split_on(b, separators),
    decreases b.len(),
{
    if forall|i: int| 0 <= i < a.len() ==> !separators.contains(#[trigger] a[i]) {
        let none = Seq::<char>::empty();
        assert(is_free_of(a, separators));
        lemma_split_append(none, a, separators);
        assert(none + a =~= a);
        assert(split_on(a, separators) =~= seq![a]);
    }
    let text = a.push(c) + b;
    if b.len() == 0 {
        assert(text =~= a.push(c));
        assert(text.drop_last() =~= a);
        assert(split_on(text, separators) =~= split_on(a, separators) + split_on(b, separators));
    } else {
        let front = b.drop_last();
        splitting_goes_piece_by_piece(a, c, front, separators);
        lemma_pieces_are_free(front, separators);
        assert(text.drop_last() =~= a.push(c) + front);
        assert(text.last() == b.last());
        assert(split_on(text, separators) =~= split_on(a, separators) + split_on(b, separators));
    }
}

/// Joining puts each text behind those in front of it, with one separator between.
pub proof fn joining_goes_text_by_text(parts: Seq<Seq<char>>, last: Seq<char>, separator: Seq<char>)
    ensures
        joined(Seq::empty(), separator) == Seq::<char>::empty(),
        joined(seq![last], separator) == last,
        parts.len() > 0 ==> joined(parts.push(last), separator) == joined(parts, separator)
            + separator + last,
{
    assert(parts.push(last).drop_last() =~= parts);
}

/// Of texts, those that are not empty are kept, in their order.
pub proof fn texts_that_are_not_empty_are_kept(parts: Seq<Seq<char>>, last: Seq<char>)
    ensures
        non_empty(Seq::empty()).len() == 0,
        non_empty(parts.push(last)) == (if last.len() > 0 {
            non_empty(parts).push(last)
        } else {
            non_empty(parts)
        }),
{
    reveal(Seq::filter);
    assert(parts.push(last).drop_last() =~= parts);
}

/// A text holds a part exactly if it is made of the part and what stands around it, and
/// ends with a part exactly if nothing stands behind it.
pub proof fn parts_stand_in_their_texts(s: Seq<char>, a: Seq<char>, part: Seq<char>, b: Seq<char>)
    ensures
        has_part(a + part + b, part),
        has_part(s, part) ==> exists|x: Seq<char>, y: Seq<char>| s == #[trigger] (x + part + y),
        has_suffix(a + part, part),
        has_suffix(s, part) ==> s == s.take(s.len() - part.len()) + part,
{
    let whole = a + part + b;
    assert(whole.subrange(a.len() as int, a.len() as int + part.len()) =~= part);
    assert((a + part).skip(a.len() as int) =~= part);
    if has_part(s, part) {
        let i = choose|i: int|
            0 <= i <= s.len() - part.len() && #[trigger] s.subrange(i, i + part.len()) == part;
        assert(s =~= s.take(i) + part + s.skip(i + part.len()));
    }
    if has_suffix(s, part) {
        assert(s =~= s.take(s.len() - part.len()) + s.skip(s.len() - part.len()));
    }
}

/// Every occurrence of a part is taken out, from the left, and nothing else is.
pub proof fn removal_goes_from_the_left(s: Seq<char>, part: Seq<char>)
    requires
        part.len() > 0,
    ensures
        without(part + s, part) == without(s, part),
        s.len() > 0 && !(part.len() <= s.len() && s.take(part.len() as int) == part) ==> without(
            s,
            part,
        ) == seq![s[0]] + without(s.drop_first(), part),
        without(Seq::empty(), part) == Seq::<char>::empty(),
        !has_part(s, part) ==> without(s, part) == s,
    decreases s.len(),
{
    assert((part + s).take(part.len() as int) =~= part);
    assert((part + s).skip(part.len() as int) =~= s);
    if s.len() > 0 {
        let rest = s.drop_first();
        assert(seq![s[0]] + rest =~= s);
        if !has_part(s, part) {
            if part.len() <= s.len() {
                assert(s.subrange(0, 0int + part.len()) =~= s.take(part.len() as int));
            }
            if has_part(rest, part) {
                let i = choose|i: int|
                    0 <= i <= rest.len() - part.len() && #[trigger] rest.subrange(
                        i,
                        i + part.len(),
                    ) == part;
                assert(s.subrange(i + 1, i + 1 + part.len()) =~= part);
            }
            removal_goes_from_the_left(rest, part);
        }
        if s.len() < part.len() {
            assert(without(rest, part) == rest);
        }
    }
}

/// A text that neither begins nor ends with white space stays as it is.
pub proof fn lemma_trimmed_word(word: Seq<char>)
    requires
        word.len() > 0,
        !is_white_space(word[0]),
        !is_white_space(word.last()),
    ensures
        trimmed(word) == word,
{
}

/// Joining another word to words puts it behind them, or stands alone.
pub proof fn lemma_joined_push(words: Seq<Seq<char>>, word: Seq<char>, separators: Seq<char>)
    requires
        are_words(words, separators),
        separators.contains(' '),
    ensures
        joined(words, " "@).len() == 0 <==> words.len() == 0,
        joined(words.push(word), " "@) == (if joined(words, " "@).len() == 0 {
            word
        } else {
            joined(words, " "@).push(' ') + word
        }),
{
    reveal_strlit(" ");
    lemma_joined_words(words, separators);
    assert(words.push(word).drop_last() =~= words);
    if words.len() > 0 {
        assert(joined(words, " "@) + " "@ + word =~= joined(words, " "@).push(' ') + word);
    }
}

} // verus!
