//! Text and byte helpers shared by the protocol modules.

use vstd::prelude::*;
use vstd::string::*;
use vstd::utf8::*;

verus! {

/// `String::push` appends one character to the end of the string.
pub assume_specification[ String::push ](s: &mut String, c: char)
    ensures
        final(s)@ == old(s)@.push(c),
;

/// The text with which the standard library describes why `bytes` is not UTF-8.
pub uninterp spec fn utf8_error_text(bytes: Seq<u8>) -> Seq<char>;

/// Decodes `bytes` with `std::str::from_utf8`.
///
/// Decoding succeeds exactly on valid UTF-8 and yields the decoded characters. On other input the
/// result carries the rendered decoding error.
#[verifier::external_body]
pub(crate) fn utf8_text(bytes: &[u8]) -> (r: Result<String, String>)
    ensures
        r is Ok <==> valid_utf8(bytes@),
        r matches Ok(s) ==> s@ == decode_utf8(bytes@),
        r matches Err(e) ==> e@ == utf8_error_text(bytes@),
{
    match std::str::from_utf8(bytes) {
        Ok(text) => Ok(text.to_string()),
        Err(err) => Err(err.to_string()),
    }
}

/// Equality of byte sequences.
pub fn same_bytes(a: &[u8], b: &[u8]) -> (r: bool)
    ensures
        r == (a@ == b@),
{
    if a.len() != b.len() {
        return false;
    }
    let mut i: usize = 0;
    while i < a.len()
        invariant
            i <= a@.len(),
            a@.len() == b@.len(),
            forall|j: int| 0 <= j < i ==> a@[j] == b@[j],
        decreases a@.len() - i,
    {
        if a[i] != b[i] {
            return false;
        }
        i += 1;
    }
    assert(a@ =~= b@);
    true
}

/// Equality of texts.
pub fn same_text(a: &str, b: &str) -> (r: bool)
    ensures
        r == (a@ == b@),
{
    proof {
        encode_utf8_decode_utf8(a@);
        encode_utf8_decode_utf8(b@);
    }
    same_bytes(a.as_bytes(), b.as_bytes())
}

/// Equality of optional texts against a text that is present.
pub fn is_some_text(a: &Option<String>, b: &str) -> (r: bool)
    ensures
        r == (a matches Some(s) && s@ == b@),
{
    match a {
        Some(s) => same_text(s.as_str(), b),
        None => false,
    }
}

/// The characters of a text.
pub fn chars_of(s: &str) -> (r: Vec<char>)
    ensures
        r@ == s@,
{
    let mut out: Vec<char> = Vec::new();
    for c in it: s.chars()
        invariant
            out@ == it.seq().take(it.index() as int),
    {
        out.push(c);
    }
    out
}

/// The text made of the characters `chars[from..to]`.
pub fn text_of(chars: &Vec<char>, from: usize, to: usize) -> (r: String)
    requires
        from <= to <= chars@.len(),
    ensures
        r@ == chars@.subrange(from as int, to as int),
{
    let mut out = String::new();
    let mut i: usize = from;
    while i < to
        invariant
            from <= i <= to <= chars@.len(),
            out@ == chars@.subrange(from as int, i as int),
        decreases to - i,
    {
        out.push(chars[i]);
        assert(chars@.subrange(from as int, i + 1) =~= chars@.subrange(from as int, i as int).push(
            chars@[i as int],
        ));
        i += 1;
    }
    out
}

/// A copy of a list of texts.
pub fn clone_texts(list: &Vec<String>) -> (r: Vec<String>)
    ensures
        texts(r@) == texts(list@),
        r@ == list@,
{
    let mut out: Vec<String> = Vec::new();
    let mut i: usize = 0;
    while i < list.len()
        invariant
            i <= list@.len(),
            out@ == list@.take(i as int),
        decreases list@.len() - i,
    {
        out.push(list[i].clone());
        assert(list@.take(i + 1) =~= list@.take(i as int).push(list@[i as int]));
        i += 1;
    }
    assert(list@.take(list@.len() as int) =~= list@);
    out
}

/// A copy of a byte string.
pub fn clone_bytes(bytes: &[u8]) -> (r: Vec<u8>)
    ensures
        r@ == bytes@,
{
    let mut out: Vec<u8> = Vec::new();
    let mut i: usize = 0;
    while i < bytes.len()
        invariant
            i <= bytes@.len(),
            out@ == bytes@.take(i as int),
        decreases bytes@.len() - i,
    {
        out.push(bytes[i]);
        assert(bytes@.take(i + 1) =~= bytes@.take(i as int).push(bytes@[i as int]));
        i += 1;
    }
    assert(bytes@.take(bytes@.len() as int) =~= bytes@);
    out
}

/// A copy of an optional text.
pub fn clone_option_text(value: &Option<String>) -> (r: Option<String>)
    ensures
        r == *value,
{
    match value {
        Some(s) => Some(s.clone()),
        None => None,
    }
}

/// The characters of an optional text.
pub open spec fn option_text(value: Option<String>) -> Option<Seq<char>> {
    match value {
        Some(s) => Some(s@),
        None => None,
    }
}

/// The characters of each text in a list.
pub open spec fn texts(list: Seq<String>) -> Seq<Seq<char>> {
    list.map_values(|s: String| s@)
}

/// The texts of `list` with `sep` between neighbours.
pub open spec fn joined(list: Seq<Seq<char>>, sep: Seq<char>) -> Seq<char>
    decreases list.len(),
{
    if list.len() == 0 {
        seq![]
    } else if list.len() == 1 {
        list[0]
    } else {
        joined(list.drop_last(), sep) + sep + list.last()
    }
}

/// Joins `list` with `sep` between neighbours.
pub fn join(list: &Vec<String>, sep: &str) -> (r: String)
    ensures
        r@ == joined(texts(list@), sep@),
{
    let mut out = String::new();
    let ghost all = texts(list@);
    let mut i: usize = 0;
    while i < list.len()
        invariant
            i <= list@.len(),
            all == texts(list@),
            out@ == joined(all.take(i as int), sep@),
        decreases list@.len() - i,
    {
        assert(all.take(i + 1).drop_last() =~= all.take(i as int));
        assert(all.take(i + 1).last() == list@[i as int]@);
        if i > 0 {
            out.append(sep);
        }
        out.append(list[i].as_str());
        assert(out@ =~= joined(all.take(i + 1), sep@));
        i += 1;
    }
    assert(all.take(i as int) =~= all);
    out
}

/// The pieces of `s` between occurrences of `sep`, in order; there is always at least one piece.
pub open spec fn split(s: Seq<char>, sep: char) -> Seq<Seq<char>>
    decreases s.len(),
{
    if s.len() == 0 {
        seq![Seq::<char>::empty()]
    } else {
        let front = split(s.drop_last(), sep);
        if s.last() == sep {
            front.push(seq![])
        } else {
            front.drop_last().push(front.last().push(s.last()))
        }
    }
}

/// Splitting a text and joining the pieces with the separator gives the text back.
pub proof fn lemma_split_join(s: Seq<char>, sep: char)
    ensures
        split(s, sep).len() >= 1,
        joined(split(s, sep), seq![sep]) == s,
    decreases s.len(),
{
    if s.len() == 0 {
        assert(split(s, sep)[0] =~= s);
    } else {
        let front = split(s.drop_last(), sep);
        lemma_split_join(s.drop_last(), sep);
        let whole = split(s, sep);
        if s.last() == sep {
            assert(whole.drop_last() =~= front);
            assert(joined(whole, seq![sep]) =~= joined(front, seq![sep]) + seq![sep] + Seq::<char>::empty());
            assert(joined(whole, seq![sep]) =~= s);
        } else {
            assert(whole.drop_last() =~= front.drop_last());
            assert(s =~= s.drop_last().push(s.last()));
            if front.len() == 1 {
                assert(joined(whole, seq![sep]) =~= s);
            } else {
                assert(joined(whole, seq![sep]) =~= s);
            }
        }
    }
}

/// Splits `s` at every occurrence of `sep`.
pub fn split_text(s: &str, sep: char) -> (r: Vec<String>)
    ensures
        texts(r@) == split(s@, sep),
{
    let chars = chars_of(s);
    let mut done: Vec<String> = Vec::new();
    let mut current = String::new();
    let mut i: usize = 0;
    assert(split(s@.take(0), sep) =~= texts(done@).push(current@));
    while i < chars.len()
        invariant
            i <= chars@.len(),
            chars@ == s@,
            split(s@.take(i as int), sep) == texts(done@).push(current@),
        decreases chars@.len() - i,
    {
        let c = chars[i];
        let ghost front = split(s@.take(i as int), sep);
        assert(s@.take(i + 1).drop_last() =~= s@.take(i as int));
        assert(s@.take(i + 1).last() == c);
        assert(front.drop_last() =~= texts(done@));
        assert(front.last() == current@);
        if c == sep {
            let ghost before = texts(done@).push(current@);
            done.push(current);
            current = String::new();
            assert(texts(done@) =~= before);
            assert(split(s@.take(i + 1), sep) =~= texts(done@).push(current@));
        } else {
            current.push(c);
        }
        i += 1;
    }
    assert(s@.take(i as int) =~= s@);
    let ghost before = texts(done@).push(current@);
    done.push(current);
    assert(texts(done@) =~= before);
    done
}

/// The ASCII lower-case form of a character.
pub open spec fn lower_char(c: char) -> char {
    if 'A' <= c <= 'Z' {
        ((c as u8) + 32) as u8 as char
    } else {
        c
    }
}

/// The ASCII lower-case form of a text.
pub open spec fn lower(s: Seq<char>) -> Seq<char> {
    s.map_values(|c: char| lower_char(c))
}

/// Lower-cases the ASCII letters of a text.
pub fn to_lower(s: &str) -> (r: String)
    ensures
        r@ == lower(s@),
{
    let mut out = String::new();
    let chars = chars_of(s);
    let mut i: usize = 0;
    while i < chars.len()
        invariant
            i <= chars@.len(),
            chars@ == s@,
            out@ == lower(s@.take(i as int)),
        decreases chars@.len() - i,
    {
        let c = chars[i];
        if c >= 'A' && c <= 'Z' {
            out.push(((c as u8) + 32) as char);
        } else {
            out.push(c);
        }
        assert(lower(s@.take(i + 1)) =~= lower(s@.take(i as int)).push(lower_char(c)));
        i += 1;
    }
    assert(s@.take(i as int) =~= s@);
    out
}

/// `s` without the run of `c` at its end.
pub open spec fn without_trailing(s: Seq<char>, c: char) -> Seq<char>
    decreases s.len(),
{
    if s.len() > 0 && s.last() == c {
        without_trailing(s.drop_last(), c)
    } else {
        s
    }
}

/// The canonical form of a domain name: no trailing dots, ASCII letters in lower case.
pub open spec fn normalized(domain: Seq<char>) -> Seq<char> {
    lower(without_trailing(domain, '.'))
}

/// Brings a domain name into canonical form.
pub fn normalize_domain(value: &str) -> (r: String)
    ensures
        r@ == normalized(value@),
{
    let chars = chars_of(value);
    let mut end: usize = chars.len();
    assert(value@.take(end as int) =~= value@);
    while end > 0 && chars[end - 1] == '.'
        invariant
            end <= chars@.len(),
            chars@ == value@,
            without_trailing(value@.take(end as int), '.') == without_trailing(value@, '.'),
        decreases end,
    {
        assert(value@.take(end as int).drop_last() =~= value@.take(end - 1));
        end -= 1;
    }
    let head = text_of(&chars, 0, end);
    assert(head@ =~= value@.take(end as int));
    to_lower(head.as_str())
}

/// A domain name in canonical form is its own canonical form.
pub proof fn lemma_normalized_idempotent(s: Seq<char>)
    ensures
        normalized(normalized(s)) == normalized(s),
{
    lemma_without_trailing(s, '.');
    let t = without_trailing(s, '.');
    let n = lower(t);
    if n.len() > 0 {
        assert(n.last() == lower_char(t.last()));
        lemma_lower_dot(t.last());
    }
    assert(without_trailing(n, '.') == n);
    assert forall|i: int| 0 <= i < n.len() implies lower_char(#[trigger] n[i]) == n[i] by {
        lemma_lower_char_idempotent(t[i]);
    }
    assert(lower(n) =~= n);
}

/// Nothing is left to strip after stripping.
pub proof fn lemma_without_trailing(s: Seq<char>, c: char)
    ensures
        without_trailing(s, c).len() == 0 || without_trailing(s, c).last() != c,
    decreases s.len(),
{
    if s.len() > 0 && s.last() == c {
        lemma_without_trailing(s.drop_last(), c);
    }
}

proof fn lemma_lower_dot(c: char)
    requires
        c != '.',
    ensures
        lower_char(c) != '.',
{
}

proof fn lemma_lower_char_idempotent(c: char)
    ensures
        lower_char(lower_char(c)) == lower_char(c),
{
}

/// The character of a decimal digit.
pub open spec fn digit_char(d: nat) -> char {
    (d + 48) as u8 as char
}

/// The decimal form of a number.
pub open spec fn decimal(n: nat) -> Seq<char>
    decreases n,
{
    if n < 10 {
        seq![digit_char(n)]
    } else {
        decimal(n / 10).push(digit_char(n % 10))
    }
}

/// The decimal form of a number.
pub fn decimal_text(n: u128) -> (r: String)
    ensures
        r@ == decimal(n as nat),
    decreases n,
{
    if n < 10 {
        let mut out = String::new();
        out.push((n as u8 + 48) as char);
        assert(out@ =~= decimal(n as nat));
        out
    } else {
        let mut out = decimal_text(n / 10);
        out.push(((n % 10) as u8 + 48) as char);
        out
    }
}

/// The lower-case hexadecimal digit of a value below sixteen.
pub open spec fn hex_digit(d: u8) -> char {
    if d < 10 {
        (d + 48) as u8 as char
    } else {
        (d + 87) as u8 as char
    }
}

/// A byte as two lower-case hexadecimal digits.
pub open spec fn hex_byte(b: u8) -> Seq<char> {
    seq![hex_digit(b / 16), hex_digit(b % 16)]
}

/// A byte as two lower-case hexadecimal digits.
pub fn hex_byte_text(b: u8) -> (r: String)
    ensures
        r@ == hex_byte(b),
{
    let high: u8 = b / 16;
    let low: u8 = b % 16;
    let mut out = String::new();
    if high < 10 {
        out.push((high + 48) as char);
    } else {
        out.push((high + 87) as char);
    }
    if low < 10 {
        out.push((low + 48) as char);
    } else {
        out.push((low + 87) as char);
    }
    assert(out@ =~= hex_byte(b));
    out
}

/// Why a text is not a number.
#[derive(Clone, Copy, Debug, PartialEq, Eq, Structural)]
pub enum NumberFault {
    Empty,
    InvalidDigit,
    TooLarge,
}

/// The text that describes a fault.
pub open spec fn fault_text(fault: NumberFault) -> Seq<char> {
    match fault {
        NumberFault::Empty => "cannot parse integer from empty string"@,
        NumberFault::InvalidDigit => "invalid digit found in string"@,
        NumberFault::TooLarge => "number too large to fit in target type"@,
    }
}

impl NumberFault {
    /// The text that describes the fault.
    pub fn as_str(self) -> (r: &'static str)
        ensures
            r@ == fault_text(self),
    {
        match self {
            NumberFault::Empty => "cannot parse integer from empty string",
            NumberFault::InvalidDigit => "invalid digit found in string",
            NumberFault::TooLarge => "number too large to fit in target type",
        }
    }
}

/// The number that decimal digits spell, up to `max`. The leftmost fault counts.
pub open spec fn digits_value(s: Seq<char>, max: nat) -> Result<nat, NumberFault>
    decreases s.len(),
{
    if s.len() == 0 {
        Ok(0)
    } else {
        match digits_value(s.drop_last(), max) {
            Err(fault) => Err(fault),
            Ok(v) => if !('0' <= s.last() <= '9') {
                Err(NumberFault::InvalidDigit)
            } else {
                let next = v * 10 + (s.last() as nat - 48) as nat;
                if next > max {
                    Err(NumberFault::TooLarge)
                } else {
                    Ok(next)
                }
            },
        }
    }
}

/// The number up to `max` that a text spells: decimal digits behind an optional plus sign.
pub open spec fn number_value(s: Seq<char>, max: nat) -> Result<nat, NumberFault> {
    if s.len() == 0 {
        Err(NumberFault::Empty)
    } else if s[0] == '+' {
        if s.len() == 1 {
            Err(NumberFault::InvalidDigit)
        } else {
            digits_value(s.drop_first(), max)
        }
    } else {
        digits_value(s, max)
    }
}

/// Reads a number up to `max`.
pub fn parse_number(s: &str, max: u64) -> (r: Result<u64, NumberFault>)
    ensures
        match number_value(s@, max as nat) {
            Ok(v) => r matches Ok(n) && n == v && n <= max,
            Err(fault) => r matches Err(f) && f == fault,
        },
{
    let chars = chars_of(s);
    if chars.len() == 0 {
        return Err(NumberFault::Empty);
    }
    let start: usize = if chars[0] == '+' {
        1
    } else {
        0
    };
    if start == 1 && chars.len() == 1 {
        return Err(NumberFault::InvalidDigit);
    }
    let ghost digits = s@.skip(start as int);
    assert(digits =~= if start == 1 {
        s@.drop_first()
    } else {
        s@
    });
    let mut value: u64 = 0;
    let mut i: usize = start;
    while i < chars.len()
        invariant
            start <= i <= chars@.len(),
            chars@ == s@,
            digits == s@.skip(start as int),
            number_value(s@, max as nat) == digits_value(digits, max as nat),
            digits_value(digits.take(i - start), max as nat) == Ok::<nat, NumberFault>(
                value as nat,
            ),
            value <= max,
        decreases chars@.len() - i,
    {
        let c = chars[i];
        let ghost upto = digits.take(i - start + 1);
        proof {
            assert(upto.drop_last() =~= digits.take(i - start));
            assert(upto.last() == c);
        }
        if c < '0' || c > '9' {
            proof {
                lemma_digits_fault(digits, i - start + 1, max as nat);
            }
            return Err(NumberFault::InvalidDigit);
        }
        let next: u128 = value as u128 * 10 + (c as u128 - 48);
        if next > max as u128 {
            proof {
                lemma_digits_fault(digits, i - start + 1, max as nat);
            }
            return Err(NumberFault::TooLarge);
        }
        value = next as u64;
        i += 1;
    }
    assert(digits.take(i - start) =~= digits);
    Ok(value)
}

/// A fault in the first digits is the fault of all.
proof fn lemma_digits_fault(s: Seq<char>, n: int, max: nat)
    requires
        0 <= n <= s.len(),
        digits_value(s.take(n), max) is Err,
    ensures
        digits_value(s, max) == digits_value(s.take(n), max),
    decreases s.len(),
{
    if n == s.len() {
        assert(s.take(n) =~= s);
    } else {
        let front = s.drop_last();
        assert(front.take(n) =~= s.take(n));
        lemma_digits_fault(front, n, max);
    }
}

/// The characters with the Unicode property `White_Space`.
pub open spec fn is_white(c: char) -> bool {
    ||| '\u{9}' <= c <= '\u{d}'
    ||| c == '\u{20}'
    ||| c == '\u{85}'
    ||| c == '\u{a0}'
    ||| c == '\u{1680}'
    ||| '\u{2000}' <= c <= '\u{200a}'
    ||| c == '\u{2028}'
    ||| c == '\u{2029}'
    ||| c == '\u{202f}'
    ||| c == '\u{205f}'
    ||| c == '\u{3000}'
}

/// Whether a character has the Unicode property `White_Space`.
pub fn is_white_space(c: char) -> (r: bool)
    ensures
        r == is_white(c),
{
    (c >= '\u{9}' && c <= '\u{d}') || c == '\u{20}' || c == '\u{85}' || c == '\u{a0}' || c
        == '\u{1680}' || (c >= '\u{2000}' && c <= '\u{200a}') || c == '\u{2028}' || c
        == '\u{2029}' || c == '\u{202f}' || c == '\u{205f}' || c == '\u{3000}'
}

/// `s` without leading white space.
pub open spec fn without_leading_white(s: Seq<char>) -> Seq<char>
    decreases s.len(),
{
    if s.len() > 0 && is_white(s[0]) {
        without_leading_white(s.drop_first())
    } else {
        s
    }
}

/// `s` without trailing white space.
pub open spec fn without_trailing_white(s: Seq<char>) -> Seq<char>
    decreases s.len(),
{
    if s.len() > 0 && is_white(s.last()) {
        without_trailing_white(s.drop_last())
    } else {
        s
    }
}

/// `s` without white space at its ends.
pub open spec fn trimmed(s: Seq<char>) -> Seq<char> {
    without_trailing_white(without_leading_white(s))
}

/// The index of the first character at or after `from` that is not white space.
fn skip_white(chars: &Vec<char>, from: usize) -> (r: usize)
    requires
        from <= chars@.len(),
    ensures
        from <= r <= chars@.len(),
        without_leading_white(chars@.skip(from as int)) == chars@.skip(r as int),
        r < chars@.len() ==> !is_white(chars@[r as int]),
{
    let mut i: usize = from;
    while i < chars.len() && is_white_space(chars[i])
        invariant
            from <= i <= chars@.len(),
            without_leading_white(chars@.skip(from as int)) == without_leading_white(
                chars@.skip(i as int),
            ),
        decreases chars@.len() - i,
    {
        assert(chars@.skip(i as int).drop_first() =~= chars@.skip(i + 1));
        i += 1;
    }
    i
}

/// Removes white space from the ends of a text.
pub fn trim_text(s: &str) -> (r: String)
    ensures
        r@ == trimmed(s@),
{
    let chars = chars_of(s);
    assert(chars@.skip(0) =~= chars@);
    let start: usize = skip_white(&chars, 0);
    let mut end: usize = chars.len();
    assert(chars@.subrange(start as int, end as int) =~= chars@.skip(start as int));
    while end > start && is_white_space(chars[end - 1])
        invariant
            start <= end <= chars@.len(),
            trimmed(s@) == without_trailing_white(chars@.subrange(start as int, end as int)),
        decreases end,
    {
        assert(chars@.subrange(start as int, end as int).drop_last() =~= chars@.subrange(
            start as int,
            end - 1,
        ));
        end -= 1;
    }
    text_of(&chars, start, end)
}

/// Whether a text is only white space.
pub fn is_blank(s: &str) -> (r: bool)
    ensures
        r == (trimmed(s@).len() == 0),
{
    trim_text(s).as_str().is_empty()
}

/// The characters of `s` up to the first white space.
pub open spec fn first_word(s: Seq<char>) -> Seq<char>
    decreases s.len(),
{
    if s.len() == 0 || is_white(s[0]) {
        seq![]
    } else {
        seq![s[0]] + first_word(s.drop_first())
    }
}

/// The words of a text, which white space separates.
pub open spec fn words(s: Seq<char>) -> Seq<Seq<char>>
    decreases s.len(),
{
    let rest = without_leading_white(s);
    let word = first_word(rest);
    if word.len() == 0 || word.len() > rest.len() || rest.len() > s.len() {
        seq![]
    } else {
        seq![word] + words(rest.skip(word.len() as int))
    }
}

proof fn lemma_first_word(s: Seq<char>)
    ensures
        first_word(s).len() <= s.len(),
        s.len() > 0 && !is_white(s[0]) ==> first_word(s).len() > 0,
    decreases s.len(),
{
    if s.len() > 0 && !is_white(s[0]) {
        lemma_first_word(s.drop_first());
    }
}

proof fn lemma_leading_white(s: Seq<char>)
    ensures
        without_leading_white(s).len() <= s.len(),
        without_leading_white(s).len() > 0 ==> !is_white(without_leading_white(s)[0]),
    decreases s.len(),
{
    if s.len() > 0 && is_white(s[0]) {
        lemma_leading_white(s.drop_first());
    }
}

/// Splits a text into the words that white space separates.
pub fn split_words(s: &str) -> (r: Vec<String>)
    ensures
        texts(r@) == words(s@),
{
    let chars = chars_of(s);
    let mut out: Vec<String> = Vec::new();
    let mut at: usize = 0;
    proof {
        assert(chars@.skip(0) =~= chars@);
        assert(texts(out@) + words(chars@) =~= words(chars@));
    }
    loop
        invariant
            at <= chars@.len(),
            texts(out@) + words(chars@.skip(at as int)) == words(s@),
        decreases chars@.len() - at,
    {
        let ghost before = texts(out@);
        let ghost here = chars@.skip(at as int);
        let start: usize = skip_white(&chars, at);
        proof {
            lemma_leading_white(here);
            lemma_first_word(chars@.skip(start as int));
        }
        if start >= chars.len() {
            assert(words(here) =~= seq![]);
            assert(before + words(here) =~= before);
            return out;
        }
        let mut end: usize = start;
        let ghost rest = chars@.skip(start as int);
        assert(Seq::<char>::empty() + first_word(rest) =~= first_word(rest));
        assert(chars@.subrange(start as int, start as int) =~= seq![]);
        while end < chars.len() && !is_white_space(chars[end])
            invariant
                start <= end <= chars@.len(),
                rest == chars@.skip(start as int),
                chars@.subrange(start as int, end as int) + first_word(chars@.skip(end as int))
                    == first_word(rest),
            decreases chars@.len() - end,
        {
            assert(chars@.skip(end as int).drop_first() =~= chars@.skip(end + 1));
            assert(chars@.subrange(start as int, end as int) + (seq![chars@[end as int]]
                + first_word(chars@.skip(end + 1))) =~= chars@.subrange(start as int, end + 1)
                + first_word(chars@.skip(end + 1)));
            end += 1;
        }
        let word = text_of(&chars, start, end);
        assert(word@ =~= first_word(rest));
        let ghost text = word@;
        out.push(word);
        proof {
            assert(rest.skip(text.len() as int) =~= chars@.skip(end as int));
            assert(texts(out@) =~= before.push(text));
            assert(before + (seq![text] + words(chars@.skip(end as int))) =~= before.push(text)
                + words(chars@.skip(end as int)));
        }
        at = end;
    }
}

/// The pieces of `s` between line ends (carriage return and line feed), in order; there is always
/// at least one piece.
pub open spec fn lines(s: Seq<char>) -> Seq<Seq<char>>
    decreases s.len(),
{
    if s.len() == 0 {
        seq![Seq::<char>::empty()]
    } else {
        let front = lines(s.drop_last());
        let open = front.last();
        if s.last() == '\n' && open.len() > 0 && open.last() == '\r' {
            front.drop_last().push(open.drop_last()).push(seq![])
        } else {
            front.drop_last().push(open.push(s.last()))
        }
    }
}

/// Splits a text at its line ends.
pub fn split_lines(s: &str) -> (r: Vec<String>)
    ensures
        texts(r@) == lines(s@),
        r@.len() >= 1,
{
    let chars = chars_of(s);
    let mut done: Vec<String> = Vec::new();
    let mut start: usize = 0;
    let mut i: usize = 0;
    assert(s@.subrange(0, 0) =~= seq![]);
    assert(lines(s@.take(0)) =~= texts(done@).push(s@.subrange(0, 0)));
    while i < chars.len()
        invariant
            start <= i <= chars@.len(),
            chars@ == s@,
            lines(s@.take(i as int)) == texts(done@).push(s@.subrange(start as int, i as int)),
        decreases chars@.len() - i,
    {
        let c = chars[i];
        let ghost front = lines(s@.take(i as int));
        let ghost open = s@.subrange(start as int, i as int);
        proof {
            assert(s@.take(i + 1).drop_last() =~= s@.take(i as int));
            assert(s@.take(i + 1).last() == c);
            assert(front.drop_last() =~= texts(done@));
            assert(front.last() == open);
        }
        if c == '\n' && i > start && chars[i - 1] == '\r' {
            let line = text_of(&chars, start, i - 1);
            let ghost before = texts(done@);
            assert(open.last() == '\r');
            assert(line@ =~= open.drop_last());
            done.push(line);
            start = i + 1;
            assert(texts(done@) =~= before.push(open.drop_last()));
            assert(s@.subrange(start as int, i + 1) =~= seq![]);
        } else {
            assert(s@.subrange(start as int, i + 1) =~= open.push(c));
        }
        i += 1;
    }
    assert(s@.take(i as int) =~= s@);
    let line = text_of(&chars, start, i);
    let ghost before = texts(done@);
    done.push(line);
    assert(texts(done@) =~= before.push(s@.subrange(start as int, i as int)));
    done
}

/// The text before and the text after the first `sep`.
pub open spec fn split_at_first(s: Seq<char>, sep: char) -> Option<(Seq<char>, Seq<char>)>
    decreases s.len(),
{
    if s.len() == 0 {
        None
    } else if s[0] == sep {
        Some((seq![], s.drop_first()))
    } else {
        match split_at_first(s.drop_first(), sep) {
            Some((before, after)) => Some((seq![s[0]] + before, after)),
            None => None,
        }
    }
}

/// Splits a text at the first `sep`.
pub fn split_once(s: &str, sep: char) -> (r: Option<(String, String)>)
    ensures
        match split_at_first(s@, sep) {
            Some((before, after)) => r matches Some((b, a)) && b@ == before && a@ == after,
            None => r is None,
        },
{
    let chars = chars_of(s);
    let mut i: usize = 0;
    let ghost whole = split_at_first(s@, sep);
    proof {
        assert(s@.skip(0) =~= s@);
        if let Some((before, _)) = whole {
            assert(s@.take(0) + before =~= before);
        }
    }
    while i < chars.len()
        invariant
            i <= chars@.len(),
            chars@ == s@,
            whole == split_at_first(s@, sep),
            match split_at_first(s@.skip(i as int), sep) {
                Some((before, after)) => whole == Some((s@.take(i as int) + before, after)),
                None => whole is None,
            },
        decreases chars@.len() - i,
    {
        assert(s@.skip(i as int).drop_first() =~= s@.skip(i + 1));
        if chars[i] == sep {
            let before = text_of(&chars, 0, i);
            let after = text_of(&chars, i + 1, chars.len());
            assert(before@ =~= s@.take(i as int) + Seq::<char>::empty());
            assert(after@ =~= s@.skip(i + 1));
            return Some((before, after));
        }
        proof {
            if let Some((before, _)) = split_at_first(s@.skip(i + 1), sep) {
                assert(s@.take(i as int) + (seq![s@[i as int]] + before) =~= s@.take(i + 1)
                    + before);
            }
        }
        i += 1;
    }
    None
}

/// Whether a text starts with `prefix`.
pub fn starts_with(s: &str, prefix: &str) -> (r: bool)
    ensures
        r == prefix@.is_prefix_of(s@),
{
    let chars = chars_of(s);
    let head = chars_of(prefix);
    if chars.len() < head.len() {
        return false;
    }
    let mut i: usize = 0;
    while i < head.len()
        invariant
            i <= head@.len() <= chars@.len(),
            chars@ == s@,
            head@ == prefix@,
            forall|j: int| 0 <= j < i ==> chars@[j] == head@[j],
        decreases head@.len() - i,
    {
        if chars[i] != head[i] {
            assert(!(head@ =~= chars@.subrange(0, head@.len() as int))) by {
                assert(chars@.subrange(0, head@.len() as int)[i as int] == chars@[i as int]);
            }
            return false;
        }
        i += 1;
    }
    assert(head@ =~= chars@.subrange(0, head@.len() as int));
    true
}

/// Whether two texts are equal but for the case of their ASCII letters.
pub fn same_text_ignoring_case(a: &str, b: &str) -> (r: bool)
    ensures
        r == (lower(a@) == lower(b@)),
{
    same_text(to_lower(a).as_str(), to_lower(b).as_str())
}

/// Joining is concatenation with the separator at the seam: nothing gives nothing, one text gives
/// itself, and two lists joined are the two results with one separator between them.
pub proof fn law_join_concatenates(
    first: Seq<Seq<char>>,
    second: Seq<Seq<char>>,
    one: Seq<char>,
    sep: Seq<char>,
)
    ensures
        joined(Seq::empty(), sep) == Seq::<char>::empty(),
        joined(seq![one], sep) == one,
        first.len() > 0 && second.len() > 0 ==> joined(first + second, sep) == joined(first, sep)
            + sep + joined(second, sep),
    decreases second.len(),
{
    if first.len() > 0 && second.len() > 0 {
        let front = second.drop_last();
        assert((first + second).drop_last() =~= first + front);
        assert((first + second).last() == second.last());
        if second.len() == 1 {
            assert(first + front =~= first);
            assert(joined(first + second, sep) =~= joined(first, sep) + sep + joined(second, sep));
        } else {
            law_join_concatenates(first, front, one, sep);
            assert(joined(first + second, sep) =~= joined(first, sep) + sep + joined(second, sep));
        }
    }
}

/// No piece of a split text holds the separator.
pub proof fn law_split_leaves_no_separator(s: Seq<char>, sep: char)
    ensures
        split(s, sep).len() >= 1,
        forall|i: int| 0 <= i < split(s, sep).len() ==> !(#[trigger] split(s, sep)[i]).contains(sep),
    decreases s.len(),
{
    let whole = split(s, sep);
    if s.len() > 0 {
        let front = split(s.drop_last(), sep);
        law_split_leaves_no_separator(s.drop_last(), sep);
        assert forall|i: int| 0 <= i < whole.len() implies !(#[trigger] whole[i]).contains(sep) by {
            if i < whole.len() - 1 {
                assert(whole[i] == front[i]);
            } else if s.last() != sep {
                let open = front[front.len() - 1];
                assert(whole[i] == open.push(s.last()));
                if whole[i].contains(sep) {
                    let j = choose|j: int| 0 <= j < whole[i].len() && whole[i][j] == sep;
                    assert(open[j] == sep);
                }
            }
        }
    }
}

/// Pieces without the separator survive joining and splitting, so lists of such pieces that join to
/// the same text are the same.
pub proof fn law_split_undoes_join(list: Seq<Seq<char>>, sep: char)
    requires
        list.len() > 0,
        forall|i: int| 0 <= i < list.len() ==> !(#[trigger] list[i]).contains(sep),
    ensures
        split(joined(list, seq![sep]), sep) == list,
    decreases list.len(),
{
    let front = list.drop_last();
    let last = list.last();
    assert(list[list.len() - 1] == last);
    if list.len() == 1 {
        lemma_split_appended(seq![], last, sep);
        assert(Seq::<char>::empty() + last =~= last);
        let base = split(Seq::<char>::empty(), sep);
        assert(base.drop_last().push(base.last() + last) =~= list);
    } else {
        assert forall|i: int| 0 <= i < front.len() implies !(#[trigger] front[i]).contains(sep) by {
            assert(front[i] == list[i]);
        }
        law_split_undoes_join(front, sep);
        let before = joined(front, seq![sep]) + seq![sep];
        assert(before.drop_last() =~= joined(front, seq![sep]));
        assert(split(before, sep) =~= front.push(seq![]));
        lemma_split_appended(before, last, sep);
        assert(joined(list, seq![sep]) =~= before + last);
        assert(split(before, sep).drop_last() =~= front);
        assert(Seq::<char>::empty() + last =~= last);
        assert(front.push(last) =~= list);
    }
}

/// Text without the separator behind a split text lengthens its last piece.
proof fn lemma_split_appended(s: Seq<char>, more: Seq<char>, sep: char)
    requires
        !more.contains(sep),
    ensures
        split(s + more, sep) == split(s, sep).drop_last().push(split(s, sep).last() + more),
    decreases more.len(),
{
    lemma_split_join(s, sep);
    let base = split(s, sep);
    if more.len() == 0 {
        assert(s + more =~= s);
        assert(base.last() + more =~= base.last());
        assert(base.drop_last().push(base.last()) =~= base);
    } else {
        let front = more.drop_last();
        assert(more[more.len() - 1] == more.last());
        assert(more.contains(more.last()));
        assert(!front.contains(sep)) by {
            if front.contains(sep) {
                let j = choose|j: int| 0 <= j < front.len() && front[j] == sep;
                assert(more[j] == sep);
            }
        }
        lemma_split_appended(s, front, sep);
        assert((s + more).drop_last() =~= s + front);
        assert((s + more).last() == more.last());
        assert((base.last() + front).push(more.last()) =~= base.last() + more);
        assert(base.drop_last().push(base.last() + front).drop_last() =~= base.drop_last());
    }
}

/// Lower-casing keeps the length, moves the ASCII capitals to the small letters 32 places on, and
/// leaves every other character alone.
pub proof fn law_lower_moves_capitals(s: Seq<char>)
    ensures
        lower(s).len() == s.len(),
        forall|i: int|
            0 <= i < s.len() ==> (#[trigger] lower(s)[i]) as int == if 65 <= s[i] as int <= 90 {
                s[i] as int + 32
            } else {
                s[i] as int
            },
{
    assert forall|i: int| 0 <= i < s.len() implies (#[trigger] lower(s)[i]) as int == if 65
        <= s[i] as int <= 90 {
        s[i] as int + 32
    } else {
        s[i] as int
    } by {
        assert(lower(s)[i] == lower_char(s[i]));
    }
}

/// The canonical form of a domain is the domain without the dots at its end and with its ASCII
/// capitals moved to the small letters; nothing else is dropped or changed.
pub proof fn law_canonical_form(domain: Seq<char>)
    ensures
        ({
            let n = normalized(domain).len();
            &&& n <= domain.len()
            &&& n > 0 ==> domain[n - 1] != '.'
            &&& forall|i: int| n <= i < domain.len() ==> #[trigger] domain[i] == '.'
            &&& forall|i: int|
                0 <= i < n ==> (#[trigger] normalized(domain)[i]) as int == if 65
                    <= domain[i] as int <= 90 {
                    domain[i] as int + 32
                } else {
                    domain[i] as int
                }
        }),
{
    lemma_trailing_run(domain, '.');
    law_lower_moves_capitals(without_trailing(domain, '.'));
}

proof fn lemma_trailing_run(s: Seq<char>, c: char)
    ensures
        ({
            let n = without_trailing(s, c).len();
            &&& n <= s.len()
            &&& n > 0 ==> s[n - 1] != c
            &&& forall|i: int| n <= i < s.len() ==> #[trigger] s[i] == c
            &&& forall|i: int| 0 <= i < n ==> #[trigger] without_trailing(s, c)[i] == s[i]
        }),
    decreases s.len(),
{
    if s.len() > 0 && s.last() == c {
        let less = s.drop_last();
        lemma_trailing_run(less, c);
        let n = without_trailing(less, c).len();
        assert forall|i: int| n <= i < s.len() implies #[trigger] s[i] == c by {
            if i < less.len() {
                assert(less[i] == s[i]);
            }
        }
        assert forall|i: int| 0 <= i < n implies #[trigger] without_trailing(s, c)[i] == s[i] by {
            assert(without_trailing(less, c)[i] == less[i]);
        }
        if n > 0 {
            assert(less[n - 1] == s[n - 1]);
        }
    }
}

/// A dot at the end of a domain and the case of its ASCII letters make no difference to its
/// canonical form.
pub proof fn law_canonical_form_keeps_the_name(domain: Seq<char>, dotted: Seq<char>)
    requires
        dotted == domain.push('.'),
    ensures
        normalized(dotted) == normalized(domain),
        normalized(lower(domain)) == normalized(domain),
{
    assert(dotted.drop_last() =~= domain);
    let small = lower(domain);
    lemma_trailing_run(domain, '.');
    lemma_trailing_run(small, '.');
    let n = without_trailing(domain, '.').len();
    let k = without_trailing(small, '.').len();
    assert forall|i: int| 0 <= i < domain.len() implies (#[trigger] small[i] == '.') == (domain[i]
        == '.') by {
        if domain[i] != '.' {
            lemma_lower_dot(domain[i]);
        }
    }
    if k > n {
        assert(domain[k - 1] == '.');
        assert(small[k - 1] == '.');
    }
    if n > k {
        assert(small[n - 1] == '.');
    }
    assert forall|i: int| 0 <= i < n implies normalized(small)[i] == normalized(domain)[i] by {
        lemma_lower_char_idempotent(domain[i]);
        assert(normalized(small)[i] == lower_char(small[i]));
    }
    assert(normalized(small) =~= normalized(domain));
}

/// The decimal form of a number below ten is its digit, and a further digit behind a number is a
/// further character behind its form.
pub proof fn law_decimal_appends_digits(n: nat, d: nat)
    requires
        d < 10,
    ensures
        decimal(d).len() == 1,
        decimal(d)[0] as int == 48 + d,
        n > 0 ==> decimal(n * 10 + d) == decimal(n) + decimal(d),
{
    if n > 0 {
        assert((n * 10 + d) / 10 == n);
        assert((n * 10 + d) % 10 == d);
        assert(decimal(n * 10 + d) =~= decimal(n) + decimal(d));
    }
}

/// The decimal form of a number is read as that number, or as too large where it is above the limit.
pub proof fn law_decimal_is_read_back(n: nat, max: nat)
    ensures
        number_value(decimal(n), max) == if n <= max {
            Ok::<nat, NumberFault>(n)
        } else {
            Err(NumberFault::TooLarge)
        },
{
    lemma_decimal_digits(n, max);
}

proof fn lemma_decimal_digits(n: nat, max: nat)
    ensures
        decimal(n).len() > 0,
        decimal(n)[0] != '+',
        digits_value(decimal(n), max) == if n <= max {
            Ok::<nat, NumberFault>(n)
        } else {
            Err(NumberFault::TooLarge)
        },
    decreases n,
{
    let s = decimal(n);
    let d = digit_char(n % 10);
    assert(d as nat == n % 10 + 48);
    if n < 10 {
        assert(s.drop_last() =~= seq![]);
        assert(digits_value(s.drop_last(), max) == Ok::<nat, NumberFault>(0));
        assert(s.last() == d);
    } else {
        lemma_decimal_digits(n / 10, max);
        assert(s.drop_last() =~= decimal(n / 10));
        assert(digits_value(s.drop_last(), max) == digits_value(decimal(n / 10), max));
        assert(s.last() == d);
        assert(n == (n / 10) * 10 + n % 10);
    }
}

/// Numbers are read digit by digit: nothing spells no number, a sign alone neither, a plus sign in
/// front changes nothing, and a character behind a text that spells a number multiplies it by ten
/// and adds the digit, is a fault where it is none, or makes the number too large. The leftmost
/// fault counts.
pub proof fn law_number_is_read_by_digits(s: Seq<char>, c: char, max: nat)
    ensures
        number_value(Seq::empty(), max) == Err::<nat, NumberFault>(NumberFault::Empty),
        number_value(seq!['+'], max) == Err::<nat, NumberFault>(NumberFault::InvalidDigit),
        s.len() > 0 && s[0] != '+' ==> number_value(seq!['+'] + s, max) == number_value(s, max),
        c != '+' ==> number_value(seq![c], max) == if !(48 <= c as int <= 57) {
            Err::<nat, NumberFault>(NumberFault::InvalidDigit)
        } else if c as int - 48 > max {
            Err(NumberFault::TooLarge)
        } else {
            Ok((c as int - 48) as nat)
        },
        s.len() > 0 && s != seq!['+'] ==> match number_value(s, max) {
            Err(fault) => number_value(s.push(c), max) == Err::<nat, NumberFault>(fault),
            Ok(v) => number_value(s.push(c), max) == if !(48 <= c as int <= 57) {
                Err::<nat, NumberFault>(NumberFault::InvalidDigit)
            } else if v * 10 + (c as int - 48) > max {
                Err(NumberFault::TooLarge)
            } else {
                Ok((v * 10 + (c as int - 48)) as nat)
            },
        },
{
    assert((seq!['+'] + s).drop_first() =~= s);
    let one = seq![c];
    assert(one.drop_last() =~= seq![]);
    assert(s.push(c).drop_last() =~= s);
    if s.len() > 0 && s != seq!['+'] {
        assert(s.push(c)[0] == s[0]);
        if s[0] == '+' {
            if s.len() == 1 {
                assert(s =~= seq!['+']);
            }
            assert(s.push(c).drop_first() =~= s.drop_first().push(c));
            assert(s.drop_first().push(c).drop_last() =~= s.drop_first());
        }
    }
}

/// A byte in hexadecimal is two digits, the high one first, and the digits above nine are the small
/// letters from `a`.
pub proof fn law_hexadecimal_digits(b: u8)
    ensures
        hex_byte(b).len() == 2,
        hex_byte(b)[0] as int == if b / 16 < 10 {
            48 + b / 16
        } else {
            87 + b / 16
        },
        hex_byte(b)[1] as int == if b % 16 < 10 {
            48 + b % 16
        } else {
            87 + b % 16
        },
{
}

/// Trimming takes white space from both ends and nothing else: what is left starts and ends with a
/// character that is none, and what was taken is white space.
pub proof fn law_trimming_takes_white_space_only(s: Seq<char>)
    ensures
        exists|from: int, to: int|
            #![trigger s.subrange(from, to)]
            {
                &&& 0 <= from <= to <= s.len()
                &&& trimmed(s) == s.subrange(from, to)
                &&& forall|i: int| 0 <= i < from ==> is_white(#[trigger] s[i])
                &&& forall|i: int| to <= i < s.len() ==> is_white(#[trigger] s[i])
                &&& from < to ==> !is_white(s[from]) && !is_white(s[to - 1])
            },
        trimmed(trimmed(s)) == trimmed(s),
{
    lemma_leading_run(s);
    let rest = without_leading_white(s);
    lemma_trailing_white_run(rest);
    let from = s.len() - rest.len();
    let kept = without_trailing_white(rest);
    let to = from + kept.len();
    assert forall|i: int| to <= i < s.len() implies is_white(#[trigger] s[i]) by {
        assert(rest[i - from] == s[i]);
    }
    assert(kept =~= s.subrange(from, to));
    if from < to {
        assert(kept[0] == rest[0]);
        assert(kept[kept.len() - 1] == rest[kept.len() - 1]);
    }
    lemma_leading_run(kept);
    lemma_trailing_white_run(kept);
    assert(without_leading_white(kept) =~= kept);
    assert(without_trailing_white(kept) =~= kept);
}

proof fn lemma_leading_run(s: Seq<char>)
    ensures
        ({
            let rest = without_leading_white(s);
            let n = s.len() - rest.len();
            &&& 0 <= n
            &&& rest == s.skip(n)
            &&& forall|i: int| 0 <= i < n ==> is_white(#[trigger] s[i])
            &&& n < s.len() ==> !is_white(s[n])
        }),
    decreases s.len(),
{
    if s.len() > 0 && is_white(s[0]) {
        let less = s.drop_first();
        lemma_leading_run(less);
        let rest = without_leading_white(less);
        let n = s.len() - rest.len();
        assert(rest =~= s.skip(n));
        assert forall|i: int| 0 <= i < n implies is_white(#[trigger] s[i]) by {
            if i > 0 {
                assert(less[i - 1] == s[i]);
            }
        }
        if n < s.len() {
            assert(less[n - 1] == s[n]);
        }
    } else {
        assert(s.skip(0) =~= s);
    }
}

proof fn lemma_trailing_white_run(s: Seq<char>)
    ensures
        ({
            let n = without_trailing_white(s).len();
            &&& n <= s.len()
            &&& without_trailing_white(s) == s.take(n as int)
            &&& n > 0 ==> !is_white(s[n - 1])
            &&& forall|i: int| n <= i < s.len() ==> is_white(#[trigger] s[i])
        }),
    decreases s.len(),
{
    if s.len() > 0 && is_white(s.last()) {
        let less = s.drop_last();
        lemma_trailing_white_run(less);
        let n = without_trailing_white(less).len();
        assert(less.take(n as int) =~= s.take(n as int));
        assert forall|i: int| n <= i < s.len() implies is_white(#[trigger] s[i]) by {
            if i < less.len() {
                assert(less[i] == s[i]);
            }
        }
        if n > 0 {
            assert(less[n - 1] == s[n - 1]);
        }
    } else {
        assert(s.take(s.len() as int) =~= s);
    }
}

/// The words of a text are those of its parts: white space in front counts for nothing, a text
/// without white space is one word, and a word with white space behind it is followed by the words
/// of the rest.
pub proof fn law_words_are_what_white_space_separates(space: char, word: Seq<char>, rest: Seq<char>)
    requires
        is_white(space),
        word.len() > 0,
        forall|i: int| 0 <= i < word.len() ==> !is_white(#[trigger] word[i]),
    ensures
        words(Seq::empty()) == Seq::<Seq<char>>::empty(),
        words(seq![space] + rest) == words(rest),
        words(word) == seq![word],
        words(word + seq![space] + rest) == seq![word] + words(rest),
{
    let spaced = seq![space] + rest;
    assert(spaced.drop_first() =~= rest);
    lemma_leading_white(rest);
    assert(words(spaced) == words(rest)) by {
        assert(spaced[0] == space);
        assert(without_leading_white(spaced) == without_leading_white(rest));
    }
    let none = Seq::<char>::empty();
    assert(word + none =~= word);
    lemma_word_ends(word, none);
    assert(word[0] == word.first());
    assert(word.skip(word.len() as int) =~= none);
    assert(words(none) =~= Seq::<Seq<char>>::empty());
    assert(words(word) =~= seq![word]);
    let whole = word + spaced;
    assert(word + seq![space] + rest =~= whole);
    lemma_word_ends(word, spaced);
    assert(whole[0] == word[0]);
    assert(whole.skip(word.len() as int) =~= spaced);
    assert(words(whole) == seq![word] + words(spaced));
}

proof fn lemma_word_ends(word: Seq<char>, rest: Seq<char>)
    requires
        forall|i: int| 0 <= i < word.len() ==> !is_white(#[trigger] word[i]),
        rest.len() == 0 || is_white(rest[0]),
    ensures
        first_word(word + rest) == word,
    decreases word.len(),
{
    if word.len() == 0 {
        assert(word + rest =~= rest);
    } else {
        let less = word.drop_first();
        assert forall|i: int| 0 <= i < less.len() implies !is_white(#[trigger] less[i]) by {
            assert(less[i] == word[i + 1]);
        }
        lemma_word_ends(less, rest);
        assert((word + rest).drop_first() =~= less + rest);
        assert((word + rest)[0] == word[0]);
        assert(seq![word[0]] + less =~= word);
    }
}

/// A text without a line end is one line, and a line end starts a new line: what comes before it
/// and what comes behind it are read apart.
pub proof fn law_lines_are_what_line_ends_separate(first: Seq<char>, rest: Seq<char>)
    requires
        forall|i: int|
            0 < i < first.len() ==> !(first[i - 1] == '\r' && #[trigger] first[i] == '\n'),
    ensures
        lines(first) == seq![first],
        lines(first + seq!['\r', '\n'] + rest) == seq![first] + lines(rest),
    decreases rest.len(),
{
    lemma_one_line(first);
    let ended = first + seq!['\r', '\n'];
    if rest.len() == 0 {
        assert(ended + rest =~= ended);
        let turned = first.push('\r');
        assert(ended.drop_last() =~= turned);
        assert(turned.drop_last() =~= first);
        assert(lines(turned) =~= seq![turned]);
        assert(turned.drop_last() =~= first);
        assert(lines(ended) =~= seq![first].push(seq![]));
        assert(lines(rest) =~= seq![Seq::<char>::empty()]);
        assert(lines(ended + rest) =~= seq![first] + lines(rest));
    } else {
        let less = rest.drop_last();
        law_lines_are_what_line_ends_separate(first, less);
        let front = lines(less);
        lemma_some_line(less);
        assert((ended + rest).drop_last() =~= ended + less);
        assert((ended + rest).last() == rest.last());
        assert((seq![first] + front).last() == front.last());
        assert((seq![first] + front).drop_last() =~= seq![first] + front.drop_last());
        assert(lines(ended + rest) =~= seq![first] + lines(rest));
    }
}

proof fn lemma_some_line(s: Seq<char>)
    ensures
        lines(s).len() >= 1,
    decreases s.len(),
{
    if s.len() > 0 {
        lemma_some_line(s.drop_last());
    }
}

proof fn lemma_one_line(s: Seq<char>)
    requires
        forall|i: int| 0 < i < s.len() ==> !(s[i - 1] == '\r' && #[trigger] s[i] == '\n'),
    ensures
        lines(s) == seq![s],
    decreases s.len(),
{
    if s.len() == 0 {
        assert(s =~= Seq::<char>::empty());
    } else {
        let less = s.drop_last();
        assert forall|i: int| 0 < i < less.len() implies !(less[i - 1] == '\r' && #[trigger] less[i]
            == '\n') by {
            assert(less[i] == s[i]);
        }
        lemma_one_line(less);
        assert(lines(less).last() == less);
        if s.last() == '\n' && less.len() > 0 && less.last() == '\r' {
            assert(s[s.len() - 2] == less.last());
            assert(s[s.len() - 1] == '\n');
        }
        assert(less.push(s.last()) =~= s);
        assert(lines(s) =~= seq![s]);
    }
}

/// A text is split at the first separator: the parts with the separator between them are the text,
/// the part in front has no separator, and there are no parts exactly where the text has none.
pub proof fn law_split_at_first_separator(s: Seq<char>, sep: char)
    ensures
        match split_at_first(s, sep) {
            Some((before, after)) => s == before + seq![sep] + after && !before.contains(sep),
            None => !s.contains(sep),
        },
    decreases s.len(),
{
    if s.len() > 0 {
        let rest = s.drop_first();
        if s[0] == sep {
            assert(s =~= Seq::<char>::empty() + seq![sep] + rest);
        } else {
            law_split_at_first_separator(rest, sep);
            match split_at_first(rest, sep) {
                Some((before, after)) => {
                    let whole = seq![s[0]] + before;
                    assert(s =~= seq![s[0]] + rest);
                    assert(s =~= whole + seq![sep] + after);
                    if whole.contains(sep) {
                        let i = choose|i: int| 0 <= i < whole.len() && whole[i] == sep;
                        assert(before[i - 1] == sep);
                    }
                },
                None => {
                    if s.contains(sep) {
                        let i = choose|i: int| 0 <= i < s.len() && s[i] == sep;
                        assert(rest[i - 1] == sep);
                    }
                },
            }
        }
    }
}

/// A list of texts shows each of them, in order, and an optional text shows itself.
pub proof fn law_text_views_show_everything(list: Seq<String>, value: String)
    ensures
        texts(list).len() == list.len(),
        forall|i: int| 0 <= i < list.len() ==> #[trigger] texts(list)[i] == list[i]@,
        option_text(Some(value)) == Some(value@),
        option_text(None) is None,
{
}

/// Each reason why a number cannot be read has its own text.
pub proof fn law_number_faults_are_told_apart(fault: NumberFault)
    ensures
        fault_text(fault) == match fault {
            NumberFault::Empty => "cannot parse integer from empty string"@,
            NumberFault::InvalidDigit => "invalid digit found in string"@,
            NumberFault::TooLarge => "number too large to fit in target type"@,
        },
{
}

/// White space is what has the Unicode property: the tabs and line ends from 9 to 13, the spaces at
/// 32, 133, 160, 5760 and 8192 to 8202, the separators 8232 and 8233, and the spaces at 8239, 8287
/// and 12288; no other character is.
pub proof fn law_white_space_characters(c: char)
    ensures
        is_white(c) <==> {
            let code = c as int;
            ||| 9 <= code <= 13
            ||| code == 32
            ||| code == 133
            ||| code == 160
            ||| code == 5760
            ||| 8192 <= code <= 8202
            ||| 8232 <= code <= 8233
            ||| code == 8239
            ||| code == 8287
            ||| code == 12288
        },
{
}

} // verus!
