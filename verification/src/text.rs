//! Text helpers: characters, trimming, searching, byte lengths and decimal numbers.
use vstd::prelude::*;
use vstd::string::*;

verus! {

/// `std::string::String::push`: appends one character.
pub assume_specification[ String::push ](string: &mut String, ch: char)
    ensures
        final(string)@ == old(string)@.push(ch),
;

/// The text that `String::from_utf8_lossy` reads out of `bytes`.
pub uninterp spec fn lossy_text(bytes: Seq<u8>) -> Seq<char>;

/// Calls `std::string::String::from_utf8_lossy`. [`lossy_text`] names the text; where
/// `bytes` are valid UTF-8 it is the text they encode.
#[verifier::external_body]
pub(crate) fn decode_lossy(bytes: &[u8]) -> (text: String)
    ensures
        text@ == lossy_text(bytes@),
        vstd::utf8::valid_utf8(bytes@) ==> text@ == vstd::utf8::decode_utf8(bytes@),
{
    String::from_utf8_lossy(bytes).into_owned()
}

/// `text` as its `Debug` writes it: in quotes, with escapes.
pub uninterp spec fn quoted(text: Seq<char>) -> Seq<char>;

/// Calls `str`'s `Debug`. [`quoted`] names the text that results.
#[verifier::external_body]
pub(crate) fn quote(text: &str) -> (out: String)
    ensures
        out@ == quoted(text@),
{
    format!("{text:?}")
}

/// `text` in lower case, as `str::to_lowercase` turns it.
pub uninterp spec fn lowercase(text: Seq<char>) -> Seq<char>;

/// Calls `str::to_lowercase`. [`lowercase`] names the text that results.
#[verifier::external_body]
pub(crate) fn lower(text: &str) -> (out: String)
    ensures
        out@ == lowercase(text@),
{
    text.to_lowercase()
}

/// The characters of `text`, in order.
pub fn chars_of(text: &str) -> (chars: Vec<char>)
    ensures
        chars@ == text@,
{
    let mut chars: Vec<char> = Vec::new();
    for c in iter: text.chars()
        invariant
            chars@ == text@.subrange(0, iter.index()),
            iter.seq() == text@,
    {
        chars.push(c);
    }
    chars
}

/// The text made of `chars[from..to]`.
pub fn string_of(chars: &Vec<char>, from: usize, to: usize) -> (text: String)
    requires
        from <= to <= chars@.len(),
    ensures
        text@ == chars@.subrange(from as int, to as int),
{
    let mut text = String::new();
    let mut i: usize = from;
    while i < to
        invariant
            from <= i <= to <= chars@.len(),
            text@ == chars@.subrange(from as int, i as int),
        decreases to - i,
    {
        text.push(chars[i]);
        i += 1;
    }
    text
}

/// What the texts of a list say.
pub open spec fn texts(list: Seq<String>) -> Seq<Seq<char>> {
    list.map_values(|text: String| text@)
}

/// Whether two texts hold the same characters.
pub fn same(left: &str, right: &str) -> (equal: bool)
    ensures
        equal == (left@ == right@),
{
    let l = chars_of(left);
    let r = chars_of(right);
    if l.len() != r.len() {
        return false;
    }
    let mut i: usize = 0;
    while i < l.len()
        invariant
            0 <= i <= l@.len(),
            l@.len() == r@.len(),
            l@ == left@,
            r@ == right@,
            forall|j: int| 0 <= j < i ==> l@[j] == r@[j],
        decreases l@.len() - i,
    {
        if l[i] != r[i] {
            return false;
        }
        i += 1;
    }
    assert(l@ =~= r@);
    true
}

/// Whether `c` is a Unicode white-space character.
pub open spec fn is_space(c: char) -> bool {
    ||| 0x9 <= c as u32 <= 0xd
    ||| c as u32 == 0x20
    ||| c as u32 == 0x85
    ||| c as u32 == 0xa0
    ||| c as u32 == 0x1680
    ||| 0x2000 <= c as u32 <= 0x200a
    ||| c as u32 == 0x2028
    ||| c as u32 == 0x2029
    ||| c as u32 == 0x202f
    ||| c as u32 == 0x205f
    ||| c as u32 == 0x3000
}

/// Whether `c` is a Unicode white-space character.
pub fn is_whitespace(c: char) -> (space: bool)
    ensures
        space == is_space(c),
{
    let n: u32 = c as u32;
    (0x9 <= n && n <= 0xd) || n == 0x20 || n == 0x85 || n == 0xa0 || n == 0x1680 || (0x2000 <= n
        && n <= 0x200a) || n == 0x2028 || n == 0x2029 || n == 0x202f || n == 0x205f || n == 0x3000
}

/// `text` without its leading white space.
pub open spec fn trimmed_start(text: Seq<char>) -> Seq<char>
    decreases text.len(),
{
    if text.len() > 0 && is_space(text[0]) {
        trimmed_start(text.drop_first())
    } else {
        text
    }
}

/// `text` without its trailing white space.
pub open spec fn trimmed_end(text: Seq<char>) -> Seq<char>
    decreases text.len(),
{
    if text.len() > 0 && is_space(text.last()) {
        trimmed_end(text.drop_last())
    } else {
        text
    }
}

/// `text` without its leading and trailing white space.
pub open spec fn trimmed(text: Seq<char>) -> Seq<char> {
    trimmed_end(trimmed_start(text))
}

/// `text` without its leading and trailing white space.
pub fn trim(text: &str) -> (out: String)
    ensures
        out@ == trimmed(text@),
{
    let chars = chars_of(text);
    let mut from: usize = 0;
    assert(chars@.subrange(0, chars@.len() as int) =~= chars@);
    while from < chars.len() && is_whitespace(chars[from])
        invariant
            0 <= from <= chars@.len(),
            chars@ == text@,
            trimmed_start(chars@.subrange(from as int, chars@.len() as int)) == trimmed_start(
                text@,
            ),
        decreases chars@.len() - from,
    {
        assert(chars@.subrange(from as int, chars@.len() as int).drop_first() =~= chars@.subrange(
            from + 1,
            chars@.len() as int,
        ));
        from += 1;
    }
    let ghost start = trimmed_start(text@);
    assert(start == chars@.subrange(from as int, chars@.len() as int));
    let mut to: usize = chars.len();
    while from < to && is_whitespace(chars[to - 1])
        invariant
            from <= to <= chars@.len(),
            trimmed_end(chars@.subrange(from as int, to as int)) == trimmed_end(start),
        decreases to,
    {
        assert(chars@.subrange(from as int, to as int).drop_last() =~= chars@.subrange(
            from as int,
            to - 1,
        ));
        to -= 1;
    }
    string_of(&chars, from, to)
}

/// Whether `text` is empty but for white space.
pub fn is_blank(text: &str) -> (blank: bool)
    ensures
        blank == (trimmed(text@).len() == 0),
{
    trim(text).as_str().is_empty()
}

/// How many bytes `c` takes in UTF-8.
pub open spec fn utf8_width(c: char) -> nat {
    if (c as u32) < 0x80 {
        1
    } else if (c as u32) < 0x800 {
        2
    } else if (c as u32) < 0x10000 {
        3
    } else {
        4
    }
}

/// How many bytes `text` takes in UTF-8.
pub open spec fn byte_len(text: Seq<char>) -> nat
    decreases text.len(),
{
    if text.len() == 0 {
        0
    } else {
        byte_len(text.drop_last()) + utf8_width(text.last())
    }
}

/// The longest beginning of `text` that takes at most `limit` bytes in UTF-8.
pub open spec fn fitting(text: Seq<char>, limit: nat) -> Seq<char>
    decreases text.len(),
{
    if text.len() == 0 || byte_len(text) <= limit {
        text
    } else {
        fitting(text.drop_last(), limit)
    }
}

/// `text` trimmed, and cut to `limit` bytes with an ellipsis where it is longer.
pub open spec fn excerpted(text: Seq<char>, limit: nat) -> Seq<char> {
    let body = trimmed(text);
    if byte_len(body) <= limit {
        body
    } else {
        fitting(body, limit).push('…')
    }
}

/// A longer beginning takes at least as many bytes.
pub proof fn lemma_byte_len_monotone(text: Seq<char>, n: int)
    requires
        0 <= n <= text.len(),
    ensures
        byte_len(text.subrange(0, n)) <= byte_len(text),
    decreases text.len(),
{
    if n < text.len() {
        lemma_byte_len_monotone(text.drop_last(), n);
        assert(text.drop_last().subrange(0, n) =~= text.subrange(0, n));
    } else {
        assert(text.subrange(0, n) =~= text);
    }
}

/// The beginning that fits, by its length.
proof fn lemma_fitting(text: Seq<char>, limit: nat, n: int)
    requires
        0 <= n <= text.len(),
        byte_len(text.subrange(0, n)) <= limit,
        n < text.len() ==> byte_len(text.subrange(0, n + 1)) > limit,
    ensures
        fitting(text, limit) == text.subrange(0, n),
    decreases text.len(),
{
    if n == text.len() {
        assert(text.subrange(0, n) =~= text);
    } else {
        lemma_byte_len_monotone(text, n + 1);
        assert(text.drop_last().subrange(0, n) =~= text.subrange(0, n));
        if n < text.len() - 1 {
            assert(text.drop_last().subrange(0, n + 1) =~= text.subrange(0, n + 1));
        }
        lemma_fitting(text.drop_last(), limit, n);
    }
}

/// An excerpt takes at most `limit` bytes and an ellipsis, and what it holds before
/// the ellipsis is a beginning of the trimmed text.
pub proof fn excerpts_are_bounded_beginnings(text: Seq<char>, limit: nat)
    ensures
        byte_len(excerpted(text, limit)) <= limit + 3,
        byte_len(trimmed(text)) <= limit ==> excerpted(text, limit) == trimmed(text),
        byte_len(trimmed(text)) > limit ==> {
            let kept = excerpted(text, limit).drop_last();
            &&& excerpted(text, limit).last() == '…'
            &&& kept.is_prefix_of(trimmed(text))
            &&& byte_len(kept) <= limit
        },
{
    let body = trimmed(text);
    if byte_len(body) > limit {
        lemma_fitting_is_prefix(body, limit);
        assert(fitting(body, limit).push('…').drop_last() =~= fitting(body, limit));
    }
}

proof fn lemma_fitting_is_prefix(text: Seq<char>, limit: nat)
    ensures
        fitting(text, limit).is_prefix_of(text),
        byte_len(fitting(text, limit)) <= limit,
    decreases text.len(),
{
    if !(text.len() == 0 || byte_len(text) <= limit) {
        lemma_fitting_is_prefix(text.drop_last(), limit);
    }
}

/// How many bytes `c` takes in UTF-8.
pub fn width(c: char) -> (n: usize)
    ensures
        n == utf8_width(c),
{
    let code: u32 = c as u32;
    if code < 0x80 {
        1
    } else if code < 0x800 {
        2
    } else if code < 0x10000 {
        3
    } else {
        4
    }
}

/// `text` trimmed, and cut to `limit` bytes with an ellipsis where it is longer.
pub fn excerpt(text: &str, limit: usize) -> (out: String)
    ensures
        out@ == excerpted(text@, limit as nat),
{
    let body = trim(text);
    let chars = chars_of(body.as_str());
    let mut used: usize = 0;
    let mut i: usize = 0;
    assert(chars@.subrange(0, 0) =~= Seq::<char>::empty());
    while i < chars.len()
        invariant
            0 <= i <= chars@.len(),
            used <= limit,
            chars@ == body@,
            body@ == trimmed(text@),
            used == byte_len(chars@.subrange(0, i as int)),
        decreases chars@.len() - i,
    {
        let step: usize = width(chars[i]);
        assert(chars@.subrange(0, i + 1).drop_last() =~= chars@.subrange(0, i as int));
        if step > limit - used {
            proof {
                lemma_fitting(chars@, limit as nat, i as int);
                lemma_byte_len_monotone(chars@, i + 1);
            }
            let mut out = string_of(&chars, 0, i);
            out.push('…');
            return out;
        }
        used += step;
        i += 1;
    }
    assert(chars@.subrange(0, chars@.len() as int) =~= chars@);
    body
}

/// Whether `part` stands in `text` at `at`.
pub open spec fn occurs_at(text: Seq<char>, part: Seq<char>, at: int) -> bool {
    &&& 0 <= at
    &&& at + part.len() <= text.len()
    &&& text.subrange(at, at + part.len()) == part
}

/// Whether `part` stands anywhere in `text`.
pub open spec fn occurs(text: Seq<char>, part: Seq<char>) -> bool {
    exists|at: int| occurs_at(text, part, at)
}

/// What stands between two texts stands in their concatenation.
pub proof fn lemma_occurs_between(before: Seq<char>, part: Seq<char>, after: Seq<char>)
    ensures
        occurs_at(before + part + after, part, before.len() as int),
        occurs(before + part + after, part),
{
    let text = before + part + after;
    let at = before.len() as int;
    assert(text.subrange(at, at + part.len()) =~= part);
    assert(occurs_at(text, part, at));
}

/// What stands in a text stands in it with more behind.
pub proof fn lemma_occurs_with_more(text: Seq<char>, more: Seq<char>, part: Seq<char>)
    requires
        occurs(text, part),
    ensures
        occurs(text + more, part),
{
    let at = choose|at: int| occurs_at(text, part, at);
    assert((text + more).subrange(at, at + part.len()) =~= text.subrange(at, at + part.len()));
    assert(occurs_at(text + more, part, at));
}

/// Two texts at the end of another stand in it together.
pub proof fn lemma_occurs_at_the_end(before: Seq<char>, first: Seq<char>, second: Seq<char>)
    ensures
        occurs(before + first + second, first + second),
{
    let text = before + first + second;
    let part = first + second;
    let at = before.len() as int;
    assert(text.subrange(at, at + part.len()) =~= part);
    assert(occurs_at(text, part, at));
}

/// Whether `part` stands in `text` at `at`.
pub fn stands_at(text: &Vec<char>, part: &Vec<char>, at: usize) -> (stands: bool)
    ensures
        stands == occurs_at(text@, part@, at as int),
{
    if at > text.len() || part.len() > text.len() - at {
        return false;
    }
    let mut i: usize = 0;
    while i < part.len()
        invariant
            0 <= i <= part@.len(),
            at + part@.len() <= text@.len() <= usize::MAX,
            forall|j: int| 0 <= j < i ==> text@[at + j] == part@[j],
        decreases part@.len() - i,
    {
        if text[at + i] != part[i] {
            assert(text@.subrange(at as int, at + part@.len())[i as int] != part@[i as int]);
            return false;
        }
        i += 1;
    }
    assert(text@.subrange(at as int, at + part@.len()) =~= part@);
    true
}

/// Where `part` first stands in `text`, at `from` or later.
pub fn find(text: &Vec<char>, part: &Vec<char>, from: usize) -> (at: Option<usize>)
    ensures
        match at {
            Some(at) => {
                &&& from <= at
                &&& occurs_at(text@, part@, at as int)
                &&& forall|j: int| from <= j < at ==> !occurs_at(text@, part@, j)
            },
            None => forall|j: int| from <= j ==> !occurs_at(text@, part@, j),
        },
{
    let mut at: usize = from;
    while at < text.len()
        invariant
            from <= at,
            forall|j: int| from <= j < at ==> !occurs_at(text@, part@, j),
        decreases text@.len() - at,
    {
        if stands_at(text, part, at) {
            return Some(at);
        }
        at += 1;
    }
    if stands_at(text, part, at) {
        return Some(at);
    }
    None
}

/// Whether `part` stands anywhere in `text`.
pub fn contains(text: &str, part: &str) -> (found: bool)
    ensures
        found == occurs(text@, part@),
{
    match find(&chars_of(text), &chars_of(part), 0) {
        Some(at) => {
            assert(occurs_at(text@, part@, at as int));
            true
        },
        None => {
            assert forall|j: int| !occurs_at(text@, part@, j) by {
                if 0 <= j {
                }
            }
            false
        },
    }
}

/// The decimal digit of `d`.
pub open spec fn digit(d: nat) -> char {
    ('0' as u32 + d) as char
}

/// `n` in decimal.
pub open spec fn decimal_digits(n: nat) -> Seq<char>
    decreases n,
{
    if n < 10 {
        seq![digit(n)]
    } else {
        decimal_digits(n / 10).push(digit(n % 10))
    }
}

/// `n` in decimal, with its sign where it is negative.
pub open spec fn decimal_integer(n: int) -> Seq<char> {
    if n < 0 {
        seq!['-'] + decimal_digits((-n) as nat)
    } else {
        decimal_digits(n as nat)
    }
}

/// `n` in decimal.
pub fn decimal(n: u64) -> (text: String)
    ensures
        text@ == decimal_digits(n as nat),
    decreases n,
{
    let d: u8 = (n % 10) as u8;
    let c: char = (48u8 + d) as char;
    let mut text = if n < 10 {
        String::new()
    } else {
        decimal(n / 10)
    };
    text.push(c);
    text
}

/// `n` in decimal, with its sign where it is negative.
pub fn signed_decimal(n: i64) -> (text: String)
    ensures
        text@ == decimal_integer(n as int),
{
    if n >= 0 {
        decimal(n as u64)
    } else {
        let mut text = String::new();
        text.push('-');
        let magnitude: u64 = (-(n + 1)) as u64 + 1;
        text.append(decimal(magnitude).as_str());
        assert(text@ =~= seq!['-'] + decimal_digits((-n) as nat));
        text
    }
}

/// The part of a second that `thousandths` are, without trailing zeros.
pub open spec fn fraction(thousandths: nat) -> Seq<char> {
    if thousandths == 0 {
        Seq::empty()
    } else if thousandths % 100 == 0 {
        seq!['.', digit(thousandths / 100)]
    } else if thousandths % 10 == 0 {
        seq!['.', digit(thousandths / 100), digit(thousandths / 10 % 10)]
    } else {
        seq!['.', digit(thousandths / 100), digit(thousandths / 10 % 10), digit(thousandths % 10)]
    }
}

/// A span of `millis` milliseconds, as logs show it.
pub open spec fn span_text(millis: nat) -> Seq<char> {
    if millis == 0 {
        "0ns"@
    } else if millis < 1000 {
        decimal_digits(millis) + "ms"@
    } else {
        decimal_digits(millis / 1000) + fraction(millis % 1000) + "s"@
    }
}

fn digit_char(d: u64) -> (c: char)
    requires
        d < 10,
    ensures
        c == digit(d as nat),
{
    (48u8 + d as u8) as char
}

/// A span of `millis` milliseconds, as logs show it.
pub fn span(millis: u64) -> (text: String)
    ensures
        text@ == span_text(millis as nat),
{
    if millis == 0 {
        return "0ns".to_owned();
    }
    if millis < 1000 {
        let mut text = decimal(millis);
        text.append("ms");
        return text;
    }
    let mut text = decimal(millis / 1000);
    let ghost whole = text@;
    let rest: u64 = millis % 1000;
    if rest > 0 {
        text.push('.');
        text.push(digit_char(rest / 100));
        if rest % 100 != 0 {
            text.push(digit_char(rest / 10 % 10));
            if rest % 10 != 0 {
                text.push(digit_char(rest % 10));
            }
        }
    }
    assert(text@ =~= whole + fraction(rest as nat));
    text.append("s");
    text
}

proof fn lemma_trimmed_start(text: Seq<char>)
    ensures
        trimmed_start(text).is_suffix_of(text),
        forall|i: int|
            0 <= i < text.len() - trimmed_start(text).len() ==> is_space(#[trigger] text[i]),
        trimmed_start(text).len() > 0 ==> !is_space(trimmed_start(text)[0]),
    decreases text.len(),
{
    if text.len() > 0 && is_space(text[0]) {
        let rest = text.drop_first();
        lemma_trimmed_start(rest);
        let kept = trimmed_start(text);
        assert(text.subrange(text.len() - kept.len(), text.len() as int) =~= rest.subrange(
            rest.len() - kept.len(),
            rest.len() as int,
        ));
        assert forall|i: int| 0 <= i < text.len() - kept.len() implies is_space(
            #[trigger] text[i],
        ) by {
            if i > 0 {
                assert(rest[i - 1] == text[i]);
            }
        }
    } else {
        assert(text.subrange(0, text.len() as int) =~= text);
    }
}

proof fn lemma_trimmed_end(text: Seq<char>)
    ensures
        trimmed_end(text).is_prefix_of(text),
        forall|i: int| trimmed_end(text).len() <= i < text.len() ==> is_space(#[trigger] text[i]),
        trimmed_end(text).len() > 0 ==> !is_space(trimmed_end(text).last()),
    decreases text.len(),
{
    if text.len() > 0 && is_space(text.last()) {
        let rest = text.drop_last();
        lemma_trimmed_end(rest);
        assert forall|i: int| trimmed_end(text).len() <= i < text.len() implies is_space(
            #[trigger] text[i],
        ) by {
            if i < rest.len() {
                assert(rest[i] == text[i]);
            }
        }
    }
}

/// Trimming takes the white space off both ends and nothing else: what is left stands in
/// the text with white space alone around it, and neither begins nor ends with any.
pub proof fn trimming_takes_white_space_alone(text: Seq<char>)
    ensures
        exists|before: Seq<char>, after: Seq<char>| #[trigger]
            (before + trimmed(text) + after) == text && (forall|i: int|
                0 <= i < before.len() ==> is_space(#[trigger] before[i])) && (forall|i: int|
                0 <= i < after.len() ==> is_space(#[trigger] after[i])),
        trimmed(text).len() > 0 ==> !is_space(trimmed(text)[0]) && !is_space(trimmed(text).last()),
        trimmed_start(text).is_suffix_of(text),
        trimmed_start(text).len() > 0 ==> !is_space(trimmed_start(text)[0]),
{
    lemma_trimmed_start(text);
    let middle = trimmed_start(text);
    lemma_trimmed_end(middle);
    let kept = trimmed(text);
    let skipped = text.len() - middle.len();
    let before = text.subrange(0, skipped);
    let after = middle.subrange(kept.len() as int, middle.len() as int);
    assert(middle =~= text.subrange(skipped, text.len() as int));
    assert(kept =~= middle.subrange(0, kept.len() as int));
    assert(before + kept + after =~= text);
    assert forall|i: int| 0 <= i < after.len() implies is_space(#[trigger] after[i]) by {
        assert(after[i] == middle[kept.len() + i]);
    }
}

/// The number that decimal digits stand for.
pub open spec fn digits_value(digits: Seq<char>) -> int
    decreases digits.len(),
{
    if digits.len() == 0 {
        0
    } else {
        10 * digits_value(digits.drop_last()) + (digits.last() as u32 - '0' as u32)
    }
}

/// A number's digits stand for the number, and there is no zero before them but in zero
/// itself.
pub proof fn decimals_stand_for_their_number(n: nat)
    ensures
        digits_value(decimal_digits(n)) == n,
        decimal_digits(n).len() > 0,
        n > 0 ==> decimal_digits(n)[0] != '0',
        forall|i: int|
            0 <= i < decimal_digits(n).len() ==> '0' <= #[trigger] decimal_digits(n)[i] <= '9',
    decreases n,
{
    let digits = decimal_digits(n);
    if n < 10 {
        assert(digits.drop_last() =~= Seq::empty());
        assert(digits_value(digits.drop_last()) == 0);
    } else {
        decimals_stand_for_their_number(n / 10);
        assert(digits.drop_last() =~= decimal_digits(n / 10));
    }
}

/// A negative number is its magnitude behind a minus sign.
pub proof fn signs_stand_before_digits(n: nat)
    ensures
        decimal_integer(n as int) == decimal_digits(n),
        n > 0 ==> decimal_integer(-(n as int)) == seq!['-'] + decimal_digits(n),
{
}

/// A span is told in milliseconds up to a second and in seconds from there; zero is told
/// in the smallest unit, and a whole number of seconds without a fraction.
pub proof fn spans_are_told_in_fitting_units(seconds: nat, millis: nat)
    ensures
        span_text(0) == "0ns"@,
        0 < millis < 1000 ==> span_text(millis) == decimal_digits(millis) + "ms"@,
        seconds > 0 ==> span_text(seconds * 1000) == decimal_digits(seconds) + "s"@,
        seconds > 0 && 0 < millis < 1000 ==> (decimal_digits(seconds) + "."@).is_prefix_of(
            span_text(seconds * 1000 + millis),
        ) && "s"@.is_suffix_of(span_text(seconds * 1000 + millis)),
{
    reveal_strlit(".");
    assert("."@ =~= seq!['.']);
    if seconds > 0 {
        assert((seconds * 1000) / 1000 == seconds);
        assert((seconds * 1000) % 1000 == 0);
        assert(decimal_digits(seconds) + Seq::<char>::empty() =~= decimal_digits(seconds));
        if 0 < millis < 1000 {
            let all = seconds * 1000 + millis;
            assert(all / 1000 == seconds);
            assert(all % 1000 == millis);
            let whole = span_text(all);
            let head = decimal_digits(seconds) + "."@;
            assert(fraction(millis)[0] == '.');
            assert(whole.subrange(0, head.len() as int) =~= head);
            assert(whole.subrange(whole.len() - "s"@.len(), whole.len() as int) =~= "s"@);
        }
    }
}

/// Where a text is cut, as much is kept as fits: one character more would take more than
/// the limit.
pub proof fn excerpts_keep_what_fits(text: Seq<char>, limit: nat)
    requires
        byte_len(trimmed(text)) > limit,
    ensures
        ({
            let kept = excerpted(text, limit).len() - 1;
            &&& 0 <= kept < trimmed(text).len()
            &&& byte_len(trimmed(text).subrange(0, kept + 1)) > limit
        }),
{
    let body = trimmed(text);
    lemma_fitting_is_longest(body, limit);
}

proof fn lemma_fitting_is_longest(text: Seq<char>, limit: nat)
    requires
        byte_len(text) > limit,
    ensures
        fitting(text, limit).len() < text.len(),
        byte_len(text.subrange(0, fitting(text, limit).len() as int + 1)) > limit,
    decreases text.len(),
{
    let rest = text.drop_last();
    if rest.len() == 0 || byte_len(rest) <= limit {
        assert(fitting(text, limit) == rest);
        assert(text.subrange(0, rest.len() as int + 1) =~= text);
    } else {
        lemma_fitting_is_longest(rest, limit);
        let n = fitting(rest, limit).len() as int;
        assert(rest.subrange(0, n + 1) =~= text.subrange(0, n + 1));
    }
}

} // verus!
