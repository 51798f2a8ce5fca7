//! Text primitives: characters, their UTF-8 widths, and conversions between
//! strings and character vectors.

use vstd::prelude::*;
use vstd::utf8::encode_utf8;
use vstd::utf8::encode_scalar;

verus! {

/// `String::push`, which appends one character to the end of the string.
/// Taken on trust, as the documentation of the standard library states it.
pub assume_specification[ String::push ](s: &mut String, ch: char)
    ensures
        final(s)@ == old(s)@.push(ch),
;

/// Number of bytes that `text` occupies in UTF-8.
pub open spec fn encoded_len(text: Seq<char>) -> nat {
    encode_utf8(text).len()
}

/// Number of bytes that the UTF-8 encoding of `c` occupies: 1 to 4.
pub open spec fn char_width(c: char) -> nat {
    encode_scalar(c as u32).len()
}

/// The characters of `s`, in order.
pub fn chars_of(s: &str) -> (chars: Vec<char>)
    ensures
        chars@ == s@,
{
    let mut chars: Vec<char> = Vec::new();
    for c in it: s.chars()
        invariant
            chars@ == it.seq().take(it.index() as int),
            it.seq() == s@,
    {
        chars.push(c);
    }
    chars
}

/// The string made of `chars`, in order.
pub fn string_of(chars: &Vec<char>) -> (s: String)
    ensures
        s@ == chars@,
{
    let mut s = String::new();
    let mut i: usize = 0;
    while i < chars.len()
        invariant
            i <= chars.len(),
            s@ == chars@.take(i as int),
        decreases chars.len() - i,
    {
        s.push(chars[i]);
        i += 1;
    }
    s
}

/// The encoded length of a concatenation is the sum of the encoded lengths.
pub proof fn lemma_encoded_len_concat(a: Seq<char>, b: Seq<char>)
    ensures
        encoded_len(a + b) == encoded_len(a) + encoded_len(b),
    decreases a.len(),
{
    if a.len() == 0 {
        assert(a + b =~= b);
    } else {
        assert((a + b).drop_first() =~= a.drop_first() + b);
        lemma_encoded_len_concat(a.drop_first(), b);
    }
}

/// Appending one character adds its width to the encoded length.
pub proof fn lemma_encoded_len_push(a: Seq<char>, c: char)
    ensures
        encoded_len(a.push(c)) == encoded_len(a) + char_width(c),
        1 <= char_width(c) <= 4,
{
    let one = seq![c];
    assert(a.push(c) =~= a + one);
    lemma_encoded_len_concat(a, one);
    assert(one.drop_first() =~= Seq::<char>::empty());
    assert(encode_utf8(one) =~= encode_scalar(c as u32) + encode_utf8(one.drop_first()));
}

/// A prefix never encodes to more bytes than the whole.
pub proof fn lemma_encoded_len_prefix(a: Seq<char>, n: int)
    requires
        0 <= n <= a.len(),
    ensures
        encoded_len(a.take(n)) <= encoded_len(a),
        encoded_len(a.take(n)) + encoded_len(a.skip(n)) == encoded_len(a),
{
    assert(a =~= a.take(n) + a.skip(n));
    lemma_encoded_len_concat(a.take(n), a.skip(n));
}

/// Width in bytes of the UTF-8 encoding of `c`.
pub fn width_of(c: char) -> (w: usize)
    ensures
        w == char_width(c),
        1 <= w <= 4,
{
    let v: u32 = c as u32;
    if v <= 0x7F {
        1
    } else if v <= 0x7FF {
        2
    } else if v <= 0xFFFF {
        proof {
            vstd::utf8::char_is_scalar(c);
        }
        3
    } else {
        4
    }
}

/// True for the code points that Unicode gives the property White_Space.
pub open spec fn is_white_space(c: char) -> bool {
    let v = c as u32;
    ||| 0x09 <= v <= 0x0D
    ||| v == 0x20
    ||| v == 0x85
    ||| v == 0xA0
    ||| v == 0x1680
    ||| 0x2000 <= v <= 0x200A
    ||| v == 0x2028
    ||| v == 0x2029
    ||| v == 0x202F
    ||| v == 0x205F
    ||| v == 0x3000
}

/// True when `text` holds nothing but white space; the empty text is blank.
pub open spec fn is_blank(text: Seq<char>) -> bool {
    forall|i: int| 0 <= i < text.len() ==> is_white_space(#[trigger] text[i])
}

/// A text that holds a text which is not blank is not blank.
pub proof fn lemma_not_blank_within(before: Seq<char>, part: Seq<char>, after: Seq<char>)
    requires
        !is_blank(part),
    ensures
        !is_blank(before + part + after),
{
    let k = choose|k: int| 0 <= k < part.len() && !is_white_space(part[k]);
    assert((before + part + after)[before.len() + k] == part[k]);
}

/// Whether `c` is white space.
pub fn is_whitespace(c: char) -> (b: bool)
    ensures
        b == is_white_space(c),
{
    let v: u32 = c as u32;
    (0x09 <= v && v <= 0x0D) || v == 0x20 || v == 0x85 || v == 0xA0 || v == 0x1680 || (0x2000 <= v
        && v <= 0x200A) || v == 0x2028 || v == 0x2029 || v == 0x202F || v == 0x205F || v == 0x3000
}

/// Whether `chars` holds nothing but white space.
pub fn blank(chars: &Vec<char>) -> (b: bool)
    ensures
        b == is_blank(chars@),
{
    let mut i: usize = 0;
    while i < chars.len()
        invariant
            i <= chars.len(),
            is_blank(chars@.take(i as int)),
        decreases chars.len() - i,
    {
        if !is_whitespace(chars[i]) {
            return false;
        }
        assert(is_blank(chars@.take(i + 1))) by {
            assert forall|k: int| 0 <= k < i + 1 implies is_white_space(
                #[trigger] chars@.take(i + 1)[k],
            ) by {
                if k < i {
                    assert(chars@.take(i as int)[k] == chars@[k]);
                }
            }
        }
        i += 1;
    }
    assert(chars@.take(i as int) =~= chars@);
    true
}

/// Appends the characters of `more` to `chars`.
pub fn append_chars(chars: &mut Vec<char>, more: &Vec<char>)
    ensures
        final(chars)@ == old(chars)@ + more@,
{
    let mut i: usize = 0;
    while i < more.len()
        invariant
            i <= more.len(),
            chars@ == old(chars)@ + more@.take(i as int),
        decreases more.len() - i,
    {
        chars.push(more[i]);
        assert(more@.take(i + 1) =~= more@.take(i as int).push(more@[i as int]));
        i += 1;
    }
    assert(more@.take(i as int) =~= more@);
}

/// The encoded length of `chars` where it does not exceed `cap`; `None` where it does.
pub fn size_within(chars: &Vec<char>, cap: usize) -> (size: Option<usize>)
    ensures
        match size {
            Some(n) => n == encoded_len(chars@) && n <= cap,
            None => encoded_len(chars@) > cap,
        },
{
    let mut n: usize = 0;
    let mut i: usize = 0;
    while i < chars.len()
        invariant
            i <= chars.len(),
            n == encoded_len(chars@.take(i as int)),
            n <= cap,
        decreases chars.len() - i,
    {
        let w = width_of(chars[i]);
        proof {
            assert(chars@.take(i + 1) =~= chars@.take(i as int).push(chars@[i as int]));
            lemma_encoded_len_push(chars@.take(i as int), chars@[i as int]);
            lemma_encoded_len_prefix(chars@, i + 1);
        }
        if w > cap - n {
            return None;
        }
        n += w;
        i += 1;
    }
    assert(chars@.take(i as int) =~= chars@);
    Some(n)
}

/// Number of UTF-16 code units that encode `c`: 1 or 2.
pub open spec fn utf16_width(c: char) -> nat {
    if (c as u32) < 0x10000 {
        1
    } else {
        2
    }
}

/// Number of UTF-16 code units that encode `text`.
pub open spec fn utf16_len(text: Seq<char>) -> nat
    decreases text.len(),
{
    if text.len() == 0 {
        0
    } else {
        utf16_len(text.drop_last()) + utf16_width(text.last())
    }
}

/// A longer text takes no fewer UTF-16 code units than the text it begins with.
pub proof fn lemma_utf16_prefix(text: Seq<char>, n: int)
    requires
        0 <= n <= text.len(),
    ensures
        utf16_len(text.take(n)) <= utf16_len(text),
    decreases text.len() - n,
{
    if n < text.len() {
        lemma_utf16_prefix(text, n + 1);
        assert(text.take(n + 1).drop_last() =~= text.take(n));
    } else {
        assert(text.take(n) =~= text);
    }
}

/// A text takes no more UTF-16 code units than bytes of UTF-8.
pub proof fn lemma_utf16_within_encoded(text: Seq<char>)
    ensures
        utf16_len(text) <= encoded_len(text),
    decreases text.len(),
{
    if text.len() > 0 {
        lemma_utf16_within_encoded(text.drop_last());
        assert(text =~= text.drop_last().push(text.last()));
        lemma_encoded_len_push(text.drop_last(), text.last());
        vstd::utf8::char_is_scalar(text.last());
    }
}

/// The UTF-16 length of `chars` where it does not exceed `cap`; `None` where it does.
pub fn utf16_within(chars: &Vec<char>, cap: usize) -> (units: Option<usize>)
    ensures
        match units {
            Some(n) => n == utf16_len(chars@) && n <= cap,
            None => utf16_len(chars@) > cap,
        },
{
    let mut n: usize = 0;
    let mut i: usize = 0;
    while i < chars.len()
        invariant
            i <= chars.len(),
            n == utf16_len(chars@.take(i as int)),
            n <= cap,
        decreases chars.len() - i,
    {
        let w: usize = if (chars[i] as u32) < 0x10000 {
            1
        } else {
            2
        };
        proof {
            assert(chars@.take(i + 1).drop_last() =~= chars@.take(i as int));
            lemma_utf16_prefix(chars@, i + 1);
        }
        if w > cap - n {
            return None;
        }
        n += w;
        i += 1;
    }
    assert(chars@.take(i as int) =~= chars@);
    Some(n)
}

/// `text` without the white space that it begins with.
pub open spec fn trim_start(text: Seq<char>) -> Seq<char>
    decreases text.len(),
{
    if text.len() > 0 && is_white_space(text[0]) {
        trim_start(text.drop_first())
    } else {
        text
    }
}

/// `text` without the white space that it ends with.
pub open spec fn trim_end(text: Seq<char>) -> Seq<char>
    decreases text.len(),
{
    if text.len() > 0 && is_white_space(text.last()) {
        trim_end(text.drop_last())
    } else {
        text
    }
}

/// `text` without the white space at either end.
pub open spec fn trimmed(text: Seq<char>) -> Seq<char> {
    trim_end(trim_start(text))
}

/// The characters of `chars` without the white space at either end.
pub fn trim(chars: &Vec<char>) -> (kept: Vec<char>)
    ensures
        kept@ == trimmed(chars@),
{
    let mut start: usize = 0;
    proof {
        assert(chars@.skip(0) =~= chars@);
    }
    while start < chars.len() && is_whitespace(chars[start])
        invariant
            start <= chars.len(),
            trim_start(chars@) == trim_start(chars@.skip(start as int)),
        decreases chars.len() - start,
    {
        proof {
            assert(chars@.skip(start as int).drop_first() =~= chars@.skip(start + 1));
        }
        start += 1;
    }
    let ghost rest = chars@.skip(start as int);
    assert(trim_start(chars@) == rest);
    let mut end: usize = chars.len();
    proof {
        assert(rest.take(end - start) =~= rest);
    }
    while end > start && is_whitespace(chars[end - 1])
        invariant
            start <= end <= chars.len(),
            rest == chars@.skip(start as int),
            trim_end(rest) == trim_end(rest.take(end - start)),
        decreases end,
    {
        proof {
            assert(rest.take(end - start).drop_last() =~= rest.take(end - start - 1));
        }
        end -= 1;
    }
    assert(trim_end(rest) == rest.take(end - start));
    let mut kept: Vec<char> = Vec::new();
    let mut i: usize = start;
    while i < end
        invariant
            start <= i <= end <= chars.len(),
            rest == chars@.skip(start as int),
            kept@ == rest.take(i - start),
        decreases end - i,
    {
        kept.push(chars[i]);
        proof {
            assert(rest.take(i - start + 1) =~= rest.take(i - start).push(chars@[i as int]));
        }
        i += 1;
    }
    kept
}

/// True when `pattern` stands in `text` from position `i` on.
pub open spec fn occurs_at(text: Seq<char>, pattern: Seq<char>, i: int) -> bool {
    0 <= i <= text.len() - pattern.len() && text.subrange(i, i + pattern.len()) == pattern
}

/// True when `i` is the first position of `text` at which `pattern` stands.
pub open spec fn first_occurrence(text: Seq<char>, pattern: Seq<char>, i: int) -> bool {
    occurs_at(text, pattern, i) && forall|j: int| 0 <= j < i ==> !occurs_at(text, pattern, j)
}

/// `text` without the first occurrence of `pattern`; `text` itself where
/// `pattern` does not occur.
pub open spec fn without_first(text: Seq<char>, pattern: Seq<char>) -> Seq<char> {
    if exists|i: int| occurs_at(text, pattern, i) {
        let i = choose|i: int| first_occurrence(text, pattern, i);
        text.take(i) + text.skip(i + pattern.len())
    } else {
        text
    }
}

/// True when `text` ends with `suffix`.
pub open spec fn ends_with(text: Seq<char>, suffix: Seq<char>) -> bool {
    suffix.len() <= text.len() && text.skip(text.len() - suffix.len()) == suffix
}

/// Whether `pattern` stands in `text` from position `at` on.
pub fn matches_at(text: &Vec<char>, pattern: &Vec<char>, at: usize) -> (b: bool)
    ensures
        b == occurs_at(text@, pattern@, at as int),
{
    if pattern.len() > text.len() || at > text.len() - pattern.len() {
        return false;
    }
    let mut k: usize = 0;
    while k < pattern.len()
        invariant
            k <= pattern.len(),
            at + pattern.len() <= text.len(),
            forall|j: int| 0 <= j < k ==> text@[at + j] == pattern@[j],
        decreases pattern.len() - k,
    {
        if text[at + k] != pattern[k] {
            proof {
                let part = text@.subrange(at as int, at + pattern.len());
                assert(part[k as int] == text@[at + k]);
            }
            return false;
        }
        k += 1;
    }
    assert(text@.subrange(at as int, at + pattern.len()) =~= pattern@);
    true
}

/// The first position of `text` at which `pattern` stands.
pub fn find(text: &Vec<char>, pattern: &Vec<char>) -> (at: Option<usize>)
    ensures
        match at {
            Some(i) => first_occurrence(text@, pattern@, i as int),
            None => forall|j: int| !occurs_at(text@, pattern@, j),
        },
{
    if pattern.len() > text.len() {
        return None;
    }
    let last = text.len() - pattern.len();
    let mut i: usize = 0;
    while i < last
        invariant
            i <= last,
            last == text.len() - pattern.len(),
            forall|j: int| 0 <= j < i ==> !occurs_at(text@, pattern@, j),
        decreases last - i,
    {
        if matches_at(text, pattern, i) {
            return Some(i);
        }
        i += 1;
    }
    if matches_at(text, pattern, last) {
        Some(last)
    } else {
        None
    }
}

/// `text` without the first occurrence of `pattern`.
pub fn remove_first(text: &Vec<char>, pattern: &Vec<char>) -> (rest: Vec<char>)
    ensures
        rest@ == without_first(text@, pattern@),
{
    let mut rest: Vec<char> = Vec::new();
    match find(text, pattern) {
        Some(at) => {
            proof {
                let chosen = choose|i: int| first_occurrence(text@, pattern@, i);
                assert(first_occurrence(text@, pattern@, at as int));
                assert(chosen == at);
            }
            let mut i: usize = 0;
            while i < at
                invariant
                    i <= at <= text.len(),
                    rest@ == text@.take(i as int),
                decreases at - i,
            {
                rest.push(text[i]);
                assert(text@.take(i + 1) =~= text@.take(i as int).push(text@[i as int]));
                i += 1;
            }
            let from = at + pattern.len();
            let mut j: usize = from;
            while j < text.len()
                invariant
                    from <= j <= text.len(),
                    rest@ == text@.take(at as int) + text@.subrange(from as int, j as int),
                decreases text.len() - j,
            {
                rest.push(text[j]);
                assert(text@.subrange(from as int, j + 1) =~= text@.subrange(
                    from as int,
                    j as int,
                ).push(text@[j as int]));
                j += 1;
            }
            assert(text@.subrange(from as int, j as int) =~= text@.skip(from as int));
        },
        None => {
            append_chars(&mut rest, text);
            assert(rest@ =~= text@);
        },
    }
    rest
}

/// Whether `text` ends with `suffix`.
pub fn has_suffix(text: &Vec<char>, suffix: &Vec<char>) -> (b: bool)
    ensures
        b == ends_with(text@, suffix@),
{
    if suffix.len() > text.len() {
        return false;
    }
    let at = text.len() - suffix.len();
    let b = matches_at(text, suffix, at);
    proof {
        assert(text@.subrange(at as int, at + suffix.len()) =~= text@.skip(at as int));
    }
    b
}

} // verus!
