//! Characters, strings and byte strings.

use vstd::prelude::*;

verus! {

/// `String::push` appends the given character to the end of the string.
pub assume_specification[ String::push ](s: &mut String, c: char)
    ensures
        final(s)@ == old(s)@.push(c),
;

/// The characters that carry Unicode's `White_Space` property.
pub open spec fn whitespace(c: char) -> bool {
    ||| 0x9 <= c as u32 <= 0xd
    ||| c as u32 == 0x20
    ||| c as u32 == 0x85
    ||| c as u32 == 0xa0
    ||| c as u32 == 0x1680
    ||| 0x2000 <= c as u32 <= 0x200a
    ||| c as u32 == 0x2028
    ||| c as u32 == 0x2029
    ||| c as u32 == 0x202f
    ||| c as u32 == 0x205f
    ||| c as u32 == 0x3000
}

/// Whether a character is white space.
pub fn is_whitespace(c: char) -> (r: bool)
    ensures
        r == whitespace(c),
{
    let n: u32 = c as u32;
    (0x9 <= n && n <= 0xd) || n == 0x20 || n == 0x85 || n == 0xa0 || n == 0x1680 || (0x2000 <= n
        && n <= 0x200a) || n == 0x2028 || n == 0x2029 || n == 0x202f || n == 0x205f || n == 0x3000
}

/// Nothing is left of a blank text once white space is trimmed off both ends.
pub open spec fn blank(s: Seq<char>) -> bool {
    forall|i: int| 0 <= i < s.len() ==> whitespace(#[trigger] s[i])
}

/// Whether a text holds only white space.
pub fn is_blank(s: &str) -> (r: bool)
    ensures
        r == blank(s@),
{
    for c in it: s.chars()
        invariant
            it.seq() == s@,
            forall|i: int| 0 <= i < it.index() ==> whitespace(#[trigger] s@[i]),
    {
        if !is_whitespace(c) {
            assert(s@[it.index() as int] == c);
            return false;
        }
    }
    true
}

/// The characters of a text, in order.
pub fn chars_of(s: &str) -> (r: Vec<char>)
    ensures
        r@ == s@,
{
    let mut out: Vec<char> = Vec::new();
    for c in it: s.chars()
        invariant
            it.seq() == s@,
            out@ == s@.take(it.index() as int),
    {
        out.push(c);
        assert(out@ =~= s@.take(it.index() + 1));
    }
    assert(s@.take(s@.len() as int) =~= s@);
    out
}

/// The text made of the given characters, in order.
pub fn text_of(chars: &[char]) -> (r: String)
    ensures
        r@ == chars@,
{
    let mut out = String::new();
    let mut i: usize = 0;
    while i < chars.len()
        invariant
            i <= chars.len(),
            out@ == chars@.take(i as int),
        decreases chars.len() - i,
    {
        out.push(chars[i]);
        i += 1;
        assert(out@ =~= chars@.take(i as int));
    }
    assert(chars@.take(chars@.len() as int) =~= chars@);
    out
}

/// Whether two byte strings are equal.
pub fn same_bytes(left: &[u8], right: &[u8]) -> (r: bool)
    ensures
        r == (left@ == right@),
{
    if left.len() != right.len() {
        return false;
    }
    let mut i: usize = 0;
    while i < left.len()
        invariant
            i <= left.len(),
            left.len() == right.len(),
            forall|j: int| 0 <= j < i ==> left@[j] == right@[j],
        decreases left.len() - i,
    {
        if left[i] != right[i] {
            return false;
        }
        i += 1;
    }
    assert(left@ =~= right@);
    true
}

/// A text without the white space at its start.
pub open spec fn trim_start(s: Seq<char>) -> Seq<char>
    decreases s.len(),
{
    if s.len() > 0 && whitespace(s[0]) {
        trim_start(s.drop_first())
    } else {
        s
    }
}

/// A text without the white space at its end.
pub open spec fn trim_end(s: Seq<char>) -> Seq<char>
    decreases s.len(),
{
    if s.len() > 0 && whitespace(s.last()) {
        trim_end(s.drop_last())
    } else {
        s
    }
}

/// A text without the white space at its ends.
pub open spec fn trimmed(s: Seq<char>) -> Seq<char> {
    trim_end(trim_start(s))
}

/// A text without the white space at its ends.
pub fn trim(s: &str) -> (r: String)
    ensures
        r@ == trimmed(s@),
{
    let chars = chars_of(s);
    let mut start: usize = 0;
    assert(s@.skip(0) =~= s@);
    while start < chars.len() && is_whitespace(chars[start])
        invariant
            start <= chars.len(),
            chars@ == s@,
            trim_start(s@) == trim_start(s@.skip(start as int)),
        decreases chars.len() - start,
    {
        assert(s@.skip(start as int).drop_first() =~= s@.skip(start as int + 1));
        start += 1;
    }
    assert(trim_start(s@) == s@.skip(start as int));
    let mut end: usize = chars.len();
    let ghost rest = s@.skip(start as int);
    assert(s@.subrange(start as int, end as int) =~= rest);
    while end > start && is_whitespace(chars[end - 1])
        invariant
            start <= end <= chars.len(),
            chars@ == s@,
            trim_end(rest) == trim_end(s@.subrange(start as int, end as int)),
        decreases end - start,
    {
        assert(s@.subrange(start as int, end as int).drop_last() =~= s@.subrange(
            start as int,
            end as int - 1,
        ));
        end -= 1;
    }
    assert(trim_end(rest) == s@.subrange(start as int, end as int));
    let mut out = String::new();
    let mut i: usize = start;
    assert(out@ =~= s@.subrange(start as int, start as int));
    while i < end
        invariant
            start <= i <= end <= chars.len(),
            chars@ == s@,
            out@ == s@.subrange(start as int, i as int),
        decreases end - i,
    {
        out.push(chars[i]);
        i += 1;
        assert(out@ =~= s@.subrange(start as int, i as int));
    }
    out
}

/// A text without the white space at its end.
pub fn trim_ending(s: &str) -> (r: String)
    ensures
        r@ == trim_end(s@),
{
    let mut chars = chars_of(s);
    assert(s@.take(s@.len() as int) =~= s@);
    while chars.len() > 0 && is_whitespace(chars[chars.len() - 1])
        invariant
            trim_end(s@) == trim_end(chars@),
        decreases chars.len(),
    {
        let ghost before = chars@;
        let _ = chars.pop();
        assert(chars@ =~= before.drop_last());
    }
    text_of(chars.as_slice())
}

/// Calls `std::str::from_utf8`, which gives the text that bytes encode, or fails
/// where they encode none.
#[verifier::external_body]
pub(crate) fn utf8_text(bytes: &[u8]) -> (r: Option<&str>)
    ensures
        r is Some <==> vstd::utf8::valid_utf8(bytes@),
        r matches Some(text) ==> text@ == vstd::utf8::decode_utf8(bytes@),
{
    match std::str::from_utf8(bytes) {
        Ok(text) => Some(text),
        Err(_) => None,
    }
}

/// The text that bytes encode, with the replacement character wherever they
/// encode none.
pub uninterp spec fn lossy(bytes: Seq<u8>) -> Seq<char>;

/// Calls `String::from_utf8_lossy`, which gives the text that bytes encode. Where
/// they are not valid UTF-8 it puts replacement characters; how many is not
/// stated.
#[verifier::external_body]
pub(crate) fn lossy_text(bytes: &[u8]) -> (r: String)
    ensures
        r@ == lossy(bytes@),
        vstd::utf8::valid_utf8(bytes@) ==> r@ == vstd::utf8::decode_utf8(bytes@),
{
    String::from_utf8_lossy(bytes).into_owned()
}

/// Whether a byte string begins with another.
pub open spec fn begins(s: Seq<u8>, prefix: Seq<u8>) -> bool {
    prefix.len() <= s.len() && s.take(prefix.len() as int) == prefix
}

/// Whether a byte string begins with another.
pub fn begins_with(s: &[u8], prefix: &[u8]) -> (r: bool)
    ensures
        r == begins(s@, prefix@),
{
    if prefix.len() > s.len() {
        return false;
    }
    let mut i: usize = 0;
    while i < prefix.len()
        invariant
            i <= prefix.len() <= s.len(),
            forall|j: int| 0 <= j < i ==> s@[j] == prefix@[j],
        decreases prefix.len() - i,
    {
        if s[i] != prefix[i] {
            assert(s@.take(prefix@.len() as int)[i as int] == s@[i as int]);
            return false;
        }
        i += 1;
    }
    assert(s@.take(prefix@.len() as int) =~= prefix@);
    true
}

/// Whether a byte occurs in a byte string.
pub fn holds_byte(s: &[u8], byte: u8) -> (r: bool)
    ensures
        r == s@.contains(byte),
{
    let mut i: usize = 0;
    while i < s.len()
        invariant
            i <= s.len(),
            forall|j: int| 0 <= j < i ==> s@[j] != byte,
        decreases s.len() - i,
    {
        if s[i] == byte {
            assert(s@[i as int] == byte);
            return true;
        }
        i += 1;
    }
    false
}

/// The parts of a byte string between separators, empty ones too.
pub open spec fn byte_parts(s: Seq<u8>, separator: u8) -> Seq<Seq<u8>>
    decreases s.len(),
{
    if s.len() == 0 {
        seq![Seq::empty()]
    } else {
        let before = byte_parts(s.drop_last(), separator);
        if s.last() == separator {
            before.push(Seq::empty())
        } else {
            before.drop_last().push(before.last().push(s.last()))
        }
    }
}

/// What each of some byte strings holds.
pub open spec fn byte_views(list: Seq<Vec<u8>>) -> Seq<Seq<u8>> {
    list.map_values(|part: Vec<u8>| part@)
}

/// Splits a byte string at separators.
pub fn split_bytes(s: &[u8], separator: u8) -> (r: Vec<Vec<u8>>)
    ensures
        byte_views(r@) == byte_parts(s@, separator),
        r@.len() > 0,
{
    let mut out: Vec<Vec<u8>> = Vec::new();
    let mut part: Vec<u8> = Vec::new();
    let mut i: usize = 0;
    assert(s@.take(0) =~= Seq::<u8>::empty());
    assert(byte_views(out@).push(part@) =~= byte_parts(s@.take(0), separator));
    while i < s.len()
        invariant
            i <= s.len(),
            byte_views(out@).push(part@) == byte_parts(s@.take(i as int), separator),
        decreases s.len() - i,
    {
        let byte: u8 = s[i];
        let ghost parts = byte_views(out@);
        let ghost current = part@;
        proof {
            assert(s@.take(i as int + 1).drop_last() =~= s@.take(i as int));
            assert(s@.take(i as int + 1).last() == byte);
            assert(parts.push(current).drop_last() =~= parts);
        }
        if byte == separator {
            out.push(part);
            part = Vec::new();
            assert(byte_views(out@) =~= parts.push(current));
            assert(byte_views(out@).push(part@) =~= parts.push(current).push(Seq::<u8>::empty()));
        } else {
            part.push(byte);
            assert(byte_views(out@).push(part@) =~= parts.push(current.push(byte)));
        }
        i += 1;
    }
    let ghost parts = byte_views(out@);
    let ghost current = part@;
    out.push(part);
    assert(s@.take(i as int) =~= s@);
    assert(byte_views(out@) =~= parts.push(current));
    out
}

/// Whether two texts are the same.
pub fn same_text(left: &str, right: &str) -> (r: bool)
    ensures
        r == (left@ == right@),
{
    left.to_owned() == right.to_owned()
}

/// A text in quotation marks, with escapes, as programmers read it.
pub uninterp spec fn quoted(s: Seq<char>) -> Seq<char>;

/// Calls the `Debug` formatting of `str`, which puts a text in quotation marks
/// and escapes what would not be readable. How it escapes is not stated.
#[verifier::external_body]
pub(crate) fn quote(s: &str) -> (r: String)
    ensures
        r@ == quoted(s@),
{
    format!("{s:?}")
}

/// A character as it is, or the escape that stands for it.
pub uninterp spec fn escaped(c: char) -> Seq<char>;

/// Calls `char::escape_debug`, which gives a character, or the escape that stands for
/// it. Which characters have an escape is not stated.
#[verifier::external_body]
fn escape(c: char) -> (r: String)
    ensures
        r@ == escaped(c),
{
    c.escape_debug().to_string()
}

/// A character as it stands in a quoted name: with its escape, if it is not an
/// apostrophe, which needs none between quotation marks.
pub open spec fn in_quotes(c: char) -> Seq<char> {
    if c == '\'' {
        seq![c]
    } else {
        escaped(c)
    }
}

/// A hexadecimal digit, of which the last six are capital letters.
pub open spec fn capital_digit(digit: int) -> char {
    if digit < 10 {
        ('0' as int + digit) as char
    } else {
        ('A' as int + digit - 10) as char
    }
}

/// The inside of a quoted name: the characters that its bytes encode, each with its
/// escape, and every byte that is part of none by its number.
pub open spec fn escaped_bytes(bytes: Seq<u8>) -> Seq<char>
    decreases bytes.len(),
{
    if bytes.len() == 0 {
        Seq::empty()
    } else if vstd::utf8::valid_first_scalar(bytes) {
        in_quotes(vstd::utf8::decode_first_scalar(bytes) as char) + escaped_bytes(
            vstd::utf8::pop_first_scalar(bytes),
        )
    } else {
        "\\x"@ + seq![
            capital_digit((bytes[0] / 16) as int),
            capital_digit((bytes[0] % 16) as int),
        ] + escaped_bytes(bytes.skip(1))
    }
}

/// A name that need not be text, in quotation marks.
pub open spec fn quoted_bytes(bytes: Seq<u8>) -> Seq<char> {
    "\""@ + escaped_bytes(bytes) + "\""@
}

fn capital(digit: u8) -> (r: char)
    requires
        digit < 16,
    ensures
        r == capital_digit(digit as int),
{
    if digit < 10 {
        digit_char(digit as u64)
    } else if digit == 10 {
        'A'
    } else if digit == 11 {
        'B'
    } else if digit == 12 {
        'C'
    } else if digit == 13 {
        'D'
    } else if digit == 14 {
        'E'
    } else {
        'F'
    }
}

/// The character that the bytes from a place on begin with, and how many of them
/// encode it.
fn first_char(bytes: &[u8], at: usize) -> (r: Option<(char, usize)>)
    requires
        at < bytes@.len(),
    ensures
        ({
            let rest = bytes@.skip(at as int);
            match r {
                Some((c, width)) => {
                    &&& vstd::utf8::valid_first_scalar(rest)
                    &&& c == vstd::utf8::decode_first_scalar(rest) as char
                    &&& width == vstd::utf8::length_of_first_scalar(rest)
                    &&& at + width <= bytes@.len()
                },
                None => !vstd::utf8::valid_first_scalar(rest),
            }
        }),
{
    let lead: u8 = bytes[at];
    let width: usize = if lead < 0x80 {
        1
    } else if lead < 0xc0 || lead > 0xf7 {
        return None;
    } else if lead < 0xe0 {
        2
    } else if lead < 0xf0 {
        3
    } else {
        4
    };
    let ghost rest = bytes@.skip(at as int);
    assert(rest[0] == lead);
    if bytes.len() - at < width {
        return None;
    }
    let part = vstd::slice::slice_subrange(bytes, at, at + width);
    proof {
        assert(part@ =~= rest.take(width as int));
        assert(vstd::utf8::valid_first_scalar(part@) == vstd::utf8::valid_first_scalar(rest));
        assert(vstd::utf8::decode_first_scalar(part@) == vstd::utf8::decode_first_scalar(rest));
        reveal_with_fuel(vstd::utf8::valid_utf8, 2);
        reveal_with_fuel(vstd::utf8::decode_utf8, 2);
    }
    match utf8_text(part) {
        None => None,
        Some(text) => {
            let chars = chars_of(text);
            Some((chars[0], width))
        },
    }
}

/// Puts a name that need not be text in quotation marks.
pub fn quote_bytes(bytes: &[u8]) -> (r: String)
    ensures
        r@ == quoted_bytes(bytes@),
{
    let mut out = "\"".to_owned();
    let mut i: usize = 0;
    assert(bytes@.skip(0) =~= bytes@);
    while i < bytes.len()
        invariant
            i <= bytes@.len(),
            out@ + escaped_bytes(bytes@.skip(i as int)) == "\""@ + escaped_bytes(bytes@),
        decreases bytes.len() - i,
    {
        let ghost before = out@;
        let ghost rest = bytes@.skip(i as int);
        match first_char(bytes, i) {
            Some((c, width)) => {
                if c == '\'' {
                    out.push(c);
                } else {
                    out.append(escape(c).as_str());
                }
                i += width;
                proof {
                    assert(bytes@.skip(i as int) =~= vstd::utf8::pop_first_scalar(rest));
                    assert(out@ + escaped_bytes(bytes@.skip(i as int)) =~= before + escaped_bytes(
                        rest,
                    ));
                }
            },
            None => {
                let byte: u8 = bytes[i];
                out.append("\\x");
                out.push(capital(byte / 16));
                out.push(capital(byte % 16));
                i += 1;
                proof {
                    assert(rest[0] == byte);
                    assert(bytes@.skip(i as int) =~= rest.skip(1));
                    assert(out@ + escaped_bytes(bytes@.skip(i as int)) =~= before + escaped_bytes(
                        rest,
                    ));
                }
            },
        }
    }
    assert(escaped_bytes(bytes@.skip(i as int)) =~= Seq::empty());
    assert(out@ =~= "\""@ + escaped_bytes(bytes@));
    out.append("\"");
    out
}

/// The bytes of a text.
pub open spec fn bytes_of(s: Seq<char>) -> Seq<u8> {
    vstd::utf8::encode_utf8(s)
}

/// The order of two byte strings: the first byte that differs decides, and a
/// beginning comes before what it begins.
pub open spec fn not_after(left: Seq<u8>, right: Seq<u8>) -> bool
    decreases left.len(),
{
    if left.len() == 0 {
        true
    } else if right.len() == 0 {
        false
    } else if left[0] != right[0] {
        left[0] < right[0]
    } else {
        not_after(left.drop_first(), right.drop_first())
    }
}

/// Of two byte strings one does not come after the other.
pub proof fn lemma_order_is_total(left: Seq<u8>, right: Seq<u8>)
    ensures
        not_after(left, right) || not_after(right, left),
    decreases left.len(),
{
    if left.len() > 0 && right.len() > 0 && left[0] == right[0] {
        lemma_order_is_total(left.drop_first(), right.drop_first());
    }
}

/// What does not come after something does not come after what that does not
/// come after.
pub proof fn lemma_order_is_transitive(a: Seq<u8>, b: Seq<u8>, c: Seq<u8>)
    requires
        not_after(a, b),
        not_after(b, c),
    ensures
        not_after(a, c),
    decreases a.len(),
{
    if a.len() > 0 && a[0] == b[0] && b[0] == c[0] {
        lemma_order_is_transitive(a.drop_first(), b.drop_first(), c.drop_first());
    }
}

/// Whether a byte string does not come after another.
pub fn bytes_not_after(a: &[u8], b: &[u8]) -> (r: bool)
    ensures
        r == not_after(a@, b@),
{
    let mut i: usize = 0;
    assert(a@.skip(0) =~= a@ && b@.skip(0) =~= b@);
    while i < a.len() && i < b.len()
        invariant
            i <= a.len(),
            i <= b.len(),
            not_after(a@, b@) == not_after(a@.skip(i as int), b@.skip(i as int)),
        decreases a.len() - i,
    {
        assert(a@.skip(i as int)[0] == a@[i as int] && b@.skip(i as int)[0] == b@[i as int]);
        if a[i] != b[i] {
            return a[i] < b[i];
        }
        assert(a@.skip(i as int).drop_first() =~= a@.skip(i as int + 1));
        assert(b@.skip(i as int).drop_first() =~= b@.skip(i as int + 1));
        i += 1;
    }
    i >= a.len()
}

/// Whether a text does not come after another.
pub fn comes_not_after(left: &str, right: &str) -> (r: bool)
    ensures
        r == not_after(bytes_of(left@), bytes_of(right@)),
{
    bytes_not_after(left.as_bytes(), right.as_bytes())
}

/// The answer to a request that is refused with some words, or not refused.
pub open spec fn told<T>(r: Result<T, String>, refusal: Option<Seq<char>>) -> bool {
    match refusal {
        Some(message) => r matches Err(said) && said@ == message,
        None => r is Ok,
    }
}

/// Where an item is inserted does not matter to what a list holds.
pub proof fn lemma_insert_multiset<T>(list: Seq<T>, index: int, item: T)
    requires
        0 <= index <= list.len(),
    ensures
        list.insert(index, item).to_multiset() =~= list.to_multiset().insert(item),
{
    broadcast use vstd::seq_lib::group_to_multiset_ensures;

    let front = list.take(index);
    let back = list.skip(index);
    assert(list =~= front + back);
    assert(list.insert(index, item) =~= front.push(item) + back);
    vstd::seq_lib::lemma_multiset_commutative(front, back);
    vstd::seq_lib::lemma_multiset_commutative(front.push(item), back);
}

/// Of two different byte strings only one comes first.
pub proof fn lemma_order_is_strict(a: Seq<u8>, b: Seq<u8>)
    requires
        not_after(a, b),
        not_after(b, a),
    ensures
        a == b,
    decreases a.len(),
{
    if a.len() > 0 {
        lemma_order_is_strict(a.drop_first(), b.drop_first());
        assert(a =~= seq![a[0]] + a.drop_first());
        assert(b =~= seq![b[0]] + b.drop_first());
    } else {
        assert(b.len() == 0);
        assert(a =~= b);
    }
}

/// The pieces of a text between separators, empty ones too.
pub open spec fn pieces(s: Seq<char>, separates: spec_fn(char) -> bool) -> Seq<Seq<char>>
    decreases s.len(),
{
    if s.len() == 0 {
        seq![Seq::<char>::empty()]
    } else {
        let before = pieces(s.drop_last(), separates);
        if separates(s.last()) {
            before.push(Seq::<char>::empty())
        } else {
            before.drop_last().push(before.last().push(s.last()))
        }
    }
}

/// The pieces of a text between occurrences of a character.
pub open spec fn fields(s: Seq<char>, separator: char) -> Seq<Seq<char>> {
    pieces(s, |c: char| c == separator)
}

/// The words of a text: what stands between white space.
pub open spec fn words(s: Seq<char>) -> Seq<Seq<char>> {
    pieces(s, |c: char| whitespace(c)).filter(|word: Seq<char>| word.len() > 0)
}

/// The contents of a list of character lists.
pub open spec fn char_views(list: Seq<Vec<char>>) -> Seq<Seq<char>> {
    list.map_values(|v: Vec<char>| v@)
}

/// The pieces of a text between occurrences of a character.
pub fn split_fields(s: &[char], separator: char) -> (r: Vec<Vec<char>>)
    ensures
        char_views(r@) == fields(s@, separator),
{
    let mut done: Vec<Vec<char>> = Vec::new();
    let mut current: Vec<char> = Vec::new();
    let mut i: usize = 0;
    assert(char_views(done@).push(current@) =~= fields(s@.take(0), separator));
    while i < s.len()
        invariant
            i <= s.len(),
            char_views(done@).push(current@) == fields(s@.take(i as int), separator),
        decreases s.len() - i,
    {
        let ghost before = char_views(done@).push(current@);
        assert(s@.take(i as int + 1).drop_last() =~= s@.take(i as int));
        assert(before.drop_last() =~= char_views(done@));
        assert(before.last() == current@);
        if s[i] == separator {
            done.push(current);
            assert(char_views(done@) =~= before);
            current = Vec::new();
        } else {
            current.push(s[i]);
        }
        i += 1;
    }
    assert(s@.take(s@.len() as int) =~= s@);
    let ghost before = char_views(done@).push(current@);
    done.push(current);
    assert(char_views(done@) =~= before);
    done
}

/// The words of a text.
pub fn split_words(s: &[char]) -> (r: Vec<Vec<char>>)
    ensures
        char_views(r@) == words(s@),
{
    let ghost white = |c: char| whitespace(c);
    let ghost full = |word: Seq<char>| word.len() > 0;
    let mut done: Vec<Vec<char>> = Vec::new();
    let mut current: Vec<char> = Vec::new();
    let mut i: usize = 0;
    proof {
        let none = Seq::<Seq<char>>::empty();
        assert(pieces(s@.take(0), white).drop_last() =~= none);
        assert(none.filter(full) =~= none) by {
            reveal(Seq::filter);
        }
        assert(char_views(done@) =~= none);
        assert(current@ =~= pieces(s@.take(0), white).last());
    }
    while i < s.len()
        invariant
            i <= s.len(),
            white == (|c: char| whitespace(c)),
            full == (|word: Seq<char>| word.len() > 0),
            pieces(s@.take(i as int), white).len() > 0,
            char_views(done@) == pieces(s@.take(i as int), white).drop_last().filter(full),
            current@ == pieces(s@.take(i as int), white).last(),
        decreases s.len() - i,
    {
        let ghost before = pieces(s@.take(i as int), white);
        let ghost prior = done@;
        proof {
            assert(s@.take(i as int + 1).drop_last() =~= s@.take(i as int));
            assert(before =~= before.drop_last().push(before.last()));
        }
        if is_whitespace(s[i]) {
            proof {
                reveal(Seq::filter);
                let after = before.push(Seq::<char>::empty());
                assert(after.drop_last() =~= before);
                assert(pieces(s@.take(i as int + 1), white) == after);
            }
            if current.len() > 0 {
                done.push(current);
                assert(char_views(done@) =~= char_views(prior).push(before.last()));
            }
            current = Vec::new();
        } else {
            proof {
                let after = before.drop_last().push(before.last().push(s@[i as int]));
                assert(after.drop_last() =~= before.drop_last());
                assert(pieces(s@.take(i as int + 1), white) == after);
            }
            current.push(s[i]);
        }
        i += 1;
    }
    let ghost all = pieces(s@, white);
    let ghost prior = done@;
    proof {
        assert(s@.take(s@.len() as int) =~= s@);
        reveal(Seq::filter);
    }
    if current.len() > 0 {
        done.push(current);
        assert(char_views(done@) =~= char_views(prior).push(all.last()));
    }
    done
}

/// Whether a text starts with another.
pub open spec fn starts(s: Seq<char>, prefix: Seq<char>) -> bool {
    s.len() >= prefix.len() && s.take(prefix.len() as int) == prefix
}

/// Whether a text starts with another.
pub fn starts_with(s: &[char], prefix: &str) -> (r: bool)
    ensures
        r == starts(s@, prefix@),
{
    let wanted = chars_of(prefix);
    if s.len() < wanted.len() {
        return false;
    }
    let mut i: usize = 0;
    while i < wanted.len()
        invariant
            i <= wanted.len() <= s.len(),
            wanted@ == prefix@,
            forall|j: int| 0 <= j < i ==> s@[j] == prefix@[j],
        decreases wanted.len() - i,
    {
        if s[i] != wanted[i] {
            assert(s@.take(prefix@.len() as int)[i as int] != prefix@[i as int]);
            return false;
        }
        i += 1;
    }
    assert(s@.take(prefix@.len() as int) =~= prefix@);
    true
}

/// A decimal digit.
pub open spec fn digit(c: char) -> bool {
    '0' <= c <= '9'
}

/// The number that decimal digits write.
pub open spec fn number(s: Seq<char>) -> nat
    decreases s.len(),
{
    if s.len() == 0 {
        0
    } else {
        (number(s.drop_last()) * 10 + (s.last() as int - '0' as int)) as nat
    }
}

/// Whether a text is made of decimal digits, at least one.
pub open spec fn digits(s: Seq<char>) -> bool {
    s.len() > 0 && forall|i: int| 0 <= i < s.len() ==> digit(#[trigger] s[i])
}

/// The number up to a limit that a text writes in decimal, with an optional plus
/// sign before it.
pub open spec fn parsed(s: Seq<char>, limit: int) -> Option<nat> {
    let body = if s.len() > 0 && s[0] == '+' {
        s.drop_first()
    } else {
        s
    };
    if digits(body) && number(body) <= limit {
        Some(number(body))
    } else {
        None
    }
}

proof fn lemma_number_grows(s: Seq<char>, length: int)
    requires
        digits(s),
        0 <= length <= s.len(),
    ensures
        number(s.take(length)) <= number(s),
    decreases s.len() - length,
{
    if length < s.len() {
        lemma_number_grows(s, length + 1);
        assert(s.take(length + 1).drop_last() =~= s.take(length));
        assert(digit(s[length]));
        assert(s.take(length + 1).last() == s[length]);
    } else {
        assert(s.take(length) =~= s);
    }
}

/// Reads a number in decimal, up to a limit.
pub fn parse_number(s: &[char], limit: u64) -> (r: Option<u64>)
    ensures
        match parsed(s@, limit as int) {
            Some(n) => r == Some(n as u64) && n <= limit,
            None => r is None,
        },
{
    let mut i: usize = 0;
    if s.len() > 0 && s[0] == '+' {
        i = 1;
    }
    let ghost start = i as int;
    let ghost body = s@.skip(start);
    assert(body =~= if s@.len() > 0 && s@[0] == '+' {
        s@.drop_first()
    } else {
        s@
    });
    if i == s.len() {
        return None;
    }
    let mut value: u64 = 0;
    assert(body.take(0) =~= Seq::<char>::empty());
    while i < s.len()
        invariant
            0 <= start <= i <= s.len(),
            start < s.len(),
            body == s@.skip(start),
            body == if s@.len() > 0 && s@[0] == '+' {
                s@.drop_first()
            } else {
                s@
            },
            forall|j: int| 0 <= j < i - start ==> digit(#[trigger] body[j]),
            value == number(body.take(i - start)),
            value <= limit,
        decreases s.len() - i,
    {
        let c: char = s[i];
        assert(body[i - start] == c);
        if !('0' <= c && c <= '9') {
            assert(!digit(body[i - start]));
            return None;
        }
        let d: u64 = (c as u32 - '0' as u32) as u64;
        proof {
            assert(body.take(i - start + 1).drop_last() =~= body.take(i - start));
            assert(body.take(i - start + 1).last() == c);
            if digits(body) {
                lemma_number_grows(body, i - start + 1);
            }
        }
        if value > (u64::MAX - d) / 10 {
            assert(number(body.take(i - start + 1)) > u64::MAX);
            return None;
        }
        let next: u64 = value * 10 + d;
        if next > limit {
            return None;
        }
        value = next;
        i += 1;
    }
    assert(body.take(i - start) =~= body);
    Some(value)
}

/// A number in decimal, without leading zeros.
pub open spec fn decimal(n: nat) -> Seq<char>
    decreases n,
{
    let last = ('0' as int + n % 10) as char;
    if n < 10 {
        seq![last]
    } else {
        decimal(n / 10).push(last)
    }
}

/// Writes a number in decimal.
pub fn write_decimal(n: u64) -> (r: String)
    ensures
        r@ == decimal(n as nat),
    decreases n,
{
    let d: u64 = n % 10;
    let last: char = digit_char(d);
    if n < 10 {
        let mut out = String::new();
        out.push(last);
        assert(out@ =~= decimal(n as nat));
        out
    } else {
        let mut out = write_decimal(n / 10);
        out.push(last);
        out
    }
}

fn digit_char(d: u64) -> (r: char)
    requires
        d < 10,
    ensures
        r == ('0' as int + d) as char,
{
    if d == 0 {
        '0'
    } else if d == 1 {
        '1'
    } else if d == 2 {
        '2'
    } else if d == 3 {
        '3'
    } else if d == 4 {
        '4'
    } else if d == 5 {
        '5'
    } else if d == 6 {
        '6'
    } else if d == 7 {
        '7'
    } else if d == 8 {
        '8'
    } else {
        '9'
    }
}

/// Reading what was written gives the number back.
pub proof fn law_decimals_are_read_back(n: nat)
    ensures
        digits(decimal(n)),
        number(decimal(n)) == n,
        decimal(n)[0] != '+',
    decreases n,
{
    reveal_with_fuel(number, 2);
    let last = ('0' as int + n % 10) as char;
    if n < 10 {
        assert(decimal(n).drop_last() =~= Seq::<char>::empty());
        assert(decimal(n)[0] == last);
    } else {
        law_decimals_are_read_back(n / 10);
        assert(decimal(n).drop_last() =~= decimal(n / 10));
        assert(decimal(n)[0] == decimal(n / 10)[0]);
    }
}

proof fn lemma_pieces_never_empty(s: Seq<char>, separates: spec_fn(char) -> bool)
    ensures
        pieces(s, separates).len() > 0,
    decreases s.len(),
{
    if s.len() > 0 {
        lemma_pieces_never_empty(s.drop_last(), separates);
    }
}

/// A text without the separator is one field. One more field stands behind a
/// separator that is followed by a text without it.
pub proof fn law_fields_stand_between_separators(s: Seq<char>, field: Seq<char>, separator: char)
    requires
        !field.contains(separator),
    ensures
        fields(field, separator) == seq![field],
        fields(s + seq![separator] + field, separator) == fields(s, separator).push(field),
    decreases field.len(),
{
    let separates = |c: char| c == separator;
    let whole = s + seq![separator] + field;
    if field.len() == 0 {
        assert(field =~= Seq::<char>::empty());
        assert(whole.drop_last() =~= s);
        assert(whole.last() == separator);
    } else {
        let shorter = field.drop_last();
        assert forall|i: int| 0 <= i < shorter.len() implies shorter[i] != separator by {
            assert(field.contains(field[i]));
        }
        law_fields_stand_between_separators(s, shorter, separator);
        assert(field.contains(field.last()));
        assert(shorter.push(field.last()) =~= field);
        assert(whole.drop_last() =~= s + seq![separator] + shorter);
        assert(whole.last() == field.last());
        assert(fields(field, separator) =~= seq![field]);
        assert(fields(whole, separator) =~= fields(s, separator).push(field));
    }
}

/// Fields hold no separator, and put together with the separator between them they
/// are the text again.
pub proof fn law_fields_hold_the_text(s: Seq<char>, separator: char)
    ensures
        fields(s, separator).len() > 0,
        forall|i: int|
            0 <= i < fields(s, separator).len() ==> !(#[trigger] fields(s, separator)[i]).contains(
                separator,
            ),
        put_together(fields(s, separator), separator) == s,
    decreases s.len(),
{
    let all = fields(s, separator);
    lemma_pieces_never_empty(s, |c: char| c == separator);
    if s.len() == 0 {
        assert(put_together(all, separator) =~= s);
    } else {
        let rest = s.drop_last();
        law_fields_hold_the_text(rest, separator);
        let before = fields(rest, separator);
        if s.last() == separator {
            assert(all =~= before.push(Seq::<char>::empty()));
            assert(all.drop_last() =~= before);
            assert(put_together(all, separator) =~= rest.push(separator));
            assert forall|i: int| 0 <= i < all.len() implies !(#[trigger] all[i]).contains(
                separator,
            ) by {
                if i < before.len() {
                    assert(all[i] == before[i]);
                }
            }
        } else {
            let longer = before.last().push(s.last());
            assert(all =~= before.drop_last().push(longer));
            assert(all.drop_last() =~= before.drop_last());
            assert forall|i: int| 0 <= i < all.len() implies !(#[trigger] all[i]).contains(
                separator,
            ) by {
                assert(!before[i].contains(separator));
                if i == all.len() - 1 {
                    assert forall|k: int| 0 <= k < longer.len() implies longer[k] != separator by {
                        if k < before.last().len() {
                            assert(before.last().contains(before.last()[k]));
                        }
                    }
                }
            }
            assert(put_together(all, separator) =~= put_together(before, separator).push(s.last()));
        }
        assert(rest.push(s.last()) =~= s);
    }
}

/// Pieces with a separator between each and the next.
pub open spec fn put_together(list: Seq<Seq<char>>, separator: char) -> Seq<char>
    decreases list.len(),
{
    if list.len() == 0 {
        Seq::empty()
    } else if list.len() == 1 {
        list[0]
    } else {
        put_together(list.drop_last(), separator).push(separator) + list.last()
    }
}

proof fn lemma_pieces_join(
    left: Seq<char>,
    c: char,
    right: Seq<char>,
    separates: spec_fn(char) -> bool,
)
    requires
        separates(c),
    ensures
        pieces(left + seq![c] + right, separates) == pieces(left, separates) + pieces(
            right,
            separates,
        ),
    decreases right.len(),
{
    let whole = left + seq![c] + right;
    lemma_pieces_never_empty(right, separates);
    if right.len() == 0 {
        assert(whole.drop_last() =~= left);
        assert(pieces(whole, separates) =~= pieces(left, separates) + pieces(right, separates));
    } else {
        let shorter = right.drop_last();
        lemma_pieces_join(left, c, shorter, separates);
        lemma_pieces_never_empty(shorter, separates);
        assert(whole.drop_last() =~= left + seq![c] + shorter);
        assert(whole.last() == right.last());
        let before = pieces(left, separates) + pieces(shorter, separates);
        assert(before.last() == pieces(shorter, separates).last());
        assert(pieces(whole, separates) =~= pieces(left, separates) + pieces(right, separates));
    }
}

proof fn lemma_one_piece(s: Seq<char>, separates: spec_fn(char) -> bool)
    requires
        forall|i: int| 0 <= i < s.len() ==> !separates(#[trigger] s[i]),
    ensures
        pieces(s, separates) == seq![s],
    decreases s.len(),
{
    if s.len() == 0 {
        assert(s =~= Seq::<char>::empty());
    } else {
        lemma_one_piece(s.drop_last(), separates);
        assert(s.drop_last().push(s.last()) =~= s);
        assert(pieces(s, separates) =~= seq![s]);
    }
}

/// The words of two texts with white space between them are those of the first and then
/// those of the second.
pub proof fn law_words_stand_between_blanks(left: Seq<char>, right: Seq<char>, c: char)
    requires
        whitespace(c),
    ensures
        words(left + seq![c] + right) == words(left) + words(right),
{
    let separates = |x: char| whitespace(x);
    let keep = |word: Seq<char>| word.len() > 0;
    lemma_pieces_join(left, c, right, separates);
    Seq::filter_distributes_over_add(pieces(left, separates), pieces(right, separates), keep);
}

/// A text without white space is one word, and an empty one is none.
pub proof fn law_one_word(s: Seq<char>)
    requires
        forall|i: int| 0 <= i < s.len() ==> !whitespace(#[trigger] s[i]),
    ensures
        words(s) == if s.len() > 0 {
            seq![s]
        } else {
            Seq::<Seq<char>>::empty()
        },
{
    reveal(Seq::filter);
    let separates = |x: char| whitespace(x);
    let keep = |word: Seq<char>| word.len() > 0;
    lemma_one_piece(s, separates);
    let one = seq![s];
    assert(one.drop_last() =~= Seq::<Seq<char>>::empty());
    assert(one.drop_last().filter(keep) =~= Seq::<Seq<char>>::empty());
    assert(words(s) =~= if s.len() > 0 {
        seq![s]
    } else {
        Seq::<Seq<char>>::empty()
    });
}

/// Trimming takes white space off both ends of a text and nothing else: what is taken off
/// is blank, and what is left neither starts nor ends with white space.
pub proof fn law_trimming_takes_white_space_off(s: Seq<char>) -> (cut: (int, int))
    ensures
        0 <= cut.0 <= cut.1 <= s.len(),
        trimmed(s) == s.subrange(cut.0, cut.1),
        blank(s.take(cut.0)),
        blank(s.skip(cut.1)),
        trimmed(s).len() > 0 ==> !whitespace(trimmed(s)[0]) && !whitespace(trimmed(s).last()),
        trimmed(s).len() == 0 <==> blank(s),
{
    let from = lemma_trim_start(s);
    let rest = trim_start(s);
    let to = lemma_trim_end(rest);
    assert(rest.take(to) =~= s.subrange(from, from + to));
    assert forall|i: int| 0 <= i < s.skip(from + to).len() implies whitespace(
        #[trigger] s.skip(from + to)[i],
    ) by {
        assert(s.skip(from + to)[i] == rest.skip(to)[i]);
    }
    if trimmed(s).len() > 0 {
        assert(trimmed(s)[0] == rest[0]);
        assert(!whitespace(s[from]));
    } else {
        assert forall|i: int| 0 <= i < s.len() implies whitespace(#[trigger] s[i]) by {
            if i < from {
                assert(s.take(from)[i] == s[i]);
            } else {
                assert(s.skip(from + to)[i - from - to] == s[i]);
            }
        }
    }
    (from, from + to)
}

proof fn lemma_trim_start(s: Seq<char>) -> (from: int)
    ensures
        0 <= from <= s.len(),
        trim_start(s) == s.skip(from),
        blank(s.take(from)),
        from < s.len() ==> !whitespace(s[from]),
    decreases s.len(),
{
    if s.len() > 0 && whitespace(s[0]) {
        let from = lemma_trim_start(s.drop_first());
        assert(s.drop_first().skip(from) =~= s.skip(from + 1));
        assert forall|i: int| 0 <= i < s.take(from + 1).len() implies whitespace(
            #[trigger] s.take(from + 1)[i],
        ) by {
            if i > 0 {
                assert(s.drop_first().take(from)[i - 1] == s.take(from + 1)[i]);
            }
        }
        from + 1
    } else {
        assert(s.skip(0) =~= s);
        0
    }
}

proof fn lemma_trim_end(s: Seq<char>) -> (to: int)
    ensures
        0 <= to <= s.len(),
        trim_end(s) == s.take(to),
        blank(s.skip(to)),
        to > 0 ==> !whitespace(s[to - 1]),
    decreases s.len(),
{
    if s.len() > 0 && whitespace(s.last()) {
        let rest = s.drop_last();
        let to = lemma_trim_end(rest);
        assert(rest.take(to) =~= s.take(to));
        assert forall|i: int| 0 <= i < s.skip(to).len() implies whitespace(
            #[trigger] s.skip(to)[i],
        ) by {
            if to + i < rest.len() {
                assert(rest.skip(to)[i] == s.skip(to)[i]);
            }
        }
        to
    } else {
        assert(s.take(s.len() as int) =~= s);
        s.len() as int
    }
}

/// A byte string without the separator is one part. One more part stands behind a separator
/// that is followed by a byte string without it.
pub proof fn law_parts_stand_between_separators(s: Seq<u8>, part: Seq<u8>, separator: u8)
    requires
        !part.contains(separator),
    ensures
        byte_parts(part, separator) == seq![part],
        byte_parts(s + seq![separator] + part, separator) == byte_parts(s, separator).push(part),
    decreases part.len(),
{
    let whole = s + seq![separator] + part;
    if part.len() == 0 {
        assert(part =~= Seq::<u8>::empty());
        assert(whole.drop_last() =~= s);
        assert(whole.last() == separator);
    } else {
        let shorter = part.drop_last();
        assert forall|i: int| 0 <= i < shorter.len() implies shorter[i] != separator by {
            assert(part.contains(part[i]));
        }
        law_parts_stand_between_separators(s, shorter, separator);
        assert(part.contains(part.last()));
        assert(shorter.push(part.last()) =~= part);
        assert(whole.drop_last() =~= s + seq![separator] + shorter);
        assert(whole.last() == part.last());
        assert(byte_parts(part, separator) =~= seq![part]);
        assert(byte_parts(whole, separator) =~= byte_parts(s, separator).push(part));
    }
}

/// The first byte that differs decides the order of two byte strings, and what another
/// begins with comes before it.
pub proof fn law_first_difference_decides(common: Seq<u8>, a: u8, left: Seq<u8>, b: u8, right: Seq<u8>)
    requires
        a < b,
    ensures
        not_after(common + seq![a] + left, common + seq![b] + right),
        !not_after(common + seq![b] + right, common + seq![a] + left),
        not_after(common, common + right),
        right.len() > 0 ==> !not_after(common + right, common),
    decreases common.len(),
{
    if common.len() > 0 {
        let rest = common.drop_first();
        law_first_difference_decides(rest, a, left, b, right);
        assert((common + seq![a] + left).drop_first() =~= rest + seq![a] + left);
        assert((common + seq![b] + right).drop_first() =~= rest + seq![b] + right);
        assert((common + right).drop_first() =~= rest + right);
    } else {
        assert((common + seq![a] + left)[0] == a);
        assert((common + seq![b] + right)[0] == b);
    }
}

/// A number is read exactly where a text is made of digits, with a plus sign before them
/// or not, and writes no more than the limit.
pub proof fn law_numbers_are_made_of_digits(s: Seq<char>, limit: int, n: nat)
    ensures
        n <= limit ==> parsed(decimal(n), limit) == Some(n) && parsed(
            seq!['+'] + decimal(n),
            limit,
        ) == Some(n),
        n > limit ==> parsed(decimal(n), limit) is None,
        s.len() == 0 ==> parsed(s, limit) is None,
        (exists|i: int| 1 <= i < s.len() && !('0' <= (#[trigger] s[i]) <= '9')) ==> parsed(s, limit)
            is None,
        s.len() > 0 && s[0] != '+' && !('0' <= s[0] <= '9') ==> parsed(s, limit) is None,
        parsed(s, limit) matches Some(found) ==> found <= limit,
{
    law_decimals_are_read_back(n);
    let signed = seq!['+'] + decimal(n);
    assert(signed.drop_first() =~= decimal(n));
    assert(signed[0] == '+');
    if exists|i: int| 1 <= i < s.len() && !('0' <= (#[trigger] s[i]) <= '9') {
        let i = choose|i: int| 1 <= i < s.len() && !('0' <= (#[trigger] s[i]) <= '9');
        if s[0] == '+' {
            assert(s.drop_first()[i - 1] == s[i]);
            assert(!digit(s.drop_first()[i - 1]));
        } else {
            assert(!digit(s[i]));
        }
    }
    if s.len() > 0 && s[0] != '+' && !('0' <= s[0] <= '9') {
        assert(!digit(s[0]));
    }
}

/// White space is what sets words apart: the blank, the tab, the ends of lines and pages, the
/// spaces of other widths, and nothing that is seen.
pub proof fn law_white_space_is_not_seen(c: char)
    ensures
        c == ' ' || c == '\t' || c == '\n' || c == '\r' || c == '\u{b}' || c == '\u{c}'
            ==> whitespace(c),
        c == '\u{85}' || c == '\u{a0}' || c == '\u{1680}' || c == '\u{2028}' || c == '\u{2029}'
            || c == '\u{202f}' || c == '\u{205f}' || c == '\u{3000}' ==> whitespace(c),
        '\u{2000}' <= c <= '\u{200a}' ==> whitespace(c),
        '!' <= c <= '~' ==> !whitespace(c),
        c < '\t' || '\u{a1}' <= c < '\u{1680}' || '\u{1680}' < c < '\u{2000}' || '\u{200a}' < c
            < '\u{2028}' || '\u{2029}' < c < '\u{202f}' || '\u{3000}' < c ==> !whitespace(c),
        '\r' < c < ' ' || '~' < c < '\u{85}' || '\u{85}' < c < '\u{a0}' || '\u{202f}' < c
            < '\u{205f}' || '\u{205f}' < c < '\u{3000}' ==> !whitespace(c),
{
}

/// A request fails exactly where there is a reason to refuse it, and then it is told that
/// reason.
pub proof fn law_reasons_are_told<T>(r: Result<T, String>, refusal: Option<Seq<char>>)
    requires
        told(r, refusal),
    ensures
        r is Err <==> refusal is Some,
        r matches Err(said) ==> refusal == Some(said@),
{
}

/// A quoted name stands between quotation marks. An apostrophe in it stays as it is.
pub proof fn law_names_stand_between_quotation_marks(bytes: Seq<u8>)
    ensures
        quoted_bytes(bytes).len() >= 2,
        quoted_bytes(bytes)[0] == '"',
        quoted_bytes(bytes).last() == '"',
        quoted_bytes(bytes).subrange(1, quoted_bytes(bytes).len() - 1) == escaped_bytes(bytes),
        in_quotes('\'') == seq!['\''],
        in_quotes('"') == escaped('"'),
        in_quotes('\\') == escaped('\\'),
{
    reveal_strlit("\"");
    assert(quoted_bytes(bytes).subrange(1, quoted_bytes(bytes).len() - 1) =~= escaped_bytes(bytes));
}

} // verus!
