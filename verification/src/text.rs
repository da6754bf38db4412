//! Text: decimal and hexadecimal numerals, joining, comparing and cutting.
use vstd::prelude::*;
use vstd::string::*;
use vstd::utf8::*;

verus! {

/// The character of a decimal digit.
pub open spec fn digit_char(d: nat) -> char {
    (48 + d) as char
}

/// The decimal numeral of a natural number, without leading zeros.
pub open spec fn decimal(n: nat) -> Seq<char>
    decreases n,
{
    if n < 10 {
        seq![digit_char(n)]
    } else {
        decimal(n / 10).push(digit_char(n % 10))
    }
}

/// The decimal numeral of an integer: a minus sign before the numeral of its
/// magnitude where it is negative.
pub open spec fn signed_decimal(n: int) -> Seq<char> {
    if n < 0 {
        seq!['-'] + decimal((-n) as nat)
    } else {
        decimal(n as nat)
    }
}

/// The text of one decimal digit.
fn digit_text(d: u64) -> (t: &'static str)
    requires
        d < 10,
    ensures
        t@ == seq![digit_char(d as nat)],
{
    proof {
        reveal_strlit("0");
        reveal_strlit("1");
        reveal_strlit("2");
        reveal_strlit("3");
        reveal_strlit("4");
        reveal_strlit("5");
        reveal_strlit("6");
        reveal_strlit("7");
        reveal_strlit("8");
        reveal_strlit("9");
    }
    if d == 0 {
        "0"
    } else if d == 1 {
        "1"
    } else if d == 2 {
        "2"
    } else if d == 3 {
        "3"
    } else if d == 4 {
        "4"
    } else if d == 5 {
        "5"
    } else if d == 6 {
        "6"
    } else if d == 7 {
        "7"
    } else if d == 8 {
        "8"
    } else {
        "9"
    }
}

/// Appends the decimal numeral of `n`.
pub fn push_decimal(s: &mut String, n: u64)
    ensures
        final(s)@ == old(s)@ + decimal(n as nat),
    decreases n,
{
    if n >= 10 {
        push_decimal(s, n / 10);
    }
    s.append(digit_text(n % 10));
    assert(s@ =~= old(s)@ + decimal(n as nat));
}

/// Appends the magnitude of `n` as a decimal numeral.
pub fn push_magnitude(s: &mut String, n: i64)
    ensures
        final(s)@ == old(s)@ + decimal((if n < 0 { -n } else { n as int }) as nat),
{
    if n < 0 {
        push_decimal(s, (-(n as i128)) as u64);
    } else {
        push_decimal(s, n as u64);
    }
}

/// Appends the decimal numeral of `n`, with its sign.
pub fn push_signed(s: &mut String, n: i64)
    ensures
        final(s)@ == old(s)@ + signed_decimal(n as int),
{
    if n < 0 {
        proof {
            reveal_strlit("-");
            assert("-"@ =~= seq!['-']);
        }
        s.append("-");
    }
    push_magnitude(s, n);
    assert(s@ =~= old(s)@ + signed_decimal(n as int));
}

/// The texts that a list of strings holds.
pub open spec fn texts(list: Seq<String>) -> Seq<Seq<char>> {
    Seq::new(list.len(), |i: int| list[i]@)
}

/// The first `n` parts, one after the other, with `separator` between them.
pub open spec fn joined_upto(parts: Seq<Seq<char>>, separator: Seq<char>, n: nat) -> Seq<char>
    decreases n,
{
    if n == 0 {
        Seq::empty()
    } else if n == 1 {
        parts[0]
    } else {
        joined_upto(parts, separator, (n - 1) as nat) + separator + parts[n - 1]
    }
}

/// All parts, one after the other, with `separator` between them.
pub open spec fn joined(parts: Seq<Seq<char>>, separator: Seq<char>) -> Seq<char> {
    joined_upto(parts, separator, parts.len())
}

/// Joins a list of strings.
pub fn join(parts: &Vec<String>, separator: &str) -> (text: String)
    ensures
        text@ == joined(texts(parts@), separator@),
{
    let mut text = String::new();
    let mut i: usize = 0;
    while i < parts.len()
        invariant
            i <= parts.len(),
            text@ == joined_upto(texts(parts@), separator@, i as nat),
        decreases parts.len() - i,
    {
        if i > 0 {
            text.append(separator);
        }
        text.append(parts[i].as_str());
        assert(texts(parts@)[i as int] == parts[i as int]@);
        assert(text@ =~= joined_upto(texts(parts@), separator@, (i + 1) as nat));
        i += 1;
    }
    text
}

/// The character of a hexadecimal digit in lower case.
pub open spec fn hex_char(d: nat) -> char {
    if d < 10 {
        digit_char(d)
    } else {
        (87 + d) as char
    }
}

/// The two lower-case hexadecimal digits of an octet.
pub open spec fn hex_octet(b: u8) -> Seq<char> {
    seq![hex_char((b / 16) as nat), hex_char((b % 16) as nat)]
}

/// Octets in hexadecimal, with colons between them: the form of a fingerprint.
pub open spec fn colon_hex(bytes: Seq<u8>) -> Seq<char> {
    joined(Seq::new(bytes.len(), |i: int| hex_octet(bytes[i])), seq![':'])
}

fn hex_digit_text(d: u8) -> (t: &'static str)
    requires
        d < 16,
    ensures
        t@ == seq![hex_char(d as nat)],
{
    if d < 10 {
        return digit_text(d as u64);
    }
    proof {
        reveal_strlit("a");
        reveal_strlit("b");
        reveal_strlit("c");
        reveal_strlit("d");
        reveal_strlit("e");
        reveal_strlit("f");
    }
    if d == 10 {
        "a"
    } else if d == 11 {
        "b"
    } else if d == 12 {
        "c"
    } else if d == 13 {
        "d"
    } else if d == 14 {
        "e"
    } else {
        "f"
    }
}

/// Writes octets in hexadecimal, with colons between them.
pub fn colon_hex_text(bytes: &[u8]) -> (text: String)
    ensures
        text@ == colon_hex(bytes@),
{
    let ghost parts = Seq::new(bytes@.len(), |i: int| hex_octet(bytes@[i]));
    let mut text = String::new();
    let mut i: usize = 0;
    proof {
        reveal_strlit(":");
        assert(":"@ =~= seq![':']);
    }
    while i < bytes.len()
        invariant
            i <= bytes.len(),
            ":"@ == seq![':'],
            parts == Seq::new(bytes@.len(), |i: int| hex_octet(bytes@[i])),
            text@ == joined_upto(parts, seq![':'], i as nat),
        decreases bytes.len() - i,
    {
        if i > 0 {
            text.append(":");
        }
        text.append(hex_digit_text(bytes[i] / 16));
        text.append(hex_digit_text(bytes[i] % 16));
        assert(parts[i as int] == hex_octet(bytes@[i as int]));
        assert(text@ =~= joined_upto(parts, seq![':'], (i + 1) as nat));
        i += 1;
    }
    text
}

/// Whether two byte strings hold the same octets.
pub fn bytes_equal(a: &[u8], b: &[u8]) -> (same: bool)
    ensures
        same == (a@ == b@),
{
    if a.len() != b.len() {
        return false;
    }
    let mut i: usize = 0;
    while i < a.len()
        invariant
            i <= a.len(),
            a.len() == b.len(),
            forall|j: int| 0 <= j < i ==> a@[j] == b@[j],
        decreases a.len() - i,
    {
        if a[i] != b[i] {
            return false;
        }
        i += 1;
    }
    assert(a@ =~= b@);
    true
}

/// Texts with the same encoding are the same text.
pub proof fn lemma_encoding_injective(a: Seq<char>, b: Seq<char>)
    requires
        encode_utf8(a) == encode_utf8(b),
    ensures
        a == b,
{
    encode_utf8_decode_utf8(a);
    encode_utf8_decode_utf8(b);
}

/// Whether two texts are the same.
pub fn text_equal(a: &str, b: &str) -> (same: bool)
    ensures
        same == (a@ == b@),
{
    let same = bytes_equal(a.as_bytes(), b.as_bytes());
    proof {
        if same {
            lemma_encoding_injective(a@, b@);
        }
    }
    same
}

/// The text that octets encode in UTF-8, where they do: `std::str::from_utf8`.
/// It refuses octets that are not UTF-8.
#[verifier::external_body]
pub(crate) fn utf8_text(bytes: &[u8]) -> (text: Option<String>)
    ensures
        text is Some <==> valid_utf8(bytes@),
        text matches Some(t) ==> t@ == decode_utf8(bytes@),
{
    std::str::from_utf8(bytes).ok().map(|t| t.to_owned())
}

/// The characters that ASCII octets stand for.
pub open spec fn ascii_text(bytes: Seq<u8>) -> Seq<char> {
    Seq::new(bytes.len(), |i: int| bytes[i] as char)
}

/// Whether each octet stands for an ASCII character.
pub open spec fn is_ascii_octets(bytes: Seq<u8>) -> bool {
    forall|i: int| 0 <= i < bytes.len() ==> #[trigger] bytes[i] < 0x80
}

/// ASCII octets encode the characters that they stand for.
proof fn lemma_ascii_text(bytes: Seq<u8>)
    requires
        is_ascii_octets(bytes),
    ensures
        valid_utf8(bytes),
        decode_utf8(bytes) == ascii_text(bytes),
{
    let chars = ascii_text(bytes);
    assert(is_ascii_chars(chars));
    is_ascii_chars_encode_utf8(chars);
    assert(encode_utf8(chars) =~= bytes);
    encode_utf8_valid_utf8(chars);
    encode_utf8_decode_utf8(chars);
}

/// Reads octets as ASCII; nothing where one of them is none.
pub fn read_ascii(bytes: &[u8]) -> (text: Option<String>)
    ensures
        text is Some <==> is_ascii_octets(bytes@),
        text matches Some(t) ==> t@ == ascii_text(bytes@),
{
    let mut i: usize = 0;
    while i < bytes.len()
        invariant
            i <= bytes.len(),
            forall|j: int| 0 <= j < i ==> #[trigger] bytes@[j] < 0x80,
        decreases bytes.len() - i,
    {
        if bytes[i] >= 0x80 {
            return None;
        }
        i += 1;
    }
    proof {
        lemma_ascii_text(bytes@);
    }
    utf8_text(bytes)
}

/// Whether `text` begins with `prefix`.
pub open spec fn begins_with(text: Seq<char>, prefix: Seq<char>) -> bool {
    prefix.len() <= text.len() && text.take(prefix.len() as int) == prefix
}

/// Whether `text` ends with `suffix`.
pub open spec fn ends_with(text: Seq<char>, suffix: Seq<char>) -> bool {
    suffix.len() <= text.len() && text.skip(text.len() - suffix.len()) == suffix
}

pub fn text_begins_with(text: &str, prefix: &str) -> (r: bool)
    ensures
        r == begins_with(text@, prefix@),
{
    let n = prefix.unicode_len();
    if n > text.unicode_len() {
        return false;
    }
    let head = text.substring_char(0, n);
    assert(head@ =~= text@.take(prefix@.len() as int));
    text_equal(head, prefix)
}

/// Cuts `suffix` off the end of `text`; nothing where `text` does not end with it.
pub fn strip_suffix<'a>(text: &'a str, suffix: &str) -> (r: Option<&'a str>)
    ensures
        ends_with(text@, suffix@) ==> (r matches Some(head) && head@ == text@.take(
            text@.len() - suffix@.len(),
        )),
        !ends_with(text@, suffix@) ==> r is None,
{
    let n = suffix.unicode_len();
    let total = text.unicode_len();
    if n > total {
        return None;
    }
    let tail = text.substring_char(total - n, total);
    assert(tail@ =~= text@.skip(text@.len() - suffix@.len()));
    if text_equal(tail, suffix) {
        let head = text.substring_char(0, total - n);
        assert(head@ =~= text@.take(text@.len() - suffix@.len()));
        Some(head)
    } else {
        None
    }
}

/// `text` as it is where its encoding has at most `longest` octets, and
/// otherwise its first `kept` characters, followed by three dots.
pub open spec fn shortened(text: Seq<char>, longest: nat, kept: nat) -> Seq<char> {
    if encode_utf8(text).len() > longest {
        (if kept < text.len() {
            text.take(kept as int)
        } else {
            text
        }) + "..."@
    } else {
        text
    }
}

pub fn shorten(text: &str, longest: usize, kept: usize) -> (r: String)
    ensures
        r@ == shortened(text@, longest as nat, kept as nat),
{
    if text.as_bytes().len() > longest {
        let mut r = if kept < text.unicode_len() {
            text.substring_char(0, kept).to_owned()
        } else {
            text.to_owned()
        };
        assert(text@.subrange(0, kept as int) =~= text@.take(kept as int));
        r.append("...");
        r
    } else {
        text.to_owned()
    }
}

/// The number that decimal digits say, the first the most significant.
pub open spec fn numeral_value(digits: Seq<char>) -> int
    decreases digits.len(),
{
    if digits.len() == 0 {
        0
    } else {
        10 * numeral_value(digits.drop_last()) + (digits.last() as int - 48)
    }
}

/// A numeral, read digit by digit, says the number that it was written for; it consists of
/// digits, and begins with a zero only where it is one.
pub proof fn numerals_say_their_number(n: nat)
    ensures
        numeral_value(decimal(n)) == n,
        decimal(n).len() > 0,
        forall|i: int| 0 <= i < decimal(n).len() ==> '0' <= #[trigger] decimal(n)[i] <= '9',
        decimal(n)[0] == '0' ==> n == 0,
    decreases n,
{
    if n >= 10 {
        numerals_say_their_number(n / 10);
        assert(decimal(n).drop_last() =~= decimal(n / 10));
    } else {
        assert(decimal(n).drop_last() =~= Seq::<char>::empty());
        assert(numeral_value(decimal(n).drop_last()) == 0);
    }
}

/// A numeral with a sign begins with a minus sign exactly where the number is negative; what
/// follows says its magnitude.
pub proof fn signed_numerals_say_their_number(n: int)
    ensures
        signed_decimal(n)[0] == '-' <==> n < 0,
        n < 0 ==> numeral_value(signed_decimal(n).skip(1)) == -n,
        n >= 0 ==> numeral_value(signed_decimal(n)) == n,
{
    if n < 0 {
        numerals_say_their_number((-n) as nat);
        assert(signed_decimal(n).skip(1) =~= decimal((-n) as nat));
    } else {
        numerals_say_their_number(n as nat);
    }
}

/// Whether `part` stands somewhere in `text`.
pub open spec fn has_part(text: Seq<char>, part: Seq<char>) -> bool {
    exists|i: int| #[trigger] stands_at(text, part, i)
}

/// Whether `part` stands in `text`, after `i` characters.
pub open spec fn stands_at(text: Seq<char>, part: Seq<char>, i: int) -> bool {
    &&& 0 <= i <= text.len() - part.len()
    &&& text.subrange(i, i + part.len()) == part
}

/// What stands between two texts stands in the whole of them.
pub proof fn lemma_has_part(before: Seq<char>, part: Seq<char>, after: Seq<char>)
    ensures
        has_part(before + part + after, part),
{
    let text = before + part + after;
    let i = before.len() as int;
    assert(text.subrange(i, i + part.len()) =~= part);
    assert(stands_at(text, part, i));
}

/// What stands in a text stands in every text around it.
pub proof fn lemma_has_part_within(before: Seq<char>, middle: Seq<char>, after: Seq<char>, part: Seq<char>)
    requires
        has_part(middle, part),
    ensures
        has_part(before + middle + after, part),
{
    let i = choose|i: int| #[trigger] stands_at(middle, part, i);
    let text = before + middle + after;
    let at = before.len() + i;
    assert(text.subrange(at, at + part.len()) =~= middle.subrange(i, i + part.len()));
    assert(stands_at(text, part, at));
}

/// Joining gives nothing for no parts, the part itself for one, and puts a further part at
/// the end, after a separator.
pub proof fn parts_are_joined_in_order(
    parts: Seq<Seq<char>>,
    part: Seq<char>,
    separator: Seq<char>,
)
    ensures
        joined(Seq::empty(), separator) == Seq::<char>::empty(),
        joined(seq![part], separator) == part,
        parts.len() > 0 ==> joined(parts.push(part), separator) == joined(parts, separator)
            + separator + part,
{
    if parts.len() > 0 {
        lemma_joined_upto(parts, parts.push(part), separator, parts.len());
    }
}

proof fn lemma_joined_upto(
    a: Seq<Seq<char>>,
    b: Seq<Seq<char>>,
    separator: Seq<char>,
    n: nat,
)
    requires
        n <= a.len(),
        n <= b.len(),
        forall|i: int| 0 <= i < n ==> #[trigger] a[i] == b[i],
    ensures
        joined_upto(a, separator, n) == joined_upto(b, separator, n),
    decreases n,
{
    if n == 1 {
        assert(a[0] == b[0]);
    } else if n > 1 {
        lemma_joined_upto(a, b, separator, (n - 1) as nat);
        assert(a[n - 1] == b[n - 1]);
    }
}

/// Every part stands in what joining gives.
pub proof fn joined_parts_are_there(parts: Seq<Seq<char>>, separator: Seq<char>, i: int)
    requires
        0 <= i < parts.len(),
    ensures
        has_part(joined(parts, separator), parts[i]),
{
    lemma_joined_part(parts, separator, parts.len(), i);
}

proof fn lemma_joined_part(parts: Seq<Seq<char>>, separator: Seq<char>, n: nat, i: int)
    requires
        0 <= i < n <= parts.len(),
    ensures
        has_part(joined_upto(parts, separator, n), parts[i]),
    decreases n,
{
    let none = Seq::<char>::empty();
    if n == 1 {
        lemma_has_part(none, parts[0], none);
        assert(none + parts[0] + none =~= parts[0]);
    } else {
        let before = joined_upto(parts, separator, (n - 1) as nat);
        if i == n - 1 {
            lemma_has_part(before + separator, parts[i], none);
            assert(before + separator + parts[i] + none =~= before + separator + parts[i]);
        } else {
            lemma_joined_part(parts, separator, (n - 1) as nat, i);
            lemma_has_part_within(none, before, separator + parts[n - 1], parts[i]);
            assert(none + before + (separator + parts[n - 1]) =~= before + separator
                + parts[n - 1]);
        }
    }
}

/// The number that a hexadecimal digit says.
pub open spec fn hex_value(c: char) -> int {
    if c <= '9' {
        c as int - 48
    } else {
        c as int - 87
    }
}

/// Octets in hexadecimal take two digits each, the more significant one first, with a colon
/// between one octet and the next.
pub proof fn fingerprints_show_every_octet(bytes: Seq<u8>, i: int)
    requires
        0 <= i < bytes.len(),
    ensures
        colon_hex(bytes).len() == 3 * bytes.len() - 1,
        16 * hex_value(colon_hex(bytes)[3 * i]) + hex_value(colon_hex(bytes)[3 * i + 1])
            == bytes[i],
        i + 1 < bytes.len() ==> colon_hex(bytes)[3 * i + 2] == ':',
{
    let parts = Seq::new(bytes.len(), |i: int| hex_octet(bytes[i]));
    lemma_octets_joined(bytes, parts, bytes.len(), i);
}

proof fn lemma_octets_joined(bytes: Seq<u8>, parts: Seq<Seq<char>>, n: nat, i: int)
    requires
        0 <= i < n <= bytes.len(),
        parts == Seq::new(bytes.len(), |i: int| hex_octet(bytes[i])),
    ensures
        joined_upto(parts, seq![':'], n).len() == 3 * n - 1,
        joined_upto(parts, seq![':'], n)[3 * i] == hex_char((bytes[i] / 16) as nat),
        joined_upto(parts, seq![':'], n)[3 * i + 1] == hex_char((bytes[i] % 16) as nat),
        i + 1 < n ==> joined_upto(parts, seq![':'], n)[3 * i + 2] == ':',
    decreases n,
{
    assert(parts[n - 1] == hex_octet(bytes[n - 1]));
    if n > 1 {
        lemma_octets_joined(bytes, parts, (n - 1) as nat, if i < n - 1 { i } else { 0 });
    }
}

/// Different octets have different texts in hexadecimal.
pub proof fn fingerprints_tell_octets_apart(a: Seq<u8>, b: Seq<u8>)
    requires
        colon_hex(a) == colon_hex(b),
    ensures
        a == b,
{
    if a.len() > 0 {
        fingerprints_show_every_octet(a, 0);
    }
    if b.len() > 0 {
        fingerprints_show_every_octet(b, 0);
    }
    assert forall|i: int| 0 <= i < a.len() && i < b.len() implies a[i] == b[i] by {
        fingerprints_show_every_octet(a, i);
        fingerprints_show_every_octet(b, i);
    }
    assert(a =~= b);
}

/// A text that is cut begins as it did, keeps the number of characters that was asked for,
/// and ends with three dots; one that is short enough stays as it is.
pub proof fn shortened_texts_begin_as_they_did(text: Seq<char>, longest: nat, kept: nat)
    ensures
        encode_utf8(text).len() <= longest ==> shortened(text, longest, kept) == text,
        encode_utf8(text).len() > longest ==> {
            let left: int = if kept < text.len() {
                kept as int
            } else {
                text.len() as int
            };
            &&& shortened(text, longest, kept).len() == left + 3
            &&& forall|i: int|
                0 <= i < left ==> #[trigger] shortened(text, longest, kept)[i] == text[i]
            &&& forall|i: int|
                left <= i < left + 3 ==> #[trigger] shortened(text, longest, kept)[i] == '.'
        },
{
    reveal_strlit("...");
}

/// A label with its value and what follows it stands at the end of a text that ends with
/// them.
pub proof fn lemma_labelled(before: Seq<char>, label: Seq<char>, value: Seq<char>, next: Seq<char>)
    ensures
        has_part(before + label + value + next, label + value + next),
{
    let whole = before + label + value + next;
    let part = label + value + next;
    let at = before.len() as int;
    assert(whole.subrange(at, at + part.len()) =~= part);
    assert(stands_at(whole, part, at));
}

/// What stands in a text stands in it still when it goes on.
pub proof fn lemma_goes_on(text: Seq<char>, more: Seq<char>)
    ensures
        forall|part: Seq<char>| has_part(text, part) ==> #[trigger] has_part(text + more, part),
{
    assert forall|part: Seq<char>| has_part(text, part) implies #[trigger] has_part(
        text + more,
        part,
    ) by {
        let none = Seq::<char>::empty();
        lemma_has_part_within(none, text, more, part);
        assert(none + text + more =~= text + more);
    }
}

} // verus!
