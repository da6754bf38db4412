//! Values in the distinguished encoding rules (DER) of ASN.1: one identifier
//! octet, length octets, and content. Longer identifiers are recognised but never
//! asked for.
use vstd::prelude::*;
use vstd::slice::slice_subrange;

verus! {

pub const INTEGER: u8 = 0x02;

pub const OCTET_STRING: u8 = 0x04;

pub const NULL: u8 = 0x05;

pub const OBJECT_IDENTIFIER: u8 = 0x06;

pub const ENUMERATED: u8 = 0x0a;

pub const IA5_STRING: u8 = 0x16;

pub const GENERALIZED_TIME: u8 = 0x18;

/// The identifier of a sequence, without the bit that marks it as constructed.
pub const SEQUENCE: u8 = 0x10;

/// The identifier of the context-specific value with number 0.
pub const CONTEXT_0: u8 = 0x80;

/// The identifier of the context-specific value with number 1.
pub const CONTEXT_1: u8 = 0x81;

/// The identifier of the context-specific value with number 2.
pub const CONTEXT_2: u8 = 0x82;

/// The identifier of the context-specific value with number 6.
pub const CONTEXT_6: u8 = 0x86;

/// Whether an identifier octet marks its value as constructed.
pub open spec fn is_constructed(identifier: u8) -> bool {
    (identifier / 32) % 2 == 1
}

/// An identifier octet without the bit that marks its value as constructed.
pub open spec fn tag_of(identifier: u8) -> u8 {
    if is_constructed(identifier) {
        (identifier - 32) as u8
    } else {
        identifier
    }
}

/// The natural number whose octets these are, the first the most significant.
pub open spec fn big_endian(octets: Seq<u8>) -> nat
    decreases octets.len(),
{
    if octets.len() == 0 {
        0
    } else {
        256 * big_endian(octets.drop_last()) + octets.last() as nat
    }
}

/// What the length octets at the head of some input say.
pub enum LengthView {
    /// They are no length; reading stopped before `rest`.
    Broken { rest: Seq<u8> },
    /// They say `length`, and `rest` follows them.
    Length { length: nat, rest: Seq<u8> },
}

/// The length that some input begins with. A length under 128 is one octet. A
/// longer one is announced by the number of octets that hold it, one to four of
/// them, and as few as can.
pub open spec fn length_at(input: Seq<u8>) -> LengthView {
    if input.len() == 0 {
        LengthView::Broken { rest: input }
    } else if input[0] < 0x80 {
        LengthView::Length { length: input[0] as nat, rest: input.skip(1) }
    } else if 0x81 <= input[0] <= 0x84 {
        let n = input[0] - 0x80;
        if input.len() < 1 + n {
            LengthView::Broken { rest: Seq::empty() }
        } else if (if n == 1 {
            input[1] >= 0x80
        } else {
            input[1] > 0
        }) {
            LengthView::Length {
                length: big_endian(input.subrange(1, 1 + n)),
                rest: input.skip(1 + n),
            }
        } else {
            LengthView::Broken { rest: input.skip(1 + n) }
        }
    } else {
        LengthView::Broken { rest: input.skip(1) }
    }
}

/// What some input begins with, where a value with a given tag is looked for.
pub enum ValueView {
    /// There is no value, or one with another tag.
    Absent,
    /// The value cannot be read; reading stopped before `rest`.
    Broken { rest: Seq<u8> },
    /// The value, and what follows it. The content ends `lacking` octets short of its
    /// length.
    Value { constructed: bool, content: Seq<u8>, lacking: nat, after: Seq<u8> },
}

/// Whether an identifier that fills more than one octet ends within four.
pub open spec fn long_identifier_ends(input: Seq<u8>) -> bool {
    ||| input.len() > 1 && input[1] < 0x80
    ||| input.len() > 2 && input[2] < 0x80
    ||| input.len() > 3 && input[3] < 0x80
}

/// The lesser of two numbers.
pub open spec fn lesser(a: nat, b: nat) -> nat {
    if a <= b {
        a
    } else {
        b
    }
}

/// The value with tag `tag` that some input begins with, where the input ends
/// `missing` octets short of the length that was announced for it. The value lies
/// within that length, but its content may be cut off with the input.
#[verifier::opaque]
pub open spec fn value_within(input: Seq<u8>, missing: nat, tag: u8) -> ValueView {
    if input.len() == 0 {
        ValueView::Absent
    } else if input[0] % 32 == 31 {
        if long_identifier_ends(input) {
            ValueView::Absent
        } else {
            ValueView::Broken { rest: input }
        }
    } else if tag_of(input[0]) != tag {
        ValueView::Absent
    } else {
        match length_at(input.skip(1)) {
            LengthView::Broken { rest } => ValueView::Broken { rest },
            LengthView::Length { length, rest } => if length <= rest.len() + missing {
                ValueView::Value {
                    constructed: is_constructed(input[0]),
                    content: rest.take(lesser(length, rest.len()) as int),
                    lacking: (length - lesser(length, rest.len())) as nat,
                    after: rest.skip(lesser(length, rest.len()) as int),
                }
            } else {
                ValueView::Broken { rest }
            },
        }
    }
}

/// The value with tag `tag` that some input begins with.
pub open spec fn value_at(input: Seq<u8>, tag: u8) -> ValueView {
    value_within(input, 0, tag)
}

/// The content of the value with tag `tag` that some input begins with, and what
/// follows the value; nothing unless the value is constructed or not as asked.
pub open spec fn expected_at(input: Seq<u8>, tag: u8, is_constructed: bool) -> Option<
    (Seq<u8>, Seq<u8>),
> {
    match value_at(input, tag) {
        ValueView::Value { constructed, content, after, .. } if constructed
            == is_constructed => Some((content, after)),
        _ => None,
    }
}

/// The content of the value with tag `tag` that is the whole of some input.
pub open spec fn whole_value(input: Seq<u8>, tag: u8, is_constructed: bool) -> Option<Seq<u8>> {
    match expected_at(input, tag, is_constructed) {
        Some((content, after)) if after.len() == 0 => Some(content),
        _ => None,
    }
}

/// What some input begins with, where a value with a given tag is looked for.
pub enum Value<'a> {
    Absent,
    Broken { rest: &'a [u8] },
    Value { constructed: bool, content: &'a [u8], lacking: u64, after: &'a [u8] },
}

impl<'a> View for Value<'a> {
    type V = ValueView;

    open spec fn view(&self) -> ValueView {
        match self {
            Value::Absent => ValueView::Absent,
            Value::Broken { rest } => ValueView::Broken { rest: rest@ },
            Value::Value { constructed, content, lacking, after } => ValueView::Value {
                constructed: *constructed,
                content: content@,
                lacking: *lacking as nat,
                after: after@,
            },
        }
    }
}

/// What follows the first `n` octets.
pub fn rest_after<'a>(input: &'a [u8], n: usize) -> (rest: &'a [u8])
    requires
        n <= input.len(),
    ensures
        rest@ == input@.skip(n as int),
{
    let rest = slice_subrange(input, n, input.len());
    assert(rest@ =~= input@.skip(n as int));
    rest
}

/// As many octets as a length can announce.
pub const UNBOUNDED: u64 = 0xffff_ffff;

/// The number that `n` octets from the second on hold.
fn read_number(input: &[u8], n: usize) -> (number: u64)
    requires
        1 <= n <= 4,
        n + 1 <= input.len(),
    ensures
        number == big_endian(input@.subrange(1, 1 + n)),
        number <= UNBOUNDED,
{
    let mut number: u64 = 0;
    let mut i: usize = 0;
    while i < n
        invariant
            i <= n <= 4,
            n + 1 <= input.len(),
            number == big_endian(input@.subrange(1, 1 + i)),
            i == 0 ==> number == 0,
            i == 1 ==> number < 0x100,
            i == 2 ==> number < 0x1_0000,
            i == 3 ==> number < 0x100_0000,
            i == 4 ==> number < 0x1_0000_0000,
        decreases n - i,
    {
        let ghost octets = input@.subrange(1, 2 + i);
        assert(octets.drop_last() =~= input@.subrange(1, 1 + i));
        number = 256 * number + input[i + 1] as u64;
        i += 1;
    }
    number
}

enum Length<'a> {
    Broken { rest: &'a [u8] },
    Length { length: u64, rest: &'a [u8] },
}

impl<'a> Length<'a> {
    closed spec fn as_view(&self) -> LengthView {
        match self {
            Length::Broken { rest } => LengthView::Broken { rest: rest@ },
            Length::Length { length, rest } => LengthView::Length {
                length: *length as nat,
                rest: rest@,
            },
        }
    }
}

fn read_length<'a>(input: &'a [u8]) -> (read: Length<'a>)
    ensures
        read.as_view() == length_at(input@),
        read matches Length::Length { length, .. } ==> length <= UNBOUNDED,
{
    if input.len() == 0 {
        return Length::Broken { rest: input };
    }
    let first = input[0];
    if first < 0x80 {
        return Length::Length { length: first as u64, rest: rest_after(input, 1) };
    }
    if first < 0x81 || first > 0x84 {
        return Length::Broken { rest: rest_after(input, 1) };
    }
    let n = (first - 0x80) as usize;
    if input.len() < 1 + n {
        let rest = rest_after(input, input.len());
        assert(rest@ =~= Seq::<u8>::empty());
        return Length::Broken { rest };
    }
    let shortest = if n == 1 {
        input[1] >= 0x80
    } else {
        input[1] > 0
    };
    let rest = rest_after(input, 1 + n);
    if shortest {
        Length::Length { length: read_number(input, n), rest }
    } else {
        Length::Broken { rest }
    }
}

/// Looks for a value with tag `tag` at the head of `input`, which ends `missing` octets
/// short of the length that was announced for it.
pub fn read_value_within<'a>(input: &'a [u8], missing: u64, tag: u8) -> (read: Value<'a>)
    ensures
        read@ == value_within(input@, missing as nat, tag),
        read matches Value::Value { content, lacking, .. } ==> lacking <= missing && content@.len()
            + lacking <= UNBOUNDED,
{
    proof {
        reveal(value_within);
    }
    if input.len() == 0 {
        return Value::Absent;
    }
    let identifier = input[0];
    if identifier % 32 == 31 {
        let ends = (input.len() > 1 && input[1] < 0x80) || (input.len() > 2 && input[2] < 0x80) || (
        input.len() > 3 && input[3] < 0x80);
        return if ends {
            Value::Absent
        } else {
            Value::Broken { rest: input }
        };
    }
    let constructed = (identifier / 32) % 2 == 1;
    let found = if constructed {
        identifier - 32
    } else {
        identifier
    };
    if found != tag {
        return Value::Absent;
    }
    match read_length(rest_after(input, 1)) {
        Length::Broken { rest } => Value::Broken { rest },
        Length::Length { length, rest } => {
            let present = rest.len() as u64;
            if length <= present {
                let content = slice_subrange(rest, 0, length as usize);
                assert(content@ =~= rest@.take(length as int));
                let after = rest_after(rest, length as usize);
                Value::Value { constructed, content, lacking: 0, after }
            } else if length - present <= missing {
                assert(rest@.take(rest@.len() as int) =~= rest@);
                let after = rest_after(rest, rest.len());
                Value::Value { constructed, content: rest, lacking: length - present, after }
            } else {
                Value::Broken { rest }
            }
        },
    }
}

/// Looks for a value with tag `tag` at the head of `input`.
pub fn read_value<'a>(input: &'a [u8], tag: u8) -> (read: Value<'a>)
    ensures
        read@ == value_at(input@, tag),
        read matches Value::Value { lacking, .. } ==> lacking == 0,
{
    read_value_within(input, 0, tag)
}

/// The content of a value and what follows it, as sequences.
pub open spec fn content_and_after(read: Option<(&[u8], &[u8])>) -> Option<(Seq<u8>, Seq<u8>)> {
    match read {
        Some((content, after)) => Some((content@, after@)),
        None => None,
    }
}

/// Reads a value with tag `tag`, constructed or not as asked.
pub fn read_expected<'a>(input: &'a [u8], tag: u8, is_constructed: bool) -> (read: Option<
    (&'a [u8], &'a [u8]),
>)
    ensures
        content_and_after(read) == expected_at(input@, tag, is_constructed),
{
    match read_value(input, tag) {
        Value::Value { constructed, content, after, .. } => if constructed == is_constructed {
            Some((content, after))
        } else {
            None
        },
        _ => None,
    }
}

/// Reads a value with tag `tag` that is the whole of `input`.
pub fn read_whole<'a>(input: &'a [u8], tag: u8, is_constructed: bool) -> (read: Option<&'a [u8]>)
    ensures
        match (read, whole_value(input@, tag, is_constructed)) {
            (Some(content), Some(expected)) => content@ == expected,
            (None, None) => true,
            _ => false,
        },
{
    match read_expected(input, tag, is_constructed) {
        Some((content, after)) => if after.len() == 0 {
            Some(content)
        } else {
            None
        },
        None => None,
    }
}

/// Whether content octets are an integer, written with as few octets as can.
pub open spec fn is_integer(content: Seq<u8>) -> bool {
    &&& content.len() > 0
    &&& content.len() > 1 ==> !(content[0] == 0 && content[1] < 0x80)
    &&& content.len() > 1 ==> !(content[0] == 0xff && content[1] >= 0x80)
}

/// Whether content octets are an integer from 0 to 255.
pub open spec fn is_small_integer(content: Seq<u8>) -> bool {
    ||| content.len() == 1 && content[0] < 0x80
    ||| content.len() == 2 && content[0] == 0 && content[1] >= 0x80
}

pub fn check_integer(content: &[u8]) -> (r: bool)
    ensures
        r == is_integer(content@),
{
    if content.len() == 0 {
        return false;
    }
    if content.len() == 1 {
        return true;
    }
    !(content[0] == 0 && content[1] < 0x80) && !(content[0] == 0xff && content[1] >= 0x80)
}

pub fn check_small_integer(content: &[u8]) -> (r: bool)
    ensures
        r == is_small_integer(content@),
{
    (content.len() == 1 && content[0] < 0x80) || (content.len() == 2 && content[0] == 0
        && content[1] >= 0x80)
}

/// The octets of a natural number, the most significant first, none for zero.
pub open spec fn number_octets(n: nat) -> Seq<u8>
    decreases n,
{
    if n == 0 {
        Seq::empty()
    } else {
        number_octets(n / 256).push((n % 256) as u8)
    }
}

/// The length octets that say `n`.
pub open spec fn length_octets(n: nat) -> Seq<u8> {
    if n < 0x80 {
        seq![n as u8]
    } else {
        seq![(0x80 + number_octets(n).len()) as u8] + number_octets(n)
    }
}

/// What stands before a content of `n` octets: `identifier` and the length.
pub open spec fn header(identifier: u8, n: nat) -> Seq<u8> {
    seq![identifier] + length_octets(n)
}

/// The encoding of a value: `identifier`, the length of `content`, and `content`.
#[verifier::opaque]
pub open spec fn encoded(identifier: u8, content: Seq<u8>) -> Seq<u8> {
    header(identifier, content.len()) + content
}

fn push_number(out: &mut Vec<u8>, n: u64)
    ensures
        final(out)@ == old(out)@ + number_octets(n as nat),
    decreases n,
{
    if n > 0 {
        push_number(out, n / 256);
        out.push((n % 256) as u8);
    }
    assert(out@ =~= old(out)@ + number_octets(n as nat));
}

/// A number under two to the power of `8 * k` has at most `k` octets.
proof fn lemma_number_octets_len(n: nat)
    ensures
        n < 0x100 ==> number_octets(n).len() <= 1,
        n < 0x1_0000 ==> number_octets(n).len() <= 2,
        n < 0x100_0000 ==> number_octets(n).len() <= 3,
        n < 0x1_0000_0000 ==> number_octets(n).len() <= 4,
        n <= 0xffff_ffff_ffff_ffff ==> number_octets(n).len() <= 8,
{
    reveal_with_fuel(number_octets, 10);
}

/// Writes what stands before a content of `n` octets after `out`.
pub fn push_header(out: &mut Vec<u8>, identifier: u8, n: u64)
    ensures
        final(out)@ == old(out)@ + header(identifier, n as nat),
{
    out.push(identifier);
    if n < 0x80 {
        out.push(n as u8);
    } else {
        let mut octets: Vec<u8> = Vec::new();
        push_number(&mut octets, n);
        proof {
            lemma_number_octets_len(n as nat);
            assert(octets@ =~= number_octets(n as nat));
        }
        out.push(0x80 + octets.len() as u8);
        out.extend_from_slice(octets.as_slice());
    }
    assert(out@ =~= old(out)@ + header(identifier, n as nat));
}

/// Writes the encoding of a value after `out`.
pub fn push_value(out: &mut Vec<u8>, identifier: u8, content: &[u8])
    ensures
        final(out)@ == old(out)@ + encoded(identifier, content@),
{
    proof {
        reveal(encoded);
    }
    push_header(out, identifier, content.len() as u64);
    out.extend_from_slice(content);
    assert(out@ =~= old(out)@ + encoded(identifier, content@));
}

/// The octets of a number hold that number, and begin with no zero.
proof fn lemma_number_octets(n: nat)
    ensures
        big_endian(number_octets(n)) == n,
        n > 0 ==> number_octets(n).len() > 0 && number_octets(n)[0] > 0,
    decreases n,
{
    if n > 0 {
        lemma_number_octets(n / 256);
        assert(number_octets(n).drop_last() =~= number_octets(n / 256));
    }
}

/// What stands before a content of moderate length has at least two octets, and at most
/// six.
pub proof fn lemma_header_len(identifier: u8, n: nat)
    requires
        n < 0x1_0000_0000,
    ensures
        2 <= header(identifier, n).len() <= 6,
{
    lemma_number_octets_len(n);
}

/// Reading gives back what writing wrote: a value whose content has a length under
/// two to the power of thirty-two is found whole under its own tag, whatever follows
/// it, and whatever is missing after that.
pub proof fn reading_gives_back_what_was_written(
    identifier: u8,
    content: Seq<u8>,
    after: Seq<u8>,
    missing: nat,
)
    requires
        identifier % 32 != 31,
        content.len() < 0x1_0000_0000,
    ensures
        value_within(encoded(identifier, content) + after, missing, tag_of(identifier)) == (
        ValueView::Value {
            constructed: is_constructed(identifier),
            content,
            lacking: 0,
            after,
        }),
{
    reveal(encoded);
    reveal(value_within);
    let n = content.len();
    let input = encoded(identifier, content) + after;
    let tail = input.skip(1);
    assert(tail =~= length_octets(n) + content + after);
    lemma_number_octets_len(n);
    lemma_number_octets(n);
    if n < 0x80 {
        assert(tail.skip(1) =~= content + after);
        assert(tail.skip(1).take(n as int) =~= content);
        assert(tail.skip(1).skip(n as int) =~= after);
    } else {
        let k = number_octets(n).len() as int;
        assert(tail[0] == 0x80 + k);
        assert(tail.subrange(1, 1 + k) =~= number_octets(n));
        assert(tail[1] == number_octets(n)[0]);
        if k == 1 {
            assert(number_octets(n / 256).len() == 0);
            assert(n / 256 == 0) by {
                lemma_number_octets(n / 256);
            }
            assert(number_octets(n)[0] == n);
        }
        assert(tail.skip(1 + k) =~= content + after);
        assert(tail.skip(1 + k).take(n as int) =~= content);
        assert(tail.skip(1 + k).skip(n as int) =~= after);
    }
}

/// Octets that begin with one other than zero are those of the number that they say.
proof fn lemma_big_endian(octets: Seq<u8>)
    requires
        octets.len() > 0 ==> octets[0] > 0,
    ensures
        number_octets(big_endian(octets)) == octets,
        octets.len() > 0 ==> big_endian(octets) > 0,
        octets.len() > 1 ==> big_endian(octets) >= 256,
    decreases octets.len(),
{
    if octets.len() > 0 {
        let init = octets.drop_last();
        lemma_big_endian(init);
        let n = big_endian(octets);
        assert(n / 256 == big_endian(init));
        assert(n % 256 == octets.last());
        assert(number_octets(n) =~= octets);
    }
}

/// A length is read in one form only: what was read is what writing it gives, and what
/// follows is what stands behind it.
pub proof fn lengths_have_one_form(input: Seq<u8>)
    ensures
        length_at(input) matches LengthView::Length { length, rest } ==> input == length_octets(
            length,
        ) + rest,
{
    if let LengthView::Length { length, rest } = length_at(input) {
        if input[0] < 0x80 {
            assert(input =~= length_octets(length) + rest);
        } else {
            let n = input[0] - 0x80;
            let octets = input.subrange(1, 1 + n);
            lemma_big_endian(octets);
            if n == 1 {
                assert(octets =~= seq![input[1]]);
                assert(octets.drop_last() =~= Seq::<u8>::empty());
                assert(big_endian(octets.drop_last()) == 0);
                assert(length >= 0x80);
            }
            assert(length >= 0x80);
            assert(length_octets(length) == seq![input[0]] + octets);
            assert(input =~= length_octets(length) + rest);
        }
    }
}

/// A value that is read whole is what stands at the head of the input: writing its content
/// under its identifier, and what follows after that, gives the input back. It has the tag
/// that was asked for.
pub proof fn writing_gives_back_what_was_read(input: Seq<u8>, missing: nat, tag: u8)
    ensures
        value_within(input, missing, tag) matches ValueView::Value {
            constructed,
            content,
            lacking,
            after,
        } ==> {
            &&& tag_of(input[0]) == tag
            &&& is_constructed(input[0]) == constructed
            &&& input == header(input[0], content.len() + lacking) + content + after
            &&& lacking <= missing
            &&& lacking > 0 ==> after.len() == 0
            &&& lacking == 0 ==> input == encoded(input[0], content) + after
        },
{
    reveal(encoded);
    reveal(value_within);
    if let ValueView::Value { content, lacking, after, .. } = value_within(input, missing, tag) {
        let tail = input.skip(1);
        lengths_have_one_form(tail);
        assert(input =~= seq![input[0]] + tail);
        assert(input =~= header(input[0], content.len() + lacking) + content + after);
    }
}

proof fn lemma_big_endian_bound(octets: Seq<u8>)
    requires
        octets.len() >= 2,
        octets[0] > 0 || octets[1] >= 0x80,
    ensures
        octets.len() > 2 ==> big_endian(octets) >= 256,
        octets[0] > 0 ==> big_endian(octets) >= 256,
        octets.len() == 2 ==> big_endian(octets) == 256 * octets[0] + octets[1],
    decreases octets.len(),
{
    let init = octets.drop_last();
    if octets.len() == 2 {
        assert(init.drop_last() =~= Seq::<u8>::empty());
        assert(big_endian(init.drop_last()) == 0);
        assert(big_endian(init) == octets[0]);
    } else {
        lemma_big_endian_bound(init);
        if init.len() == 2 {
            assert(big_endian(init) >= 0x80);
        }
    }
}

/// The integers from 0 to 255 are the integers that are not negative and say a number
/// below 256.
pub proof fn small_integers_are_below_256(content: Seq<u8>)
    ensures
        is_small_integer(content) <==> is_integer(content) && content[0] < 0x80 && big_endian(
            content,
        ) < 256,
{
    if content.len() == 1 {
        assert(content.drop_last() =~= Seq::<u8>::empty());
        assert(big_endian(content.drop_last()) == 0);
        assert(big_endian(content) == content[0]);
    } else if content.len() >= 2 && is_integer(content) && content[0] < 0x80 {
        lemma_big_endian_bound(content);
    }
}

/// No octet can be left out of an integer: one whose first octet only repeats the sign of
/// the next one is refused, and so is one without octets.
pub proof fn integers_are_as_short_as_can_be(content: Seq<u8>)
    ensures
        is_integer(seq![0u8] + content) <==> content.len() == 0 || content[0] >= 0x80,
        is_integer(seq![0xffu8] + content) <==> content.len() == 0 || content[0] < 0x80,
        content.len() == 0 ==> !is_integer(content),
        content.len() > 0 && content[0] != 0 && content[0] != 0xff ==> is_integer(content),
{
    let zero = seq![0u8] + content;
    let ones = seq![0xffu8] + content;
    assert(zero[0] == 0 && ones[0] == 0xff);
    if content.len() > 0 {
        assert(zero[1] == content[0] && ones[1] == content[0]);
    }
}

} // verus!
