//! What a FIX frame is: a run of `tag=value` fields, each closed by the SOH
//! byte, headed by BeginString, BodyLength and MsgType and closed by CheckSum.

use crate::fix::tags;
use crate::seqs;
use crate::text;
use vstd::prelude::*;

verus! {

/// The SOH (Start Of Header) delimiter that separates FIX fields on the wire.
pub const SOH: u8 = 0x01;

/// A `tag=value` field as a mathematical value.
#[verifier::ext_equal]
pub struct FieldView {
    pub tag: u32,
    pub value: Seq<char>,
}

/// Why a frame is refused, as a mathematical value.
pub enum ParseFailure {
    Empty,
    MalformedField(Seq<char>),
    InvalidTag(Seq<char>),
    NotUtf8,
    MissingField(u32),
    ChecksumMismatch { computed: u8, found: u8 },
    InvalidCheckSum(Seq<char>),
}

// ---------------------------------------------------------------------------
// Fields of a message
// ---------------------------------------------------------------------------
/// The value of the first field with `tag`.
pub open spec fn first_value(fields: Seq<FieldView>, tag: u32) -> Option<Seq<char>>
    decreases fields.len(),
{
    if fields.len() == 0 {
        None
    } else if fields[0].tag == tag {
        Some(fields[0].value)
    } else {
        first_value(fields.drop_first(), tag)
    }
}

/// The fields after `tag` was set: the first occurrence replaced, or a new
/// field at the end.
pub open spec fn with_value(fields: Seq<FieldView>, tag: u32, value: Seq<char>) -> Seq<FieldView>
    decreases fields.len(),
{
    if fields.len() == 0 {
        seq![FieldView { tag, value }]
    } else if fields[0].tag == tag {
        fields.update(0, FieldView { tag, value })
    } else {
        seq![fields[0]] + with_value(fields.drop_first(), tag, value)
    }
}

/// A value just set is the value read, and no other tag is touched.
pub proof fn set_then_get(fields: Seq<FieldView>, tag: u32, value: Seq<char>)
    ensures
        first_value(with_value(fields, tag, value), tag) == Some(value),
        forall|other: u32|
            other != tag ==> #[trigger] first_value(with_value(fields, tag, value), other)
                == first_value(fields, other),
    decreases fields.len(),
{
    let out = with_value(fields, tag, value);
    reveal_with_fuel(first_value, 2);
    if fields.len() > 0 && fields[0].tag != tag {
        set_then_get(fields.drop_first(), tag, value);
        assert(out.drop_first() =~= with_value(fields.drop_first(), tag, value));
    } else if fields.len() > 0 {
        assert(out.drop_first() =~= fields.drop_first());
    }
    assert forall|other: u32| other != tag implies #[trigger] first_value(out, other)
        == first_value(fields, other) by {
        if fields.len() > 0 && fields[0].tag != tag {
            assert(first_value(with_value(fields.drop_first(), tag, value), other)
                == first_value(fields.drop_first(), other));
        }
    }
}

// ---------------------------------------------------------------------------
// Encoding
// ---------------------------------------------------------------------------
/// Tags that the encoder writes itself.
pub open spec fn is_framing(tag: u32) -> bool {
    tag == tags::BEGIN_STRING || tag == tags::BODY_LENGTH || tag == tags::MSG_TYPE || tag
        == tags::CHECK_SUM
}

/// `tag=value` without its delimiter.
pub open spec fn field_text(tag: u32, value: Seq<char>) -> Seq<char> {
    text::decimal(tag as nat).push('=') + value
}

/// A field on the wire.
pub open spec fn field_bytes(f: FieldView) -> Seq<u8> {
    vstd::utf8::encode_utf8(field_text(f.tag, f.value)).push(SOH)
}

/// Fields on the wire, one behind the other.
pub open spec fn fields_bytes(fields: Seq<FieldView>) -> Seq<u8>
    decreases fields.len(),
{
    if fields.len() == 0 {
        Seq::empty()
    } else {
        fields_bytes(fields.drop_last()) + field_bytes(fields.last())
    }
}

/// The sum of the bytes.
pub open spec fn byte_sum(bytes: Seq<u8>) -> nat
    decreases bytes.len(),
{
    if bytes.len() == 0 {
        0
    } else {
        byte_sum(bytes.drop_last()) + bytes.last() as nat
    }
}

/// The checksum of a run of bytes: their sum modulo 256.
pub open spec fn checksum(bytes: Seq<u8>) -> nat {
    byte_sum(bytes) % 256
}

/// A number below 1000 as exactly three decimal digits.
pub open spec fn three_digits(n: nat) -> Seq<char> {
    seq![text::digit(n / 100), text::digit((n / 10) % 10), text::digit(n % 10)]
}

/// Whether a value has the form of a checksum: exactly three digits.
pub open spec fn is_checksum_text(value: Seq<char>) -> bool {
    value.len() == 3 && text::all_digits(value)
}

/// The fields that BodyLength counts: MsgType first, then every field that the
/// encoder does not write itself.
pub open spec fn body_fields(fields: Seq<FieldView>) -> Seq<FieldView> {
    seq![
        FieldView {
            tag: tags::MSG_TYPE,
            value: first_value(fields, tags::MSG_TYPE).unwrap_or(Seq::empty()),
        },
    ] + fields.filter(|f: FieldView| !is_framing(f.tag))
}

/// Everything before CheckSum.
pub open spec fn covered_fields(fields: Seq<FieldView>) -> Seq<FieldView> {
    seq![
        FieldView {
            tag: tags::BEGIN_STRING,
            value: first_value(fields, tags::BEGIN_STRING).unwrap_or("FIX.4.4"@),
        },
        FieldView {
            tag: tags::BODY_LENGTH,
            value: text::decimal(fields_bytes(body_fields(fields)).len()),
        },
    ] + body_fields(fields)
}

/// Every field of the frame, in wire order.
pub open spec fn frame_fields(fields: Seq<FieldView>) -> Seq<FieldView> {
    covered_fields(fields).push(
        FieldView {
            tag: tags::CHECK_SUM,
            value: three_digits(checksum(fields_bytes(covered_fields(fields)))),
        },
    )
}

/// The frame of a message.
pub open spec fn frame(fields: Seq<FieldView>) -> Seq<u8> {
    fields_bytes(frame_fields(fields))
}

// ---------------------------------------------------------------------------
// Decoding
// ---------------------------------------------------------------------------
/// A stretch of a frame between two delimiters, with the offset it begins at.
#[verifier::ext_equal]
pub struct Segment {
    pub start: int,
    pub bytes: Seq<u8>,
}

/// The non-empty stretches between SOH bytes of `bytes`, which begins at
/// offset `at` of the frame.
pub open spec fn segments(bytes: Seq<u8>, at: int) -> Seq<Segment>
    decreases bytes.len(),
    via segments_shrink
{
    let n = seqs::first_index(bytes, SOH);
    let head = if n > 0 {
        seq![Segment { start: at, bytes: bytes.take(n) }]
    } else {
        Seq::empty()
    };
    if n >= bytes.len() {
        head
    } else {
        head + segments(bytes.skip(n + 1), at + n + 1)
    }
}

#[via_fn]
proof fn segments_shrink(bytes: Seq<u8>, at: int) {
    seqs::lemma_first_index(bytes, SOH);
}

/// The field that a stretch of bytes holds.
pub open spec fn parse_field(bytes: Seq<u8>) -> Result<FieldView, ParseFailure> {
    let chars = vstd::utf8::decode_utf8(bytes);
    let eq = seqs::first_index(chars, '=');
    let tag_text = chars.take(eq);
    let value = chars.skip(eq + 1);
    if !vstd::utf8::valid_utf8(bytes) {
        Err(ParseFailure::NotUtf8)
    } else if eq >= chars.len() {
        Err(ParseFailure::MalformedField(chars))
    } else {
        match text::unsigned_value(tag_text, u32::MAX as nat) {
            None => Err(ParseFailure::InvalidTag(tag_text)),
            Some(tag) => if tag == tags::CHECK_SUM && !is_checksum_text(value) {
                Err(ParseFailure::InvalidCheckSum(value))
            } else {
                Ok(FieldView { tag: tag as u32, value })
            },
        }
    }
}

/// The fields that the segments hold, or the first reason to refuse one.
pub open spec fn parse_segments(segs: Seq<Segment>) -> Result<Seq<FieldView>, ParseFailure>
    decreases segs.len(),
{
    if segs.len() == 0 {
        Ok(Seq::empty())
    } else {
        match parse_segments(segs.drop_last()) {
            Err(e) => Err(e),
            Ok(fields) => match parse_field(segs.last().bytes) {
                Err(e) => Err(e),
                Ok(f) => Ok(fields.push(f)),
            },
        }
    }
}

/// Where the last CheckSum field begins, and its value.
pub open spec fn last_checksum(segs: Seq<Segment>, fields: Seq<FieldView>) -> Option<
    (int, Seq<char>),
>
    decreases fields.len(),
{
    if fields.len() == 0 {
        None
    } else if fields.last().tag == tags::CHECK_SUM {
        Some((segs.last().start, fields.last().value))
    } else {
        last_checksum(segs.drop_last(), fields.drop_last())
    }
}

/// The fields of a frame, or why the frame is refused. The last CheckSum field,
/// where there is one, must carry the checksum of everything before it; the
/// refusal names the low byte of the number that it carries.
pub open spec fn parse_frame(input: Seq<u8>) -> Result<Seq<FieldView>, ParseFailure> {
    let segs = segments(input, 0);
    match parse_segments(segs) {
        Err(e) => Err(e),
        Ok(fields) => if fields.len() == 0 {
            Err(ParseFailure::Empty)
        } else {
            match last_checksum(segs, fields) {
                None => Ok(fields),
                Some((at, value)) => {
                    let computed = checksum(input.take(at));
                    let found = text::digits_value(value);
                    if computed != found {
                        Err(
                            ParseFailure::ChecksumMismatch {
                                computed: computed as u8,
                                found: (found % 256) as u8,
                            },
                        )
                    } else {
                        Ok(fields)
                    }
                },
            }
        },
    }
}

// ---------------------------------------------------------------------------
// Lemmas
// ---------------------------------------------------------------------------
/// The first field with `tag` is at `n`, or no field has it and `n` is the length.
pub proof fn lemma_first_field(fields: Seq<FieldView>, tag: u32, value: Seq<char>, n: int)
    requires
        0 <= n <= fields.len(),
        n < fields.len() ==> fields[n].tag == tag,
        forall|j: int| 0 <= j < n ==> (#[trigger] fields[j]).tag != tag,
    ensures
        first_value(fields, tag) == (if n < fields.len() {
            Some(fields[n].value)
        } else {
            None
        }),
        with_value(fields, tag, value) == (if n < fields.len() {
            fields.update(n, FieldView { tag, value })
        } else {
            fields.push(FieldView { tag, value })
        }),
    decreases n,
{
    if n > 0 {
        let rest = fields.drop_first();
        assert forall|j: int| 0 <= j < n - 1 implies (#[trigger] rest[j]).tag != tag by {
            assert(rest[j] == fields[j + 1]);
        }
        assert(fields[0].tag != tag);
        lemma_first_field(rest, tag, value, n - 1);
        if n < fields.len() {
            assert(seq![fields[0]] + rest.update(n - 1, FieldView { tag, value })
                =~= fields.update(n, FieldView { tag, value }));
        } else {
            assert(seq![fields[0]] + rest.push(FieldView { tag, value }) =~= fields.push(
                FieldView { tag, value },
            ));
        }
    } else if fields.len() == 0 {
        assert(fields.push(FieldView { tag, value }) =~= seq![FieldView { tag, value }]);
    }
}

/// A refusal of the first segments is a refusal of the frame.
pub proof fn lemma_first_failure(done: Seq<Segment>, rest: Seq<Segment>)
    requires
        parse_segments(done) is Err,
    ensures
        parse_segments(done + rest) == parse_segments(done),
    decreases rest.len(),
{
    if rest.len() == 0 {
        assert(done + rest =~= done);
    } else {
        lemma_first_failure(done, rest.drop_last());
        assert((done + rest).drop_last() =~= done + rest.drop_last());
    }
}

pub proof fn lemma_parse_segments_len(segs: Seq<Segment>)
    ensures
        parse_segments(segs) matches Ok(fields) ==> fields.len() == segs.len(),
    decreases segs.len(),
{
    if segs.len() > 0 {
        lemma_parse_segments_len(segs.drop_last());
    }
}

pub proof fn lemma_encode_concat(a: Seq<char>, b: Seq<char>)
    ensures
        vstd::utf8::encode_utf8(a + b) == vstd::utf8::encode_utf8(a) + vstd::utf8::encode_utf8(b),
    decreases a.len(),
{
    if a.len() == 0 {
        assert(a + b =~= b);
        assert(vstd::utf8::encode_utf8(a) =~= Seq::<u8>::empty());
    } else {
        lemma_encode_concat(a.drop_first(), b);
        assert((a + b).drop_first() =~= a.drop_first() + b);
        assert(vstd::utf8::encode_utf8(a + b) =~= vstd::utf8::encode_utf8(a)
            + vstd::utf8::encode_utf8(b));
    }
}

/// The fields in front can be split off as well as the field at the end.
pub proof fn lemma_fields_bytes_front(fields: Seq<FieldView>)
    requires
        fields.len() > 0,
    ensures
        fields_bytes(fields) == field_bytes(fields[0]) + fields_bytes(fields.drop_first()),
    decreases fields.len(),
{
    reveal_with_fuel(fields_bytes, 2);
    if fields.len() == 1 {
        assert(fields.drop_last() =~= Seq::empty());
        assert(fields.drop_first() =~= Seq::empty());
        assert(fields_bytes(fields) =~= field_bytes(fields[0]) + fields_bytes(fields.drop_first()));
    } else {
        lemma_fields_bytes_front(fields.drop_last());
        assert(fields.drop_last().drop_first() =~= fields.drop_first().drop_last());
        assert(fields_bytes(fields) =~= field_bytes(fields[0]) + fields_bytes(fields.drop_first()));
    }
}

/// Two runs of fields, one behind the other.
pub proof fn lemma_fields_bytes_concat(a: Seq<FieldView>, b: Seq<FieldView>)
    ensures
        fields_bytes(a + b) == fields_bytes(a) + fields_bytes(b),
    decreases b.len(),
{
    if b.len() == 0 {
        assert(a + b =~= a);
        assert(fields_bytes(a) + fields_bytes(b) =~= fields_bytes(a));
    } else {
        lemma_fields_bytes_concat(a, b.drop_last());
        assert((a + b).drop_last() =~= a + b.drop_last());
        assert(fields_bytes(a + b) =~= fields_bytes(a) + fields_bytes(b));
    }
}

/// What the checksum covers is the two header fields followed by the body.
pub proof fn lemma_covered_bytes(fields: Seq<FieldView>)
    ensures
        fields_bytes(covered_fields(fields)) == field_bytes(covered_fields(fields)[0])
            + field_bytes(covered_fields(fields)[1]) + fields_bytes(body_fields(fields)),
{
    let body = body_fields(fields);
    let covered = covered_fields(fields);
    let header = seq![covered[0], covered[1]];
    assert(covered =~= header + body);
    lemma_fields_bytes_concat(header, body);
    reveal_with_fuel(fields_bytes, 3);
    assert(header.drop_last() =~= seq![covered[0]]);
    assert(header.drop_last().drop_last() =~= Seq::<FieldView>::empty());
    assert(fields_bytes(header) =~= field_bytes(covered[0]) + field_bytes(covered[1]));
}

pub proof fn lemma_encode_equals_sign()
    ensures
        vstd::utf8::encode_utf8(seq!['=']) == seq![61u8],
{
    let s = seq!['='];
    assert(vstd::utf8::is_ascii_chars(s));
    vstd::utf8::is_ascii_chars_encode_utf8(s);
    assert(s[0] as u8 == vstd::utf8::encode_utf8(s)[0]);
    assert(vstd::utf8::encode_utf8(s) =~= seq![61u8]);
}

/// Text without the SOH character encodes to bytes without the SOH byte.
pub proof fn lemma_encode_without_soh(chars: Seq<char>)
    requires
        !chars.contains('\u{1}'),
    ensures
        forall|i: int|
            0 <= i < vstd::utf8::encode_utf8(chars).len() ==> vstd::utf8::encode_utf8(chars)[i]
                != SOH,
    decreases chars.len(),
{
    if chars.len() > 0 {
        let rest = chars.drop_first();
        assert forall|i: int| 0 <= i < rest.len() implies rest[i] != '\u{1}' by {
            assert(chars[i + 1] != '\u{1}');
        }
        lemma_encode_without_soh(rest);
        let c = chars[0] as u32;
        assert(chars[0] != '\u{1}');
        vstd::utf8::char_is_scalar(chars[0]);
        vstd::utf8::char_u32_cast(chars[0], c);
        lemma_scalar_without_soh(c);
        let bytes = vstd::utf8::encode_utf8(chars);
        let head = vstd::utf8::encode_scalar(c);
        assert(bytes =~= head + vstd::utf8::encode_utf8(rest));
        assert forall|i: int| 0 <= i < bytes.len() implies bytes[i] != SOH by {
            if i < head.len() {
                assert(head[i] != SOH);
            } else {
                assert(vstd::utf8::encode_utf8(rest)[i - head.len()] != SOH);
            }
        }
    }
}

proof fn lemma_high_bytes()
    by (bit_vector)
    ensures
        forall|x: u8| #[trigger] (0x80u8 | x) >= 0x80,
        forall|x: u8| #[trigger] (0xC0u8 | x) >= 0x80,
        forall|x: u8| #[trigger] (0xE0u8 | x) >= 0x80,
        forall|x: u8| #[trigger] (0xF0u8 | x) >= 0x80,
{
}

proof fn lemma_scalar_without_soh(c: u32)
    requires
        vstd::utf8::is_scalar(c),
        c != 1,
    ensures
        forall|i: int|
            0 <= i < vstd::utf8::encode_scalar(c).len() ==> vstd::utf8::encode_scalar(c)[i] != SOH,
{
    assert(c <= 0x7f && c != 1 ==> (c & 0x7f) as u8 != 1) by (bit_vector);
    lemma_high_bytes();
}

// ---------------------------------------------------------------------------
// Round trip
// ---------------------------------------------------------------------------
/// Whether no value of the fields holds the delimiter.
pub open spec fn delimiter_free(fields: Seq<FieldView>) -> bool {
    forall|i: int| 0 <= i < fields.len() ==> !(#[trigger] fields[i].value).contains('\u{1}')
}

proof fn lemma_digits_without_soh(s: Seq<char>)
    requires
        text::all_digits(s),
    ensures
        !s.contains('\u{1}'),
        !s.contains('='),
{
    assert forall|i: int| 0 <= i < s.len() implies s[i] != '\u{1}' && s[i] != '=' by {
        assert(text::is_digit(s[i]));
    }
}

proof fn lemma_three_digits(n: nat)
    requires
        n < 1000,
    ensures
        three_digits(n).len() == 3,
        text::all_digits(three_digits(n)),
        text::digits_value(three_digits(n)) == n,
{
    reveal_with_fuel(text::digits_value, 4);
    let s = three_digits(n);
    assert(n / 100 < 10);
    assert(s.drop_last() =~= seq![text::digit(n / 100), text::digit((n / 10) % 10)]);
    assert(s.drop_last().drop_last() =~= seq![text::digit(n / 100)]);
    assert(s.drop_last().drop_last().drop_last() =~= Seq::<char>::empty());
    assert(n == (n / 100) * 100 + ((n / 10) % 10) * 10 + n % 10);
    assert(text::digits_value(s.drop_last().drop_last()) == n / 100);
    assert(text::digits_value(s.drop_last()) == (n / 100) * 10 + (n / 10) % 10);
}

/// A field's text is read back as the field.
proof fn lemma_field_round_trips(f: FieldView)
    requires
        !f.value.contains('\u{1}'),
        f.tag == tags::CHECK_SUM ==> is_checksum_text(f.value),
    ensures
        ({
            let bytes = vstd::utf8::encode_utf8(field_text(f.tag, f.value));
            &&& bytes.len() > 0
            &&& forall|i: int| 0 <= i < bytes.len() ==> bytes[i] != SOH
            &&& parse_field(bytes) == Ok::<FieldView, ParseFailure>(f)
        }),
{
    let chars = field_text(f.tag, f.value);
    let number = text::decimal(f.tag as nat);
    lemma_field_text_shape(f);
    text::lemma_decimal_value(f.tag as nat);
    lemma_digits_without_soh(number);
    vstd::utf8::encode_utf8_valid_utf8(chars);
    vstd::utf8::encode_utf8_decode_utf8(chars);
    assert forall|j: int| 0 <= j < number.len() implies chars[j] != '=' by {
        assert(chars[j] == number[j]);
    }
    seqs::lemma_first_index_unique(chars, '=', number.len() as int);
    assert(chars.take(number.len() as int) =~= number);
    assert(chars.skip(number.len() as int + 1) =~= f.value);
    text::decimal_round_trips(f.tag as nat, u32::MAX as nat);
}

/// The segments of encoded fields are the fields' texts, each at its offset.
proof fn lemma_segments_of_fields(fields: Seq<FieldView>, at: int)
    requires
        delimiter_free(fields),
    ensures
        ({
            let segs = segments(fields_bytes(fields), at);
            &&& segs.len() == fields.len()
            &&& forall|i: int|
                #![trigger segs[i]]
                0 <= i < fields.len() ==> segs[i].bytes == vstd::utf8::encode_utf8(
                    field_text(fields[i].tag, fields[i].value),
                ) && segs[i].start == at + fields_bytes(fields.take(i)).len()
        }),
    decreases fields.len(),
{
    let bytes = fields_bytes(fields);
    let segs = segments(bytes, at);
    if fields.len() == 0 {
        assert(seqs::first_index(bytes, SOH) == 0);
    } else {
        let first = vstd::utf8::encode_utf8(field_text(fields[0].tag, fields[0].value));
        let rest = fields_bytes(fields.drop_first());
        let tail = fields.drop_first();
        lemma_fields_bytes_front(fields);
        lemma_field_text_shape(fields[0]);
        assert(bytes =~= first.push(SOH) + rest);
        seqs::lemma_first_index_unique(bytes, SOH, first.len() as int);
        assert(bytes.take(first.len() as int) =~= first);
        assert(bytes.skip(first.len() as int + 1) =~= rest);
        assert(delimiter_free(tail)) by {
            assert forall|i: int| 0 <= i < tail.len() implies !(
            #[trigger] tail[i].value).contains('\u{1}') by {
                assert(tail[i] == fields[i + 1]);
            }
        }
        let next = at + first.len() + 1;
        lemma_segments_of_fields(tail, next);
        let inner = segments(rest, next);
        assert(segs =~= seq![Segment { start: at, bytes: first }] + inner);
        assert forall|i: int| #![trigger segs[i]] 0 <= i < fields.len() implies segs[i].bytes
            == vstd::utf8::encode_utf8(field_text(fields[i].tag, fields[i].value)) && segs[i].start
            == at + fields_bytes(fields.take(i)).len() by {
            if i == 0 {
                assert(fields.take(0) =~= Seq::empty());
            } else {
                assert(segs[i] == inner[i - 1]);
                assert(tail[i - 1] == fields[i]);
                let head = fields.take(i);
                lemma_fields_bytes_front(head);
                assert(head.drop_first() =~= tail.take(i - 1));
                assert(head[0] == fields[0]);
            }
        }
    }
}

proof fn lemma_field_text_shape(f: FieldView)
    requires
        !f.value.contains('\u{1}'),
    ensures
        ({
            let bytes = vstd::utf8::encode_utf8(field_text(f.tag, f.value));
            &&& bytes.len() > 0
            &&& forall|i: int| 0 <= i < bytes.len() ==> bytes[i] != SOH
        }),
{
    let chars = field_text(f.tag, f.value);
    let number = text::decimal(f.tag as nat);
    text::lemma_decimal_value(f.tag as nat);
    lemma_digits_without_soh(number);
    assert forall|i: int| 0 <= i < chars.len() implies chars[i] != '\u{1}' by {
        if i < number.len() {
            assert(chars[i] == number[i]);
        } else if i > number.len() {
            assert(chars[i] == f.value[i - number.len() - 1]);
        }
    }
    lemma_encode_without_soh(chars);
    vstd::utf8::encode_utf8_decode_utf8(chars);
    let bytes = vstd::utf8::encode_utf8(chars);
    if bytes.len() == 0 {
        assert(bytes =~= Seq::<u8>::empty());
        assert(vstd::utf8::decode_utf8(bytes) =~= Seq::<char>::empty());
    }
}

proof fn lemma_segments_parse(segs: Seq<Segment>, fields: Seq<FieldView>)
    requires
        segs.len() == fields.len(),
        forall|i: int|
            #![trigger segs[i]]
            0 <= i < segs.len() ==> parse_field(segs[i].bytes) == Ok::<FieldView, ParseFailure>(
                fields[i],
            ),
    ensures
        parse_segments(segs) == Ok::<Seq<FieldView>, ParseFailure>(fields),
    decreases segs.len(),
{
    if segs.len() == 0 {
        assert(fields =~= Seq::empty());
    } else {
        let a = segs.drop_last();
        let b = fields.drop_last();
        assert forall|i: int| #![trigger a[i]] 0 <= i < a.len() implies parse_field(a[i].bytes)
            == Ok::<FieldView, ParseFailure>(b[i]) by {
            assert(a[i] == segs[i]);
        }
        lemma_segments_parse(a, b);
        assert(segs.last() == segs[segs.len() - 1]);
        assert(b.push(fields.last()) =~= fields);
    }
}

proof fn lemma_first_value_free(fields: Seq<FieldView>, tag: u32)
    requires
        delimiter_free(fields),
    ensures
        first_value(fields, tag) matches Some(v) ==> !v.contains('\u{1}'),
    decreases fields.len(),
{
    if fields.len() > 0 && fields[0].tag != tag {
        let tail = fields.drop_first();
        assert forall|i: int| 0 <= i < tail.len() implies !(#[trigger] tail[i].value).contains(
            '\u{1}',
        ) by {
            assert(tail[i] == fields[i + 1]);
        }
        lemma_first_value_free(tail, tag);
    } else if fields.len() > 0 {
        assert(!fields[0].value.contains('\u{1}'));
    }
}

/// Filtering keeps only fields of the message, none of which is framing.
proof fn lemma_kept_fields(fields: Seq<FieldView>)
    requires
        delimiter_free(fields),
    ensures
        ({
            let kept = fields.filter(|f: FieldView| !is_framing(f.tag));
            &&& delimiter_free(kept)
            &&& forall|i: int| 0 <= i < kept.len() ==> !is_framing(#[trigger] kept[i].tag)
        }),
    decreases fields.len(),
{
    reveal(Seq::filter);
    if fields.len() > 0 {
        let init = fields.drop_last();
        assert forall|i: int| 0 <= i < init.len() implies !(#[trigger] init[i].value).contains(
            '\u{1}',
        ) by {
            assert(init[i] == fields[i]);
        }
        lemma_kept_fields(init);
        assert(!fields[fields.len() - 1].value.contains('\u{1}'));
    }
}

/// What the encoder covers with the checksum holds no delimiter inside a value
/// and no CheckSum field.
proof fn lemma_covered_fields(fields: Seq<FieldView>)
    requires
        delimiter_free(fields),
    ensures
        delimiter_free(covered_fields(fields)),
        forall|i: int|
            0 <= i < covered_fields(fields).len() ==> #[trigger] covered_fields(fields)[i].tag
                != tags::CHECK_SUM,
{
    let kept = fields.filter(|f: FieldView| !is_framing(f.tag));
    let body = body_fields(fields);
    let all = covered_fields(fields);
    lemma_kept_fields(fields);
    lemma_first_value_free(fields, tags::BEGIN_STRING);
    lemma_first_value_free(fields, tags::MSG_TYPE);
    reveal_strlit("FIX.4.4");
    let length = text::decimal(fields_bytes(body).len());
    text::lemma_decimal_value(fields_bytes(body).len());
    lemma_digits_without_soh(length);
    assert forall|i: int| 0 <= i < all.len() implies !(#[trigger] all[i].value).contains('\u{1}')
        && all[i].tag != tags::CHECK_SUM by {
        if i >= 3 {
            assert(all[i] == kept[i - 3]);
        } else if i == 2 {
            assert(all[i] == body[0]);
        }
    }
}

/// A delimiter at the end makes no further segment.
proof fn lemma_segments_delimiter(bytes: Seq<u8>, at: int)
    ensures
        segments(bytes.push(SOH), at) == segments(bytes, at),
    decreases bytes.len(),
{
    let n = seqs::first_index(bytes, SOH);
    let longer = bytes.push(SOH);
    seqs::lemma_first_index(bytes, SOH);
    assert(forall|j: int| 0 <= j < n ==> longer[j] == bytes[j]);
    seqs::lemma_first_index_unique(longer, SOH, n);
    assert(longer.take(n) =~= bytes.take(n));
    if n < bytes.len() {
        lemma_segments_delimiter(bytes.skip(n + 1), at + n + 1);
        assert(longer.skip(n + 1) =~= bytes.skip(n + 1).push(SOH));
    } else {
        assert(longer.skip(n + 1) =~= Seq::<u8>::empty());
        assert(segments(Seq::<u8>::empty(), at + n + 1) =~= Seq::<Segment>::empty());
        assert(segments(longer, at) =~= segments(bytes, at));
    }
}

/// Segments begin inside the bytes they are cut from.
proof fn lemma_segments_inside(bytes: Seq<u8>, at: int)
    ensures
        forall|i: int|
            0 <= i < segments(bytes, at).len() ==> at <= (#[trigger] segments(bytes, at)[i]).start
                <= at + bytes.len(),
    decreases bytes.len(),
{
    let n = seqs::first_index(bytes, SOH);
    seqs::lemma_first_index(bytes, SOH);
    if n < bytes.len() {
        let rest = segments(bytes.skip(n + 1), at + n + 1);
        lemma_segments_inside(bytes.skip(n + 1), at + n + 1);
        assert forall|i: int| 0 <= i < segments(bytes, at).len() implies at <= (
        #[trigger] segments(bytes, at)[i]).start <= at + bytes.len() by {
            let before = segments(bytes, at).len() - rest.len();
            if i >= before {
                assert(segments(bytes, at)[i] == rest[i - before]);
            }
        }
    }
}

proof fn lemma_checksum_inside(segs: Seq<Segment>, fields: Seq<FieldView>, end: int)
    requires
        segs.len() == fields.len(),
        forall|i: int| 0 <= i < segs.len() ==> 0 <= (#[trigger] segs[i]).start <= end,
    ensures
        last_checksum(segs, fields) matches Some((at, _)) ==> 0 <= at <= end,
    decreases fields.len(),
{
    if fields.len() > 0 {
        assert(segs.last() == segs[segs.len() - 1]);
        lemma_checksum_inside(segs.drop_last(), fields.drop_last(), end);
    }
}

/// The delimiter behind the last field is optional: with or without it, a frame
/// is read the same way.
pub proof fn trailing_delimiter_is_optional(input: Seq<u8>)
    ensures
        parse_frame(input.push(SOH)) == parse_frame(input),
{
    let segs = segments(input, 0);
    lemma_segments_delimiter(input, 0);
    lemma_segments_inside(input, 0);
    lemma_parse_segments_len(segs);
    if parse_segments(segs) is Ok {
        let fields = parse_segments(segs)->Ok_0;
        lemma_checksum_inside(segs, fields, input.len() as int);
        if last_checksum(segs, fields) is Some {
            let found = last_checksum(segs, fields)->0;
            let at = found.0;
            assert(input.push(SOH).take(at) =~= input.take(at));
        }
    }
}

/// Decoding undoes encoding: a message none of whose values holds the delimiter
/// is read back from its frame, together with the framing fields (BeginString,
/// BodyLength, MsgType in front, CheckSum at the end) that encoding adds.
pub proof fn frame_round_trips(fields: Seq<FieldView>)
    requires
        delimiter_free(fields),
    ensures
        parse_frame(frame(fields)) == Ok::<Seq<FieldView>, ParseFailure>(frame_fields(fields)),
{
    let covered = covered_fields(fields);
    let all = frame_fields(fields);
    let sum = checksum(fields_bytes(covered));
    let bytes = frame(fields);
    let segs = segments(bytes, 0);
    lemma_covered_fields(fields);
    lemma_three_digits(sum);
    lemma_digits_without_soh(three_digits(sum));
    assert(delimiter_free(all)) by {
        assert forall|i: int| 0 <= i < all.len() implies !(#[trigger] all[i].value).contains(
            '\u{1}',
        ) by {
            if i < covered.len() {
                assert(all[i] == covered[i]);
            }
        }
    }
    lemma_segments_of_fields(all, 0);
    assert forall|i: int| #![trigger segs[i]] 0 <= i < segs.len() implies parse_field(segs[i].bytes)
        == Ok::<FieldView, ParseFailure>(all[i]) by {
        if i < covered.len() {
            assert(all[i] == covered[i]);
        }
        lemma_field_round_trips(all[i]);
    }
    lemma_segments_parse(segs, all);
    assert(all.take(covered.len() as int) =~= covered);
    assert(all.drop_last() =~= covered);
    assert(segs[covered.len() as int].start == fields_bytes(covered).len());
    assert(bytes.take(fields_bytes(covered).len() as int) =~= fields_bytes(covered));
}

/// What a filter kept, it keeps again.
proof fn lemma_kept_again(fields: Seq<FieldView>)
    ensures
        ({
            let keep = |f: FieldView| !is_framing(f.tag);
            fields.filter(keep).filter(keep) == fields.filter(keep)
        }),
    decreases fields.len(),
{
    let keep = |f: FieldView| !is_framing(f.tag);
    reveal(Seq::filter);
    if fields.len() > 0 {
        let init = fields.drop_last();
        lemma_kept_again(init);
        if keep(fields.last()) {
            let kept = init.filter(keep);
            assert(kept.push(fields.last()).drop_last() =~= kept);
        }
    }
}

/// Encoding what encoding produced changes nothing: the framing fields are
/// written anew with the values they had, so the frame of a message that was
/// read from a frame is that frame, byte for byte.
pub proof fn reframing_changes_nothing(fields: Seq<FieldView>)
    ensures
        frame_fields(frame_fields(fields)) == frame_fields(fields),
        frame(frame_fields(fields)) == frame(fields),
{
    lemma_body_of_frame(fields);
    lemma_begin_of_frame(fields);
    lemma_same_cover(frame_fields(fields), fields);
}

/// A message that was read from a frame encodes to the bytes it was read from.
pub proof fn parsed_message_encodes_the_same(fields: Seq<FieldView>)
    requires
        delimiter_free(fields),
    ensures
        ({
            &&& parse_frame(frame(fields)) matches Ok(parsed)
            &&& parsed == frame_fields(fields)
            &&& frame(parsed) == frame(fields)
        }),
{
    frame_round_trips(fields);
    reframing_changes_nothing(fields);
}

/// Two messages with one BeginString and one body have one frame.
proof fn lemma_same_cover(a: Seq<FieldView>, b: Seq<FieldView>)
    requires
        body_fields(a) == body_fields(b),
        first_value(a, tags::BEGIN_STRING).unwrap_or("FIX.4.4"@) == first_value(
            b,
            tags::BEGIN_STRING,
        ).unwrap_or("FIX.4.4"@),
    ensures
        frame_fields(a) == frame_fields(b),
{
    let body = body_fields(a);
    assert forall|i: int| 0 <= i < covered_fields(a).len() implies covered_fields(a)[i]
        == covered_fields(b)[i] by {
        if i >= 2 {
            assert(covered_fields(a)[i] == body[i - 2]);
        }
    }
    assert(covered_fields(a) =~= covered_fields(b));
}

/// The BeginString of what encoding produced is the one that was encoded.
proof fn lemma_begin_of_frame(fields: Seq<FieldView>)
    ensures
        first_value(frame_fields(fields), tags::BEGIN_STRING) == Some(
            first_value(fields, tags::BEGIN_STRING).unwrap_or("FIX.4.4"@),
        ),
{
    let all = frame_fields(fields);
    assert(all[0] == covered_fields(fields)[0]);
    assert(first_value(all, tags::BEGIN_STRING) == Some(all[0].value));
}

/// The body of what encoding produced is the body of the message.
proof fn lemma_body_of_frame(fields: Seq<FieldView>)
    ensures
        body_fields(frame_fields(fields)) == body_fields(fields),
{
    let all = frame_fields(fields);
    let body = body_fields(fields);
    assert(all[0].tag == tags::BEGIN_STRING);
    assert(all[1].tag == tags::BODY_LENGTH);
    assert(all[2] == body[0]);
    lemma_first_field(all, tags::MSG_TYPE, Seq::empty(), 2);
    lemma_kept_of_frame(fields);
    assert(body_fields(all) =~= body);
}

/// Of the fields of a frame, those that the encoder does not write itself are
/// those of the message.
proof fn lemma_kept_of_frame(fields: Seq<FieldView>)
    ensures
        ({
            let keep = |f: FieldView| !is_framing(f.tag);
            frame_fields(fields).filter(keep) == fields.filter(keep)
        }),
{
    let keep = |f: FieldView| !is_framing(f.tag);
    let kept = fields.filter(keep);
    let all = frame_fields(fields);
    let end = all.last();
    let header = seq![all[0], all[1], all[2]];
    assert(all[2] == body_fields(fields)[0]);
    assert(all =~= (header + kept).push(end));
    lemma_kept_again(fields);
    lemma_framing_is_dropped(header, kept);
    lemma_framing_end_is_dropped(header + kept, end);
}

/// A framing field behind others is not kept.
proof fn lemma_framing_end_is_dropped(fields: Seq<FieldView>, end: FieldView)
    requires
        is_framing(end.tag),
    ensures
        ({
            let keep = |f: FieldView| !is_framing(f.tag);
            fields.push(end).filter(keep) == fields.filter(keep)
        }),
{
    reveal(Seq::filter);
    assert(fields.push(end).drop_last() =~= fields);
}

/// A framing field in front of others is not kept.
proof fn lemma_framing_is_dropped(header: Seq<FieldView>, fields: Seq<FieldView>)
    requires
        forall|i: int| 0 <= i < header.len() ==> is_framing(#[trigger] header[i].tag),
    ensures
        ({
            let keep = |f: FieldView| !is_framing(f.tag);
            (header + fields).filter(keep) == fields.filter(keep)
        }),
    decreases header.len() + fields.len(),
{
    let keep = |f: FieldView| !is_framing(f.tag);
    reveal(Seq::filter);
    if fields.len() > 0 {
        lemma_framing_is_dropped(header, fields.drop_last());
        assert((header + fields).drop_last() =~= header + fields.drop_last());
        assert((header + fields).last() == fields.last());
    } else if header.len() > 0 {
        lemma_framing_is_dropped(header.drop_last(), fields);
        assert(header + fields =~= header);
        assert(header.drop_last() + fields =~= header.drop_last());
        assert(is_framing(header[header.len() - 1].tag));
    } else {
        assert(header + fields =~= fields);
    }
}

/// What is read of a message is the first field with the tag, and nothing where
/// no field has it. Setting a tag changes that field alone, in its place, and
/// appends one where there is none.
pub proof fn first_occurrences_count(
    fields: Seq<FieldView>,
    tag: u32,
    value: Seq<char>,
    n: int,
)
    requires
        0 <= n <= fields.len(),
        n < fields.len() ==> fields[n].tag == tag,
        forall|j: int| 0 <= j < n ==> (#[trigger] fields[j]).tag != tag,
    ensures
        n < fields.len() ==> first_value(fields, tag) == Some(fields[n].value),
        n == fields.len() ==> first_value(fields, tag) is None,
        ({
            let after = with_value(fields, tag, value);
            &&& after.len() == if n < fields.len() {
                fields.len()
            } else {
                fields.len() + 1
            }
            &&& after[n] == FieldView { tag, value }
            &&& forall|i: int| 0 <= i < fields.len() && i != n ==> #[trigger] after[i] == fields[i]
        }),
{
    lemma_first_field(fields, tag, value, n);
}

/// A frame begins with BeginString (by default FIX.4.4), BodyLength and MsgType
/// and ends with CheckSum. BodyLength is the number of bytes from MsgType up to
/// CheckSum, and CheckSum the sum of all bytes before it, modulo 256, as three
/// digits. In between stand the other fields of the message, in their order.
pub proof fn frames_are_laid_out(fields: Seq<FieldView>)
    ensures
        ({
            let all = frame_fields(fields);
            let last = all.len() - 1;
            let body = all.subrange(2, last);
            &&& all.len() >= 4
            &&& frame(fields) == fields_bytes(all)
            &&& all[0].tag == tags::BEGIN_STRING
            &&& first_value(fields, tags::BEGIN_STRING) matches Some(v) ==> all[0].value == v
            &&& first_value(fields, tags::BEGIN_STRING) is None ==> all[0].value == "FIX.4.4"@
            &&& all[1].tag == tags::BODY_LENGTH
            &&& text::digits_value(all[1].value) == fields_bytes(body).len()
            &&& text::all_digits(all[1].value)
            &&& all[2].tag == tags::MSG_TYPE
            &&& first_value(fields, tags::MSG_TYPE) matches Some(v) ==> all[2].value == v
            &&& first_value(fields, tags::MSG_TYPE) is None ==> all[2].value.len() == 0
            &&& all.subrange(3, last) == fields.filter(
                |f: FieldView|
                    f.tag != tags::BEGIN_STRING && f.tag != tags::BODY_LENGTH && f.tag
                        != tags::MSG_TYPE && f.tag != tags::CHECK_SUM,
            )
            &&& all[last].tag == tags::CHECK_SUM
            &&& all[last].value.len() == 3
            &&& text::all_digits(all[last].value)
            &&& text::digits_value(all[last].value) == byte_sum(fields_bytes(all.take(last))) % 256
        }),
{
    let all = frame_fields(fields);
    let covered = covered_fields(fields);
    let body = body_fields(fields);
    let last = all.len() - 1;
    assert(all.take(last) =~= covered);
    assert(all.subrange(2, last) =~= body);
    assert(all[0] == covered[0] && all[1] == covered[1] && all[2] == body[0]);
    text::lemma_decimal_value(fields_bytes(body).len());
    lemma_three_digits(checksum(fields_bytes(covered)));
    let keep = |f: FieldView| !is_framing(f.tag);
    let plain = |f: FieldView|
        f.tag != tags::BEGIN_STRING && f.tag != tags::BODY_LENGTH && f.tag != tags::MSG_TYPE
            && f.tag != tags::CHECK_SUM;
    lemma_same_filter(fields, keep, plain);
    assert(all.subrange(3, last) =~= fields.filter(keep));
}

/// Two tests that agree keep the same fields.
proof fn lemma_same_filter(
    fields: Seq<FieldView>,
    a: spec_fn(FieldView) -> bool,
    b: spec_fn(FieldView) -> bool,
)
    requires
        forall|f: FieldView| #[trigger] a(f) == b(f),
    ensures
        fields.filter(a) == fields.filter(b),
    decreases fields.len(),
{
    reveal(Seq::filter);
    if fields.len() > 0 {
        lemma_same_filter(fields.drop_last(), a, b);
        assert(a(fields.last()) == b(fields.last()));
    }
}

/// A field on the wire is its tag in decimal, an equals sign, its value and the
/// delimiter; fields stand one behind the other, and the sum of bytes takes in
/// every byte once.
pub proof fn fields_stand_one_behind_the_other(
    fields: Seq<FieldView>,
    f: FieldView,
    bytes: Seq<u8>,
    b: u8,
)
    ensures
        field_bytes(f) == vstd::utf8::encode_utf8(
            text::decimal(f.tag as nat) + seq!['='] + f.value,
        ) + seq![1u8],
        fields_bytes(Seq::empty()).len() == 0,
        fields_bytes(fields.push(f)) == fields_bytes(fields) + field_bytes(f),
        byte_sum(Seq::empty()) == 0,
        byte_sum(bytes.push(b)) == byte_sum(bytes) + b,
        checksum(bytes) == byte_sum(bytes) % 256,
{
    assert(fields.push(f).drop_last() =~= fields);
    assert(bytes.push(b).drop_last() =~= bytes);
    assert(text::decimal(f.tag as nat).push('=') + f.value =~= text::decimal(f.tag as nat)
        + seq!['='] + f.value);
}

/// A stretch of a frame is read as a field exactly if it is UTF-8, has an equals
/// sign, and has in front of the first one the decimal number of a tag; the value
/// is everything behind that sign. A CheckSum must be three digits. Otherwise the
/// first of these that fails is reported.
pub proof fn fields_are_read_or_refused(bytes: Seq<u8>, eq: int)
    requires
        0 <= eq,
    ensures
        !vstd::utf8::valid_utf8(bytes) ==> parse_field(bytes) == Err::<FieldView, ParseFailure>(
            ParseFailure::NotUtf8,
        ),
        vstd::utf8::valid_utf8(bytes) ==> {
            let chars = vstd::utf8::decode_utf8(bytes);
            &&& !chars.contains('=') ==> parse_field(bytes) == Err::<FieldView, ParseFailure>(
                ParseFailure::MalformedField(chars),
            )
            &&& eq < chars.len() && chars[eq] == '=' && !chars.take(eq).contains('=') ==> {
                let tag = text::unsigned_value(chars.take(eq), u32::MAX as nat);
                let value = chars.skip(eq + 1);
                &&& tag is None ==> parse_field(bytes) == Err::<FieldView, ParseFailure>(
                    ParseFailure::InvalidTag(chars.take(eq)),
                )
                &&& tag matches Some(t) ==> {
                    &&& t == 10 && !(value.len() == 3 && text::all_digits(value)) ==> parse_field(
                        bytes,
                    ) == Err::<FieldView, ParseFailure>(ParseFailure::InvalidCheckSum(value))
                    &&& t != 10 || (value.len() == 3 && text::all_digits(value)) ==> parse_field(
                        bytes,
                    ) == Ok::<FieldView, ParseFailure>(FieldView { tag: t as u32, value })
                }
            }
        },
{
    let chars = vstd::utf8::decode_utf8(bytes);
    seqs::lemma_first_index(chars, '=');
    if !chars.contains('=') {
        if seqs::first_index(chars, '=') < chars.len() {
            assert(chars.contains(chars[seqs::first_index(chars, '=')]));
        }
    } else if eq < chars.len() && chars[eq] == '=' && !chars.take(eq).contains('=') {
        assert forall|j: int| 0 <= j < eq implies chars[j] != '=' by {
            assert(chars.take(eq)[j] == chars[j]);
            if chars[j] == '=' {
                assert(chars.take(eq).contains('='));
            }
        }
        seqs::lemma_first_index_unique(chars, '=', eq);
    }
    if eq < chars.len() && chars[eq] == '=' {
        assert(chars.contains('='));
    }
}

/// Every stretch of a frame is one field, in order, and all of them must be
/// readable: the failure of the first that is not is that of the frame.
pub proof fn frames_are_read_stretch_by_stretch(segs: Seq<Segment>, i: int)
    ensures
        parse_segments(segs) matches Ok(fields) ==> {
            &&& fields.len() == segs.len()
            &&& 0 <= i < segs.len() ==> parse_field(segs[i].bytes) == Ok::<FieldView, ParseFailure>(
                fields[i],
            )
        },
        0 <= i < segs.len() && parse_field(segs[i].bytes) is Err && (forall|j: int|
            0 <= j < i ==> parse_field((#[trigger] segs[j]).bytes) is Ok) ==> parse_segments(segs)
            is Err && parse_segments(segs)->Err_0 == parse_field(segs[i].bytes)->Err_0,
        (forall|j: int| 0 <= j < segs.len() ==> parse_field((#[trigger] segs[j]).bytes) is Ok)
            ==> parse_segments(segs) is Ok,
    decreases segs.len(),
{
    if segs.len() > 0 {
        let init = segs.drop_last();
        frames_are_read_stretch_by_stretch(init, i);
        if forall|j: int| 0 <= j < segs.len() ==> parse_field((#[trigger] segs[j]).bytes) is Ok {
            assert forall|j: int| 0 <= j < init.len() implies parse_field(
                (#[trigger] init[j]).bytes,
            ) is Ok by {
                assert(init[j] == segs[j]);
            }
            assert(parse_field(segs[segs.len() - 1].bytes) is Ok);
        }
        if 0 <= i < segs.len() && (forall|j: int|
            0 <= j < i ==> parse_field((#[trigger] segs[j]).bytes) is Ok) {
            if i < init.len() {
                assert(init[i] == segs[i]);
                assert forall|j: int| 0 <= j < i implies parse_field(
                    (#[trigger] init[j]).bytes,
                ) is Ok by {
                    assert(init[j] == segs[j]);
                }
            } else {
                assert forall|j: int| 0 <= j < init.len() implies parse_field(
                    (#[trigger] init[j]).bytes,
                ) is Ok by {
                    assert(init[j] == segs[j]);
                }
            }
        }
    }
}

/// Stretches lie between delimiters: each is not empty, holds no delimiter, and
/// is what stands in the frame from its offset on.
pub proof fn stretches_lie_between_delimiters(bytes: Seq<u8>, at: int, k: int)
    requires
        0 <= k < segments(bytes, at).len(),
    ensures
        ({
            let s = segments(bytes, at)[k];
            &&& s.bytes.len() > 0
            &&& !s.bytes.contains(1u8)
            &&& at <= s.start
            &&& s.start - at + s.bytes.len() <= bytes.len()
            &&& s.bytes == bytes.subrange(s.start - at, s.start - at + s.bytes.len())
            &&& s.start - at + s.bytes.len() < bytes.len() ==> bytes[s.start - at
                + s.bytes.len()] == 1
            &&& s.start > at ==> bytes[s.start - at - 1] == 1
        }),
    decreases bytes.len(),
{
    let n = seqs::first_index(bytes, SOH);
    seqs::lemma_first_index(bytes, SOH);
    let head = if n > 0 {
        seq![Segment { start: at, bytes: bytes.take(n) }]
    } else {
        Seq::empty()
    };
    let s = segments(bytes, at)[k];
    if k < head.len() {
        assert(s == head[0]);
        assert(bytes.take(n) =~= bytes.subrange(0, n));
        assert forall|j: int| 0 <= j < n implies s.bytes[j] != 1u8 by {
            assert(bytes[j] != SOH);
        }
    } else {
        let rest = bytes.skip(n + 1);
        let more = segments(rest, at + n + 1);
        assert(segments(bytes, at) =~= head + more);
        assert(s == more[k - head.len()]);
        stretches_lie_between_delimiters(rest, at + n + 1, k - head.len());
        let from = s.start - (at + n + 1);
        let to = from + s.bytes.len();
        assert(rest.subrange(from, to) =~= bytes.subrange(from + n + 1, to + n + 1));
        if to < rest.len() {
            assert(rest[to] == bytes[to + n + 1]);
        }
        if from > 0 {
            assert(rest[from - 1] == bytes[from + n]);
        }
    }
}

/// Of several CheckSum fields the last one counts; without one there is none.
pub proof fn last_checksum_counts(segs: Seq<Segment>, fields: Seq<FieldView>, i: int)
    requires
        segs.len() == fields.len(),
    ensures
        0 <= i < fields.len() && fields[i].tag == tags::CHECK_SUM && (forall|j: int|
            i < j < fields.len() ==> (#[trigger] fields[j]).tag != tags::CHECK_SUM)
            ==> last_checksum(segs, fields) == Some((segs[i].start, fields[i].value)),
        (forall|j: int| 0 <= j < fields.len() ==> (#[trigger] fields[j]).tag != tags::CHECK_SUM)
            ==> last_checksum(segs, fields) is None,
    decreases fields.len(),
{
    if fields.len() > 0 {
        let init = fields.drop_last();
        last_checksum_counts(segs.drop_last(), init, i);
        if forall|j: int|
            0 <= j < fields.len() ==> (#[trigger] fields[j]).tag != tags::CHECK_SUM {
            assert(fields[fields.len() - 1].tag != tags::CHECK_SUM);
            assert forall|j: int| 0 <= j < init.len() implies (#[trigger] init[j]).tag
                != tags::CHECK_SUM by {
                assert(init[j] == fields[j]);
            }
        }
        if 0 <= i < fields.len() - 1 && (forall|j: int|
            i < j < fields.len() ==> (#[trigger] fields[j]).tag != tags::CHECK_SUM) {
            assert(fields[fields.len() - 1].tag != tags::CHECK_SUM);
            assert forall|j: int| i < j < init.len() implies (#[trigger] init[j]).tag
                != tags::CHECK_SUM by {
                assert(init[j] == fields[j]);
            }
        }
    }
}

/// A frame is accepted exactly if it has at least one field, all of its stretches
/// are readable, and its last CheckSum, where it has one, is the sum of the bytes
/// before it modulo 256. Otherwise it is refused: as empty, for its first
/// unreadable stretch, or for the sum.
pub proof fn frames_are_accepted_or_refused(input: Seq<u8>)
    ensures
        ({
            let segs = segments(input, 0);
            match parse_segments(segs) {
                Err(e) => parse_frame(input) == Err::<Seq<FieldView>, ParseFailure>(e),
                Ok(fields) => {
                    &&& fields.len() == 0 ==> parse_frame(input) == Err::<
                        Seq<FieldView>,
                        ParseFailure,
                    >(ParseFailure::Empty)
                    &&& fields.len() > 0 && last_checksum(segs, fields) is None ==> parse_frame(
                        input,
                    ) == Ok::<Seq<FieldView>, ParseFailure>(fields)
                    &&& fields.len() > 0 ==> (last_checksum(segs, fields) matches Some(c) ==> {
                        &&& parse_frame(input) is Ok <==> text::digits_value(c.1) == byte_sum(
                            input.take(c.0),
                        ) % 256
                        &&& parse_frame(input) is Ok ==> parse_frame(input)->Ok_0 == fields
                        &&& parse_frame(input) is Err ==> parse_frame(input)->Err_0
                            is ChecksumMismatch && parse_frame(input)->Err_0->computed == byte_sum(
                            input.take(c.0),
                        ) % 256 && parse_frame(input)->Err_0->found == text::digits_value(c.1)
                            % 256
                    })
                },
            }
        }),
{
}

} // verus!
