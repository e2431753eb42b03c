//! FIX message representation, wire encoding and parsing.
//!
//! A message is an ordered list of `tag=value` pairs. [`FixMessage`] keeps its
//! fields in insertion order; the header order and the trailing checksum appear
//! only when the message is encoded, so fields can be set in any order.

use crate::buffer;
use crate::fix::tags;
use crate::fix::wire;
use crate::fix::wire::{FieldView, ParseFailure, SOH};
use crate::seqs;
use crate::text;
use bytes::Bytes;
use vstd::prelude::*;

verus! {

/// A single `tag=value` field.
#[derive(Debug, PartialEq, Eq)]
pub struct FixField {
    pub tag: u32,
    pub value: String,
}

impl View for FixField {
    type V = FieldView;

    open spec fn view(&self) -> FieldView {
        FieldView { tag: self.tag, value: self.value@ }
    }
}

impl Clone for FixField {
    fn clone(&self) -> (r: Self)
        ensures
            r@ == self@,
    {
        FixField { tag: self.tag, value: self.value.clone() }
    }
}

impl FixField {
    pub fn new(tag: u32, value: &str) -> (r: Self)
        ensures
            r@ == (FieldView { tag, value: value@ }),
    {
        FixField { tag, value: value.to_owned() }
    }
}

/// A FIX administrative or application message type (tag 35).
#[derive(Debug, PartialEq, Eq)]
pub enum MsgType {
    Logon,
    Heartbeat,
    TestRequest,
    ResendRequest,
    SequenceReset,
    Logout,
    NewOrderSingle,
    ExecutionReport,
    Other(String),
}

/// A message type as a mathematical value.
pub enum MsgKind {
    Logon,
    Heartbeat,
    TestRequest,
    ResendRequest,
    SequenceReset,
    Logout,
    NewOrderSingle,
    ExecutionReport,
    Other(Seq<char>),
}

impl View for MsgType {
    type V = MsgKind;

    open spec fn view(&self) -> MsgKind {
        match self {
            MsgType::Logon => MsgKind::Logon,
            MsgType::Heartbeat => MsgKind::Heartbeat,
            MsgType::TestRequest => MsgKind::TestRequest,
            MsgType::ResendRequest => MsgKind::ResendRequest,
            MsgType::SequenceReset => MsgKind::SequenceReset,
            MsgType::Logout => MsgKind::Logout,
            MsgType::NewOrderSingle => MsgKind::NewOrderSingle,
            MsgType::ExecutionReport => MsgKind::ExecutionReport,
            MsgType::Other(s) => MsgKind::Other(s@),
        }
    }
}

impl MsgKind {
    /// The tag-35 code of a message type.
    pub open spec fn code(self) -> Seq<char> {
        match self {
            MsgKind::Logon => "A"@,
            MsgKind::Heartbeat => "0"@,
            MsgKind::TestRequest => "1"@,
            MsgKind::ResendRequest => "2"@,
            MsgKind::SequenceReset => "4"@,
            MsgKind::Logout => "5"@,
            MsgKind::NewOrderSingle => "D"@,
            MsgKind::ExecutionReport => "8"@,
            MsgKind::Other(s) => s,
        }
    }

    /// The message type that a tag-35 code stands for.
    pub open spec fn of_code(code: Seq<char>) -> MsgKind {
        if code == "A"@ {
            MsgKind::Logon
        } else if code == "0"@ {
            MsgKind::Heartbeat
        } else if code == "1"@ {
            MsgKind::TestRequest
        } else if code == "2"@ {
            MsgKind::ResendRequest
        } else if code == "4"@ {
            MsgKind::SequenceReset
        } else if code == "5"@ {
            MsgKind::Logout
        } else if code == "D"@ {
            MsgKind::NewOrderSingle
        } else if code == "8"@ {
            MsgKind::ExecutionReport
        } else {
            MsgKind::Other(code)
        }
    }

    /// Whether the session layer, rather than the application, handles messages
    /// of this type.
    pub open spec fn is_admin(self) -> bool {
        self is Logon || self is Heartbeat || self is TestRequest || self is ResendRequest
            || self is SequenceReset || self is Logout
    }
}

/// Codes and message types correspond: reading the code of a type gives the
/// type back (for `Other`, where its code is not one of the named types'), and
/// writing the type of a code gives the code back.
pub proof fn codes_round_trip(kind: MsgKind, code: Seq<char>)
    ensures
        kind !is Other ==> MsgKind::of_code(kind.code()) == kind,
        MsgKind::of_code(code).code() == code,
        MsgKind::of_code(code) is Other ==> MsgKind::of_code(code) == MsgKind::Other(code),
{
    reveal_strlit("A");
    reveal_strlit("0");
    reveal_strlit("1");
    reveal_strlit("2");
    reveal_strlit("4");
    reveal_strlit("5");
    reveal_strlit("D");
    reveal_strlit("8");
    assert(kind !is Other ==> kind.code().len() == 1);
    assert("A"@[0] == 'A');
    assert("0"@[0] == '0');
    assert("1"@[0] == '1');
    assert("2"@[0] == '2');
    assert("4"@[0] == '4');
    assert("5"@[0] == '5');
    assert("D"@[0] == 'D');
    assert("8"@[0] == '8');
}

/// The codes of the session and order messages are those of the FIX standard,
/// and a code that is none of them stands for itself.
pub proof fn codes_are_standard(code: Seq<char>)
    ensures
        MsgKind::of_code(code) is Logon <==> code == "A"@,
        MsgKind::of_code(code) is Heartbeat <==> code == "0"@,
        MsgKind::of_code(code) is TestRequest <==> code == "1"@,
        MsgKind::of_code(code) is ResendRequest <==> code == "2"@,
        MsgKind::of_code(code) is SequenceReset <==> code == "4"@,
        MsgKind::of_code(code) is Logout <==> code == "5"@,
        MsgKind::of_code(code) is NewOrderSingle <==> code == "D"@,
        MsgKind::of_code(code) is ExecutionReport <==> code == "8"@,
        MsgKind::of_code(code).code() == code,
        MsgKind::of_code(code).is_admin() <==> code == "A"@ || code == "0"@ || code == "1"@ || code
            == "2"@ || code == "4"@ || code == "5"@,
{
    codes_round_trip(MsgKind::Logon, code);
    codes_round_trip(MsgKind::Heartbeat, code);
    codes_round_trip(MsgKind::TestRequest, code);
    codes_round_trip(MsgKind::ResendRequest, code);
    codes_round_trip(MsgKind::SequenceReset, code);
    codes_round_trip(MsgKind::Logout, code);
    codes_round_trip(MsgKind::NewOrderSingle, code);
    codes_round_trip(MsgKind::ExecutionReport, code);
}

impl Clone for MsgType {
    fn clone(&self) -> (r: Self)
        ensures
            r@ == self@,
    {
        match self {
            MsgType::Logon => MsgType::Logon,
            MsgType::Heartbeat => MsgType::Heartbeat,
            MsgType::TestRequest => MsgType::TestRequest,
            MsgType::ResendRequest => MsgType::ResendRequest,
            MsgType::SequenceReset => MsgType::SequenceReset,
            MsgType::Logout => MsgType::Logout,
            MsgType::NewOrderSingle => MsgType::NewOrderSingle,
            MsgType::ExecutionReport => MsgType::ExecutionReport,
            MsgType::Other(s) => MsgType::Other(s.clone()),
        }
    }
}

impl MsgType {
    /// The FIX tag-35 code for this message type.
    pub fn code(&self) -> (r: &str)
        ensures
            r@ == self@.code(),
    {
        match self {
            MsgType::Logon => "A",
            MsgType::Heartbeat => "0",
            MsgType::TestRequest => "1",
            MsgType::ResendRequest => "2",
            MsgType::SequenceReset => "4",
            MsgType::Logout => "5",
            MsgType::NewOrderSingle => "D",
            MsgType::ExecutionReport => "8",
            MsgType::Other(s) => s.as_str(),
        }
    }

    /// The message type that a tag-35 code stands for.
    pub fn from_code(code: &str) -> (r: MsgType)
        ensures
            r@ == MsgKind::of_code(code@),
    {
        if text::same_text(code, "A") {
            MsgType::Logon
        } else if text::same_text(code, "0") {
            MsgType::Heartbeat
        } else if text::same_text(code, "1") {
            MsgType::TestRequest
        } else if text::same_text(code, "2") {
            MsgType::ResendRequest
        } else if text::same_text(code, "4") {
            MsgType::SequenceReset
        } else if text::same_text(code, "5") {
            MsgType::Logout
        } else if text::same_text(code, "D") {
            MsgType::NewOrderSingle
        } else if text::same_text(code, "8") {
            MsgType::ExecutionReport
        } else {
            MsgType::Other(code.to_owned())
        }
    }

    /// Whether this is a session-layer (administrative) message rather than an
    /// application message. The state machine uses it to decide what to surface
    /// to the application and what to replay during a resend.
    pub fn is_admin(&self) -> (r: bool)
        ensures
            r == self@.is_admin(),
    {
        match self {
            MsgType::Logon => true,
            MsgType::Heartbeat => true,
            MsgType::TestRequest => true,
            MsgType::ResendRequest => true,
            MsgType::SequenceReset => true,
            MsgType::Logout => true,
            _ => false,
        }
    }
}

/// Errors produced while parsing a FIX frame.
#[derive(Debug, PartialEq, Eq)]
#[non_exhaustive]
pub enum FixParseError {
    Empty,
    MalformedField(String),
    InvalidTag(String),
    NotUtf8,
    MissingField(u32),
    ChecksumMismatch { computed: u8, found: u8 },
    InvalidCheckSum(String),
}

impl View for FixParseError {
    type V = ParseFailure;

    open spec fn view(&self) -> ParseFailure {
        match self {
            FixParseError::Empty => ParseFailure::Empty,
            FixParseError::MalformedField(s) => ParseFailure::MalformedField(s@),
            FixParseError::InvalidTag(s) => ParseFailure::InvalidTag(s@),
            FixParseError::NotUtf8 => ParseFailure::NotUtf8,
            FixParseError::MissingField(tag) => ParseFailure::MissingField(*tag),
            FixParseError::ChecksumMismatch { computed, found } => ParseFailure::ChecksumMismatch {
                computed: *computed,
                found: *found,
            },
            FixParseError::InvalidCheckSum(s) => ParseFailure::InvalidCheckSum(s@),
        }
    }
}

/// An ordered collection of FIX fields.
#[derive(Debug, PartialEq, Eq)]
pub struct FixMessage {
    fields: Vec<FixField>,
}

impl View for FixMessage {
    type V = Seq<FieldView>;

    closed spec fn view(&self) -> Seq<FieldView> {
        views(self.fields@)
    }
}

/// The mathematical values of a run of fields.
pub open spec fn views(fields: Seq<FixField>) -> Seq<FieldView> {
    fields.map_values(|f: FixField| f@)
}

impl Clone for FixMessage {
    fn clone(&self) -> (r: Self)
        ensures
            r@ == self@,
    {
        let mut fields: Vec<FixField> = Vec::new();
        let mut i: usize = 0;
        while i < self.fields.len()
            invariant
                i <= self.fields.len(),
                views(fields@) == views(self.fields@).take(i as int),
            decreases self.fields.len() - i,
        {
            let ghost before = views(fields@);
            fields.push(self.fields[i].clone());
            i = i + 1;
            assert(views(fields@) =~= before.push(views(self.fields@)[i - 1]));
            assert(views(fields@) =~= views(self.fields@).take(i as int));
        }
        assert(views(fields@) =~= views(self.fields@));
        FixMessage { fields }
    }
}

impl Default for FixMessage {
    fn default() -> (r: Self)
        ensures
            r@ == Seq::<FieldView>::empty(),
    {
        FixMessage::new()
    }
}

impl FixMessage {
    /// A new, empty message.
    pub fn new() -> (r: Self)
        ensures
            r@ == Seq::<FieldView>::empty(),
    {
        let r = FixMessage { fields: Vec::new() };
        assert(r@ =~= Seq::<FieldView>::empty());
        r
    }

    /// A message of the given type (tag 35). The type is its first field.
    pub fn of_type(msg_type: MsgType) -> (r: Self)
        ensures
            r@ == seq![FieldView { tag: tags::MSG_TYPE, value: msg_type@.code() }],
    {
        let mut m = FixMessage::new();
        m.set(tags::MSG_TYPE, msg_type.code());
        m
    }

    /// The position of the first field with `tag`, or the number of fields.
    fn position(&self, tag: u32) -> (n: usize)
        ensures
            n <= self@.len(),
            n < self@.len() ==> self@[n as int].tag == tag,
            forall|j: int| 0 <= j < n ==> (#[trigger] self@[j]).tag != tag,
            self@.len() == self.fields@.len(),
    {
        let mut i: usize = 0;
        while i < self.fields.len() && self.fields[i].tag != tag
            invariant
                i <= self.fields.len(),
                forall|j: int| 0 <= j < i ==> (#[trigger] self@[j]).tag != tag,
            decreases self.fields.len() - i,
        {
            assert(self@[i as int].tag != tag);
            i = i + 1;
        }
        i
    }

    /// First value for `tag`, if present.
    pub fn get(&self, tag: u32) -> (r: Option<&str>)
        ensures
            r is Some <==> wire::first_value(self@, tag) is Some,
            r matches Some(v) ==> wire::first_value(self@, tag) == Some(v@),
    {
        let n = self.position(tag);
        proof {
            wire::lemma_first_field(self@, tag, Seq::empty(), n as int);
        }
        if n < self.fields.len() {
            Some(self.fields[n].value.as_str())
        } else {
            None
        }
    }

    /// The value of `tag` as an unsigned number, if it is one.
    pub fn get_u64(&self, tag: u32) -> (r: Option<u64>)
        ensures
            r is Some <==> number_of(self@, tag) is Some,
            r matches Some(n) ==> number_of(self@, tag) == Some(n as nat),
    {
        match self.get(tag) {
            Some(v) => text::parse_u64(v),
            None => None,
        }
    }

    /// Sets `tag` to `value`, replacing the first existing occurrence or
    /// appending if absent. Returns the message for chaining.
    pub fn set(&mut self, tag: u32, value: &str) -> (r: &mut Self)
        ensures
            (*r)@ == wire::with_value(old(self)@, tag, value@),
            *final(self) == *final(r),
    {
        let n = self.position(tag);
        proof {
            wire::lemma_first_field(self@, tag, value@, n as int);
        }
        let ghost before = self@;
        if n < self.fields.len() {
            self.fields.set(n, FixField { tag, value: value.to_owned() });
            assert(self@ =~= before.update(n as int, FieldView { tag, value: value@ }));
        } else {
            self.fields.push(FixField { tag, value: value.to_owned() });
            assert(self@ =~= before.push(FieldView { tag, value: value@ }));
        }
        self
    }

    /// All fields in insertion order (header framing fields excluded: they
    /// appear only on the wire).
    pub fn fields(&self) -> (r: &[FixField])
        ensures
            views(r@) == self@,
    {
        self.fields.as_slice()
    }

    /// The message type from tag 35, if present.
    pub fn msg_type(&self) -> (r: Option<MsgType>)
        ensures
            r is Some <==> kind_of(self@) is Some,
            r matches Some(t) ==> kind_of(self@) == Some(t@),
    {
        match self.get(tags::MSG_TYPE) {
            Some(code) => Some(MsgType::from_code(code)),
            None => None,
        }
    }

    /// The sequence number (tag 34), if present and numeric.
    pub fn seq_num(&self) -> (r: Option<u64>)
        ensures
            r is Some <==> number_of(self@, tags::MSG_SEQ_NUM) is Some,
            r matches Some(n) ==> number_of(self@, tags::MSG_SEQ_NUM) == Some(n as nat),
    {
        self.get_u64(tags::MSG_SEQ_NUM)
    }

    /// The bytes of the message's frame.
    ///
    /// Ordering: `8=BeginString | 9=BodyLength | 35=MsgType | body | 10=CheckSum`.
    /// BodyLength counts every byte after the SOH that ends field 9 up to and
    /// including the SOH before CheckSum. CheckSum is the sum of all bytes
    /// before it, modulo 256, as three decimal digits.
    pub fn encode(&self) -> (r: Vec<u8>)
        ensures
            r@ == wire::frame(self@),
    {
        let msg_type: &str = match self.get(tags::MSG_TYPE) {
            Some(v) => v,
            None => "",
        };
        proof {
            reveal_strlit("");
            assert(""@ =~= Seq::<char>::empty());
        }
        let ghost kept = |f: FieldView| !wire::is_framing(f.tag);
        let mut body: Vec<u8> = Vec::new();
        let ghost mut written: Seq<FieldView> = Seq::empty();
        push_field(&mut body, tags::MSG_TYPE, msg_type);
        proof {
            written = written.push(FieldView { tag: tags::MSG_TYPE, value: msg_type@ });
            assert(written.drop_last() =~= Seq::<FieldView>::empty());
            assert(wire::fields_bytes(written.drop_last()) =~= Seq::<u8>::empty());
            assert(body@ =~= wire::fields_bytes(written));
            assert(self@.take(0) =~= Seq::<FieldView>::empty());
            reveal(Seq::filter);
            assert(written =~= written + self@.take(0).filter(kept));
        }
        let ghost first = written;
        let mut i: usize = 0;
        while i < self.fields.len()
            invariant
                i <= self.fields.len(),
                self@.len() == self.fields@.len(),
                body@ == wire::fields_bytes(written),
                kept == (|f: FieldView| !wire::is_framing(f.tag)),
                written == first + self@.take(i as int).filter(kept),
            decreases self.fields.len() - i,
        {
            let tag: u32 = self.fields[i].tag;
            let ghost f = self@[i as int];
            assert(f == self.fields[i as int]@);
            proof {
                reveal(Seq::filter);
                assert(self@.take(i + 1).drop_last() =~= self@.take(i as int));
                assert(self@.take(i + 1).last() == f);
            }
            if tag != tags::BEGIN_STRING && tag != tags::BODY_LENGTH && tag != tags::MSG_TYPE && tag
                != tags::CHECK_SUM {
                push_field(&mut body, tag, self.fields[i].value.as_str());
                proof {
                    assert(written.push(f).drop_last() =~= written);
                    written = written.push(f);
                    assert(written =~= first + self@.take(i + 1).filter(kept));
                }
            }
            i = i + 1;
        }
        proof {
            assert(self@.take(i as int) =~= self@);
            assert(written =~= wire::body_fields(self@));
        }
        let begin_string: &str = match self.get(tags::BEGIN_STRING) {
            Some(v) => v,
            None => "FIX.4.4",
        };
        let length: String = text::decimal_text(body.len() as u64);
        let mut out: Vec<u8> = Vec::new();
        push_field(&mut out, tags::BEGIN_STRING, begin_string);
        push_field(&mut out, tags::BODY_LENGTH, length.as_str());
        out.append(&mut body);
        proof {
            wire::lemma_covered_bytes(self@);
            assert(out@ =~= wire::fields_bytes(wire::covered_fields(self@)));
        }
        let sum: u8 = checksum(out.as_slice(), out.len());
        let ghost covered = out@;
        assert(covered.take(covered.len() as int) =~= covered);
        let digits: String = three_digit_text(sum);
        push_field(&mut out, tags::CHECK_SUM, digits.as_str());
        proof {
            assert(wire::frame_fields(self@).drop_last() =~= wire::covered_fields(self@));
        }
        out
    }

    /// Encodes the message to wire bytes (see [`encode`](Self::encode)).
    pub fn to_wire(&self) -> (r: Bytes)
        ensures
            buffer::contents(r) == wire::frame(self@),
    {
        buffer::buffer_of(self.encode())
    }

    /// Parses a single SOH-delimited FIX frame.
    ///
    /// The frame may or may not have the trailing SOH after `10=NNN`. Where a
    /// CheckSum field is present it is verified against the recomputed checksum.
    pub fn parse(input: &[u8]) -> (r: Result<FixMessage, FixParseError>)
        ensures
            match r {
                Ok(m) => wire::parse_frame(input@) == Ok::<Seq<FieldView>, ParseFailure>(m@),
                Err(e) => wire::parse_frame(input@) == Err::<Seq<FieldView>, ParseFailure>(e@),
            },
    {
        let ghost all = wire::segments(input@, 0);
        let ghost mut done: Seq<wire::Segment> = Seq::empty();
        let mut fields: Vec<FixField> = Vec::new();
        let mut found: Option<(usize, u32)> = None;
        let mut pos: usize = 0;
        proof {
            assert(input@.skip(0) =~= input@);
            assert(all =~= done + wire::segments(input@.skip(0), 0));
            assert(views(fields@) =~= Seq::<FieldView>::empty());
        }
        while pos < input.len()
            invariant
                pos <= input.len(),
                all == wire::segments(input@, 0),
                all == done + wire::segments(input@.skip(pos as int), pos as int),
                done.len() == fields.len(),
                wire::parse_segments(done) == Ok::<Seq<FieldView>, ParseFailure>(views(fields@)),
                match found {
                    None => wire::last_checksum(done, views(fields@)) is None,
                    Some((at, sum)) => {
                        &&& at <= input.len()
                        &&& wire::last_checksum(done, views(fields@)) matches Some((start, value))
                        &&& start == at
                        &&& text::digits_value(value) == sum
                    },
                },
            decreases input.len() - pos,
        {
            let ghost rest = input@.skip(pos as int);
            let mut end: usize = pos;
            while end < input.len() && input[end] != SOH
                invariant
                    pos <= end <= input.len(),
                    rest == input@.skip(pos as int),
                    forall|j: int| 0 <= j < end - pos ==> rest[j] != SOH,
                decreases input.len() - end,
            {
                assert(rest[end - pos] == input@[end as int]);
                end = end + 1;
            }
            proof {
                if end < input.len() {
                    assert(rest[end - pos] == input@[end as int]);
                }
                seqs::lemma_first_index_unique(rest, SOH, end - pos);
            }
            let next: usize = if end < input.len() {
                end + 1
            } else {
                end
            };
            let ghost tail = wire::segments(input@.skip(next as int), next as int);
            proof {
                if end < input.len() {
                    assert(rest.skip(end - pos + 1) =~= input@.skip(next as int));
                } else {
                    assert(input@.skip(next as int) =~= Seq::<u8>::empty());
                }
            }
            if end > pos {
                let ghost seg = wire::Segment { start: pos as int, bytes: rest.take(end - pos) };
                proof {
                    assert(wire::segments(rest, pos as int) =~= seq![seg] + tail);
                    assert(all =~= done.push(seg) + tail);
                    assert(done.push(seg).drop_last() =~= done);
                }
                let raw: &[u8] = vstd::slice::slice_subrange(input, pos, end);
                assert(raw@ =~= seg.bytes);
                match parse_field(raw) {
                    Err(e) => {
                        proof {
                            wire::lemma_first_failure(done.push(seg), tail);
                        }
                        return Err(e);
                    },
                    Ok(f) => {
                        if f.tag == tags::CHECK_SUM {
                            if let Some(sum) = check_sum_number(f.value.as_str()) {
                                found = Some((pos, sum));
                            }
                        }
                        let ghost before = views(fields@);
                        fields.push(f);
                        proof {
                            assert(views(fields@) =~= before.push(f@));
                            assert(views(fields@).drop_last() =~= before);
                            done = done.push(seg);
                        }
                    },
                }
            } else {
                assert(wire::segments(rest, pos as int) =~= tail);
            }
            pos = next;
        }
        proof {
            assert(input@.skip(pos as int) =~= Seq::<u8>::empty());
            assert(seqs::first_index(input@.skip(pos as int), SOH) == 0);
            assert(all =~= done);
        }
        if fields.len() == 0 {
            return Err(FixParseError::Empty);
        }
        let m = FixMessage { fields };
        if let Some((boundary, sum)) = found {
            let computed: u8 = checksum(input, boundary);
            if computed as u32 != sum {
                return Err(
                    FixParseError::ChecksumMismatch { computed, found: (sum % 256) as u8 },
                );
            }
        }
        Ok(m)
    }
}

/// The number that the first value of `tag` denotes, if it is one.
pub open spec fn number_of(fields: Seq<FieldView>, tag: u32) -> Option<nat> {
    match wire::first_value(fields, tag) {
        Some(v) => text::unsigned_value(v, u64::MAX as nat),
        None => None,
    }
}

/// The message type of a run of fields, if it has one.
pub open spec fn kind_of(fields: Seq<FieldView>) -> Option<MsgKind> {
    match wire::first_value(fields, tags::MSG_TYPE) {
        Some(code) => Some(MsgKind::of_code(code)),
        None => None,
    }
}

/// Appends a field and its delimiter.
fn push_field(buf: &mut Vec<u8>, tag: u32, value: &str)
    ensures
        final(buf)@ == old(buf)@ + wire::field_bytes(FieldView { tag, value: value@ }),
{
    let number: String = text::decimal_text(tag as u64);
    let ghost before = buf@;
    buf.extend_from_slice(number.as_str().as_bytes());
    buf.push(61);
    buf.extend_from_slice(value.as_bytes());
    buf.push(SOH);
    proof {
        let head = text::decimal(tag as nat);
        wire::lemma_encode_concat(head.push('='), value@);
        wire::lemma_encode_concat(head, seq!['=']);
        assert(head.push('=') =~= head + seq!['=']);
        wire::lemma_encode_equals_sign();
        assert(buf@ =~= before + wire::field_bytes(FieldView { tag, value: value@ }));
    }
}

/// The checksum of the first `n` bytes.
fn checksum(bytes: &[u8], n: usize) -> (r: u8)
    requires
        n <= bytes.len(),
    ensures
        r == wire::checksum(bytes@.take(n as int)),
{
    let mut sum: u8 = 0;
    let mut i: usize = 0;
    while i < n
        invariant
            i <= n <= bytes.len(),
            sum == wire::checksum(bytes@.take(i as int)),
        decreases n - i,
    {
        assert(bytes@.take(i + 1).drop_last() =~= bytes@.take(i as int));
        sum = sum.wrapping_add(bytes[i]);
        i = i + 1;
    }
    sum
}

/// A byte as exactly three decimal digits.
fn three_digit_text(n: u8) -> (r: String)
    ensures
        r@ == wire::three_digits(n as nat),
{
    let mut out: String = String::new();
    out.push((48 + n / 100) as char);
    out.push((48 + (n / 10) % 10) as char);
    out.push((48 + n % 10) as char);
    assert(out@ =~= wire::three_digits(n as nat));
    out
}

/// The number that the value of a CheckSum field denotes, if it is three digits.
fn check_sum_number(value: &str) -> (r: Option<u32>)
    ensures
        r is Some <==> wire::is_checksum_text(value@),
        r matches Some(n) ==> n == text::digits_value(value@),
{
    let cs: Vec<char> = text::chars_of(value);
    if cs.len() != 3 {
        return None;
    }
    let mut i: usize = 0;
    while i < cs.len()
        invariant
            i <= cs.len(),
            cs@ == value@,
            forall|j: int| 0 <= j < i ==> text::is_digit(#[trigger] cs@[j]),
        decreases cs.len() - i,
    {
        if !('0' <= cs[i] && cs[i] <= '9') {
            assert(!text::is_digit(value@[i as int]));
            return None;
        }
        i = i + 1;
    }
    proof {
        reveal_with_fuel(text::digits_value, 4);
        assert(value@.drop_last().drop_last().drop_last() =~= Seq::<char>::empty());
        assert(text::is_digit(cs@[0]));
        assert(text::is_digit(cs@[1]));
        assert(text::is_digit(cs@[2]));
    }
    let n: u32 = (cs[0] as u32 - 48) * 100 + (cs[1] as u32 - 48) * 10 + (cs[2] as u32 - 48);
    Some(n)
}

/// Reads one field, without its delimiter.
fn parse_field(raw: &[u8]) -> (r: Result<FixField, FixParseError>)
    ensures
        match r {
            Ok(f) => wire::parse_field(raw@) == Ok::<FieldView, ParseFailure>(f@),
            Err(e) => wire::parse_field(raw@) == Err::<FieldView, ParseFailure>(e@),
        },
        r matches Ok(f) ==> f.tag == tags::CHECK_SUM ==> wire::is_checksum_text(f.value@),
{
    let s: String = match text::utf8_text(raw) {
        Some(s) => s,
        None => {
            return Err(FixParseError::NotUtf8);
        },
    };
    let cs: Vec<char> = text::chars_of(s.as_str());
    let mut eq: usize = 0;
    while eq < cs.len() && cs[eq] != '='
        invariant
            eq <= cs.len(),
            forall|j: int| 0 <= j < eq ==> cs@[j] != '=',
        decreases cs.len() - eq,
    {
        eq = eq + 1;
    }
    proof {
        seqs::lemma_first_index_unique(cs@, '=', eq as int);
    }
    if eq == cs.len() {
        return Err(FixParseError::MalformedField(s));
    }
    let tag_text: String = text::string_of(&cs, 0, eq);
    let value: String = text::string_of(&cs, eq + 1, cs.len());
    assert(tag_text@ =~= cs@.take(eq as int));
    assert(value@ =~= cs@.skip(eq + 1));
    let tag: u32 = match text::parse_u32(tag_text.as_str()) {
        Some(tag) => tag,
        None => {
            return Err(FixParseError::InvalidTag(tag_text));
        },
    };
    if tag == tags::CHECK_SUM && check_sum_number(value.as_str()).is_none() {
        return Err(FixParseError::InvalidCheckSum(value));
    }
    Ok(FixField { tag, value })
}

} // verus!
