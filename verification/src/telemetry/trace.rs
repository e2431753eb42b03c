//! Trace context: reading the ids of a parent span from message metadata, and
//! handing a trace on to the messages that are sent while one is handled.

use crate::actor::metadata::{Metadata, MetadataView};
use crate::text;
use crate::time::{self, Span};
use opentelemetry::trace::{SpanId, TraceId};
use vstd::prelude::*;

verus! {

// ---------------------------------------------------------------------------
// Hexadecimal ids
// ---------------------------------------------------------------------------
/// The value of a hexadecimal digit, in either case.
pub open spec fn hex_digit_value(c: char) -> Option<nat> {
    if '0' <= c <= '9' {
        Some((c as int - '0' as int) as nat)
    } else if 'a' <= c <= 'f' {
        Some((c as int - 'a' as int + 10) as nat)
    } else if 'A' <= c <= 'F' {
        Some((c as int - 'A' as int + 10) as nat)
    } else {
        None
    }
}

/// Whether all of `s` are hexadecimal digits.
pub open spec fn all_hex(s: Seq<char>) -> bool {
    forall|i: int| 0 <= i < s.len() ==> hex_digit_value(#[trigger] s[i]) is Some
}

/// The number that hexadecimal digits stand for.
pub open spec fn hex_value(s: Seq<char>) -> nat
    decreases s.len(),
{
    if s.len() == 0 {
        0
    } else {
        hex_value(s.drop_last()) * 16 + hex_digit_value(s.last())->0
    }
}

/// The number up to `max` that `s` spells: hexadecimal digits, with a plus sign
/// before them or not.
pub open spec fn hex_number(s: Seq<char>, max: nat) -> Option<nat> {
    let digits = text::without_plus(s);
    if digits.len() > 0 && all_hex(digits) && hex_value(digits) <= max {
        Some(hex_value(digits))
    } else {
        None
    }
}

/// The lower-case hexadecimal digit of a value below 16.
pub open spec fn hex_digit(d: nat) -> char {
    if d < 10 {
        (48 + d) as char
    } else {
        (87 + d) as char
    }
}

/// The last `width` hexadecimal digits of `n`, in lower case.
pub open spec fn hex_text(n: nat, width: nat) -> Seq<char>
    decreases width,
{
    if width == 0 {
        Seq::empty()
    } else {
        hex_text(n / 16, (width - 1) as nat).push(hex_digit(n % 16))
    }
}

/// `TraceId::from_hex`: the 128-bit number that a text spells in hexadecimal.
#[verifier::external_body]
fn trace_id_of(hex: &str) -> (r: Option<u128>)
    ensures
        r is Some <==> hex_number(hex@, u128::MAX as nat) is Some,
        r matches Some(n) ==> hex_number(hex@, u128::MAX as nat) == Some(n as nat),
{
    TraceId::from_hex(hex).ok().map(|id| u128::from_be_bytes(id.to_bytes()))
}

/// `SpanId::from_hex`: the 64-bit number that a text spells in hexadecimal.
#[verifier::external_body]
fn span_id_of(hex: &str) -> (r: Option<u64>)
    ensures
        r is Some <==> hex_number(hex@, u64::MAX as nat) is Some,
        r matches Some(n) ==> hex_number(hex@, u64::MAX as nat) == Some(n as nat),
{
    SpanId::from_hex(hex).ok().map(|id| u64::from_be_bytes(id.to_bytes()))
}

/// `TraceId::to_string`: 32 hexadecimal digits in lower case.
#[verifier::external_body]
fn trace_text(id: u128) -> (r: String)
    ensures
        r@ == hex_text(id as nat, 32),
{
    TraceId::from(id).to_string()
}

/// `SpanId::to_string`: 16 hexadecimal digits in lower case.
#[verifier::external_body]
fn span_text(id: u64) -> (r: String)
    ensures
        r@ == hex_text(id as nat, 16),
{
    SpanId::from(id).to_string()
}

// ---------------------------------------------------------------------------
// Reading a context
// ---------------------------------------------------------------------------
/// The ids of a span that came from elsewhere and is sampled.
#[derive(Debug, Clone, Copy, PartialEq, Eq, Structural)]
pub struct SpanIds {
    pub trace_id: u128,
    pub span_id: u64,
}

/// The number above zero that an optional text spells.
pub open spec fn valid_id(s: Option<Seq<char>>, max: nat) -> Option<nat> {
    match s {
        None => None,
        Some(s) => match hex_number(s, max) {
            Some(n) => if n > 0 {
                Some(n)
            } else {
                None
            },
            None => None,
        },
    }
}

/// The ids that metadata carry: both, or none.
pub open spec fn ids_of(meta: MetadataView) -> Option<(nat, nat)> {
    match (valid_id(meta.trace_id, u128::MAX as nat), valid_id(meta.span_id, u64::MAX as nat)) {
        (Some(t), Some(s)) => Some((t, s)),
        _ => None,
    }
}

/// The span that metadata name as the parent. There is none where an id is
/// missing, is no hexadecimal number, or is zero.
pub fn metadata_to_span_context(meta: &Metadata) -> (r: Option<SpanIds>)
    ensures
        r is Some <==> ids_of(meta@) is Some,
        r matches Some(ids) ==> ids_of(meta@) == Some((ids.trace_id as nat, ids.span_id as nat)),
{
    match (meta.trace_id(), meta.span_id()) {
        (Some(t), Some(s)) => match (trace_id_of(t), span_id_of(s)) {
            (Some(trace_id), Some(span_id)) => {
                if trace_id == 0 || span_id == 0 {
                    None
                } else {
                    Some(SpanIds { trace_id, span_id })
                }
            },
            _ => None,
        },
        _ => None,
    }
}

// ---------------------------------------------------------------------------
// Handing a context on
// ---------------------------------------------------------------------------
/// The metadata of a message that is sent while one with the metadata `parent`
/// is handled: the parent's trace if it has one, else `fresh_trace`; in either
/// case the span `span`. The baggage goes along.
pub open spec fn child_of(parent: MetadataView, fresh_trace: u128, span: u64) -> MetadataView {
    let trace = match valid_id(parent.trace_id, u128::MAX as nat) {
        Some(t) => t,
        None => fresh_trace as nat,
    };
    MetadataView {
        trace_id: Some(hex_text(trace, 32)),
        span_id: Some(hex_text(span as nat, 16)),
        baggage: parent.baggage,
    }
}

/// [`child_of`], as metadata.
pub fn outgoing_with(parent: &Metadata, fresh_trace: u128, span: u64) -> (r: Metadata)
    requires
        parent.wf(),
    ensures
        r.wf(),
        r@ == child_of(parent@, fresh_trace, span),
{
    let own: Option<u128> = match parent.trace_id() {
        Some(t) => trace_id_of(t),
        None => None,
    };
    let trace: u128 = match own {
        Some(t) => {
            if t != 0 {
                t
            } else {
                fresh_trace
            }
        },
        None => fresh_trace,
    };
    let mut child: Metadata = parent.duplicate();
    child.set_trace_id(trace_text(trace).as_str());
    child.set_span_id(span_text(span).as_str());
    child
}

/// A seed from a time in nanoseconds and a number that tells processes apart.
pub open spec fn mixed(nanos: u64, salt: u64) -> u64 {
    nanos.wrapping_mul(0x2545_F491_4F6C_DD1D) ^ salt
}

/// A seed from a time in nanoseconds and a number that tells processes apart.
pub fn mix(nanos: u64, salt: u64) -> (r: u64)
    ensures
        r == mixed(nanos, salt),
{
    nanos.wrapping_mul(0x2545_F491_4F6C_DD1D) ^ salt
}

/// The lower half of a trace id, from a seed. It is odd, so the id is not zero.
pub open spec fn lower_half(seed: u64) -> u64 {
    (((seed << 31u64) | (seed >> 33u64)) ^ 0x9E37_79B9_7F4A_7C15) | 1
}

/// The trace id of two seeds: the first is its upper half.
pub open spec fn trace_of(hi: u64, lo: u64) -> u128 {
    (hi * 0x1_0000_0000_0000_0000 + lower_half(lo)) as u128
}

/// The trace id that is minted at the times `a` and `b`.
pub open spec fn minted_trace(a: u64, b: u64, salt: u64) -> u128 {
    trace_of(mixed(a, salt), mixed(b, salt))
}

/// The span id that is minted at the time `c`. It is odd, so it is not zero.
pub open spec fn minted_span(c: u64, salt: u64) -> u64 {
    mixed(c, salt) | 1
}

/// A trace id from two seeds.
pub fn trace_id_from(hi: u64, lo: u64) -> (r: u128)
    ensures
        r == trace_of(hi, lo),
        r != 0,
{
    let turned: u64 = (lo << 31u64) | (lo >> 33u64);
    let half: u64 = (turned ^ 0x9E37_79B9_7F4A_7C15) | 1;
    assert(half > 0) by (bit_vector)
        requires
            half == (turned ^ 0x9E37_79B9_7F4A_7C15u64) | 1,
    ;
    (hi as u128) * 0x1_0000_0000_0000_0000 + (half as u128)
}

/// A span id from a seed.
pub fn span_id_from(seed: u64) -> (r: u64)
    ensures
        r == seed | 1,
        r != 0,
{
    assert(seed | 1 != 0) by (bit_vector);
    seed | 1
}

/// The current time in nanoseconds, modulo 2^64.
fn nanos_now() -> (r: u64)
    ensures
        exists|span: Span|
            #![trigger span.total_nanos()]
            span.valid() && r == span.total_nanos() % 0x1_0000_0000_0000_0000,
{
    let span: Span = time::since_epoch();
    let total: u128 = span.secs as u128 * 1_000_000_000 + span.nanos as u128;
    assert(total == span.total_nanos());
    (total % 0x1_0000_0000_0000_0000) as u64
}

/// The metadata of a message that is sent while one with the metadata `parent`
/// is handled. A missing trace and the span are minted from the current time and
/// `salt`, a number that tells processes apart.
pub fn outgoing(parent: &Metadata, salt: u64) -> (r: Metadata)
    requires
        parent.wf(),
    ensures
        r.wf(),
        exists|a: u64, b: u64, c: u64| #[trigger]
            minted_trace(a, b, salt) != 0 && #[trigger] minted_span(c, salt) != 0 && r@
                == child_of(parent@, minted_trace(a, b, salt), minted_span(c, salt)),
{
    let a: u64 = nanos_now();
    let b: u64 = nanos_now();
    let trace: u128 = trace_id_from(mix(a, salt), mix(b, salt));
    let c: u64 = nanos_now();
    let span: u64 = span_id_from(mix(c, salt));
    assert(minted_trace(a, b, salt) == trace);
    assert(minted_span(c, salt) == span);
    outgoing_with(parent, trace, span)
}

// ---------------------------------------------------------------------------
// Laws
// ---------------------------------------------------------------------------
/// 16 to the power of `width`.
pub open spec fn hex_range(width: nat) -> nat
    decreases width,
{
    if width == 0 {
        1
    } else {
        16 * hex_range((width - 1) as nat)
    }
}

proof fn lemma_hex_text(n: nat, width: nat)
    requires
        n < hex_range(width),
    ensures
        hex_text(n, width).len() == width,
        all_hex(hex_text(n, width)),
        hex_value(hex_text(n, width)) == n,
        width > 0 ==> hex_text(n, width)[0] != '+',
    decreases width,
{
    if width > 0 {
        let rest = (width - 1) as nat;
        lemma_hex_text(n / 16, rest);
        let s = hex_text(n, width);
        let t = hex_text(n / 16, rest);
        assert(s.drop_last() =~= t);
        assert(hex_digit_value(hex_digit(n % 16)) == Some(n % 16));
        assert forall|i: int| 0 <= i < s.len() implies hex_digit_value(#[trigger] s[i]) is Some by {
            if i < t.len() {
                assert(s[i] == t[i]);
            }
        }
        if rest > 0 {
            assert(s[0] == t[0]);
        }
    }
}

proof fn lemma_hex_ranges()
    ensures
        hex_range(16) == 0x1_0000_0000_0000_0000,
        hex_range(32) == 0x1_0000_0000_0000_0000_0000_0000_0000_0000int,
{
    reveal_with_fuel(hex_range, 33);
}

/// The written form of a trace id is read back as that id.
pub proof fn trace_ids_round_trip(id: u128)
    ensures
        hex_number(hex_text(id as nat, 32), u128::MAX as nat) == Some(id as nat),
{
    lemma_hex_ranges();
    lemma_hex_text(id as nat, 32);
    assert(text::without_plus(hex_text(id as nat, 32)) == hex_text(id as nat, 32));
}

/// The written form of a span id is read back as that id.
pub proof fn span_ids_round_trip(id: u64)
    ensures
        hex_number(hex_text(id as nat, 16), u64::MAX as nat) == Some(id as nat),
{
    lemma_hex_ranges();
    lemma_hex_text(id as nat, 16);
    assert(text::without_plus(hex_text(id as nat, 16)) == hex_text(id as nat, 16));
}

/// A trace goes on from parent to child: the child names the same trace, and its
/// own span. An id in its written form stays as it is, letter for letter.
pub proof fn trace_is_handed_on(parent: MetadataView, fresh_trace: u128, span: u64)
    requires
        valid_id(parent.trace_id, u128::MAX as nat) is Some,
        span != 0,
    ensures
        ids_of(child_of(parent, fresh_trace, span)) == Some(
            (valid_id(parent.trace_id, u128::MAX as nat)->0, span as nat),
        ),
        parent.trace_id->0 == hex_text(valid_id(parent.trace_id, u128::MAX as nat)->0, 32)
            ==> child_of(parent, fresh_trace, span).trace_id == parent.trace_id,
{
    let t = valid_id(parent.trace_id, u128::MAX as nat)->0;
    trace_ids_round_trip(t as u128);
    span_ids_round_trip(span);
}

/// Without a trace to go on, the child starts the fresh one.
pub proof fn missing_trace_is_minted(parent: MetadataView, fresh_trace: u128, span: u64)
    requires
        valid_id(parent.trace_id, u128::MAX as nat) is None,
        fresh_trace != 0,
        span != 0,
    ensures
        ids_of(child_of(parent, fresh_trace, span)) == Some((fresh_trace as nat, span as nat)),
{
    trace_ids_round_trip(fresh_trace);
    span_ids_round_trip(span);
}

/// A context is read exactly where both ids are given, both are hexadecimal
/// numbers within their width, and neither is zero; then it is these two.
pub proof fn contexts_need_both_ids(meta: MetadataView)
    ensures
        ids_of(meta) is Some <==> {
            &&& meta.trace_id matches Some(t)
            &&& meta.span_id matches Some(s)
            &&& hex_number(t, u128::MAX as nat) matches Some(n)
            &&& hex_number(s, u64::MAX as nat) matches Some(m)
            &&& n > 0
            &&& m > 0
        },
        ids_of(meta) matches Some(ids) ==> {
            &&& meta.trace_id matches Some(t)
            &&& meta.span_id matches Some(s)
            &&& hex_number(t, u128::MAX as nat) == Some(ids.0)
            &&& hex_number(s, u64::MAX as nat) == Some(ids.1)
        },
{
}

/// A child carries the baggage of its parent unchanged, and ids of full length:
/// 32 digits for the trace, 16 for the span.
pub proof fn children_carry_the_baggage(parent: MetadataView, fresh_trace: u128, span: u64)
    ensures
        ({
            let child = child_of(parent, fresh_trace, span);
            &&& child.baggage == parent.baggage
            &&& child.trace_id matches Some(t)
            &&& child.span_id matches Some(s)
            &&& t.len() == 32
            &&& s.len() == 16
            &&& hex_number(s, u64::MAX as nat) == Some(span as nat)
        }),
{
    let trace = match valid_id(parent.trace_id, u128::MAX as nat) {
        Some(t) => t,
        None => fresh_trace as nat,
    };
    lemma_hex_ranges();
    lemma_hex_text(trace, 32);
    lemma_hex_text(span as nat, 16);
    span_ids_round_trip(span);
}

/// Hexadecimal digits count from 0 to 15, letters in either case, and each digit
/// of a number weighs 16 times the one behind it. Anything else, or nothing, or a
/// number that is too large, is no number; a plus sign in front is allowed.
pub proof fn hexadecimal_is_read_digit_by_digit(s: Seq<char>, c: char, max: nat)
    ensures
        '0' <= c <= '9' ==> hex_digit_value(c) == Some((c as int - 48) as nat),
        'a' <= c <= 'f' ==> hex_digit_value(c) == Some((c as int - 87) as nat),
        'A' <= c <= 'F' ==> hex_digit_value(c) == Some((c as int - 55) as nat),
        hex_digit_value(c) is Some <==> '0' <= c <= '9' || 'a' <= c <= 'f' || 'A' <= c <= 'F',
        hex_value(Seq::empty()) == 0,
        hex_digit_value(c) matches Some(d) ==> hex_value(s.push(c)) == 16 * hex_value(s) + d,
        s.len() > 0 && s[0] != '+' && all_hex(s) && hex_value(s) <= max ==> hex_number(s, max)
            == Some(hex_value(s)),
        s.len() > 0 && s[0] != '+' && !(all_hex(s) && hex_value(s) <= max) ==> hex_number(s, max)
            is None,
        s.len() == 0 ==> hex_number(s, max) is None,
        s.len() > 0 && s[0] == '+' ==> hex_number(s, max) == if s.len() > 1 && all_hex(
            s.drop_first(),
        ) && hex_value(s.drop_first()) <= max {
            Some(hex_value(s.drop_first()))
        } else {
            None
        },
{
    assert(s.push(c).drop_last() =~= s);
}

/// Minted ids are never zero: both are odd. The upper half of a trace id is its
/// first seed.
pub proof fn minted_ids_are_odd(hi: u64, lo: u64, c: u64, salt: u64)
    ensures
        lower_half(lo) % 2 == 1,
        minted_span(c, salt) % 2 == 1,
        trace_of(hi, lo) / 0x1_0000_0000_0000_0000 == hi,
        trace_of(hi, lo) % 0x1_0000_0000_0000_0000 == lower_half(lo),
        trace_of(hi, lo) != 0,
        mixed(c, salt) == ((c * 0x2545_F491_4F6C_DD1D) % 0x1_0000_0000_0000_0000) as u64 ^ salt,
{
    let turned = ((lo << 31u64) | (lo >> 33u64)) ^ 0x9E37_79B9_7F4A_7C15u64;
    assert((turned | 1) % 2 == 1) by (bit_vector);
    let m = mixed(c, salt);
    assert((m | 1) % 2 == 1) by (bit_vector);
}

} // verus!
