//! Record and replay: where the entries of a journal come from, and driving an
//! aggregate through a recording.

use crate::buffer;
use crate::persistence::repr::{self, PersistentRepr, ReprView};
use crate::persistence::rng::{RngState, SeededRng};
use crate::text;
use vstd::prelude::*;

verus! {

/// An aggregate whose state is the result of its events.
pub trait Eventsourced {
    type Event;

    type State;

    /// The state that `event` turns `state` into.
    open spec fn applied(state: Self::State, event: Self::Event) -> Self::State {
        arbitrary()
    }

    /// Apply an event to the state.
    fn apply_event(state: &mut Self::State, event: &Self::Event)
        ensures
            *final(state) == Self::applied(*old(state), *event),
    ;
}

/// Where a journal entry comes from.
#[derive(Debug, Clone, Copy, PartialEq, Eq, Structural)]
pub enum EntryKind {
    /// An input that cannot be recomputed: it is replayed as it was recorded.
    ExternalCommand,
    /// A value that follows from the state and the inputs: it is recomputed, and
    /// held against the recording.
    DerivedEvent,
}

const TAG_EXTERNAL: &'static str = "kind:external";

const TAG_DERIVED: &'static str = "kind:derived";

/// The tag of a kind.
pub open spec fn tag_of(kind: EntryKind) -> Seq<char> {
    match kind {
        EntryKind::ExternalCommand => "kind:external"@,
        EntryKind::DerivedEvent => "kind:derived"@,
    }
}

/// The kind that a tag stands for.
pub open spec fn kind_of_tag(tag: Seq<char>) -> Option<EntryKind> {
    if tag == "kind:external"@ {
        Some(EntryKind::ExternalCommand)
    } else if tag == "kind:derived"@ {
        Some(EntryKind::DerivedEvent)
    } else {
        None
    }
}

/// The kind of the first tag that stands for one.
pub open spec fn kind_of_tags(tags: Seq<Seq<char>>) -> Option<EntryKind>
    decreases tags.len(),
{
    if tags.len() == 0 {
        None
    } else if kind_of_tag(tags[0]) is Some {
        kind_of_tag(tags[0])
    } else {
        kind_of_tags(tags.drop_first())
    }
}

impl EntryKind {
    /// The tag of this kind.
    pub fn tag(self) -> (r: String)
        ensures
            r@ == tag_of(self),
    {
        match self {
            EntryKind::ExternalCommand => TAG_EXTERNAL.to_string(),
            EntryKind::DerivedEvent => TAG_DERIVED.to_string(),
        }
    }

    /// The kind that the tags of an entry tell, if they tell one.
    pub fn from_tags(tags: &[String]) -> (r: Option<EntryKind>)
        ensures
            r == kind_of_tags(repr::tag_texts(tags@)),
    {
        let ghost all = repr::tag_texts(tags@);
        let mut i: usize = 0;
        assert(all.skip(0) =~= all);
        while i < tags.len()
            invariant
                i <= tags.len(),
                all == repr::tag_texts(tags@),
                kind_of_tags(all) == kind_of_tags(all.skip(i as int)),
            decreases tags.len() - i,
        {
            assert(all.skip(i as int)[0] == tags@[i as int]@);
            assert(all.skip(i as int).drop_first() =~= all.skip(i + 1));
            if text::same_text(tags[i].as_str(), TAG_EXTERNAL) {
                return Some(EntryKind::ExternalCommand);
            }
            if text::same_text(tags[i].as_str(), TAG_DERIVED) {
                proof {
                    reveal_strlit("kind:external");
                    reveal_strlit("kind:derived");
                }
                return Some(EntryKind::DerivedEvent);
            }
            i = i + 1;
        }
        None
    }
}

/// `repr` with the tag of `kind` behind its tags.
pub fn with_kind(repr: PersistentRepr, kind: EntryKind) -> (r: PersistentRepr)
    ensures
        r@ == (ReprView { tags: repr@.tags.push(tag_of(kind)), ..repr@ }),
{
    let mut r: PersistentRepr = repr;
    r.tags.push(kind.tag());
    assert(r@.tags =~= repr@.tags.push(tag_of(kind)));
    r
}

/// The model, provider, version and seed that a run was made under.
#[derive(Debug, PartialEq, Eq)]
pub struct RunPin {
    pub model: String,
    pub provider: String,
    pub version: String,
    pub seed: u64,
}

/// The outcome of a replay.
#[derive(Debug, Clone, Copy, PartialEq, Eq, Structural)]
pub struct ReplayReport {
    /// How many entries were consumed.
    pub events: u64,
    /// Whether every entry could be read, and every derived one came out as it
    /// was recorded.
    pub matched: bool,
}

/// Drives an aggregate through a recording.
pub struct ReplayHarness;

/// One entry of a replay: the event that was read from it, if any, and, for a
/// derived entry, its bytes as they come out again.
pub struct Step<V> {
    pub event: Option<V>,
    pub bytes: Seq<u8>,
}

/// Whether an entry is recomputed: all but the external ones are.
pub open spec fn is_derived(entry: ReprView) -> bool {
    kind_of_tags(entry.tags) != Some(EntryKind::ExternalCommand)
}

/// Whether a step comes out as its entry was recorded.
pub open spec fn step_matches<V>(entry: ReprView, step: Step<V>) -> bool {
    step.event is Some && (is_derived(entry) ==> step.bytes == entry.payload)
}

/// Whether all of `steps` come out as recorded.
pub open spec fn all_match<V>(entries: Seq<ReprView>, steps: Seq<Step<V>>) -> bool {
    forall|i: int|
        0 <= i < entries.len() && i < steps.len() ==> step_matches(entries[i], #[trigger] steps[i])
}

/// The state after the events of `steps`; what could not be read changes
/// nothing.
pub open spec fn state_after<E: Eventsourced>(start: E::State, steps: Seq<Step<E::Event>>) -> E::State
    decreases steps.len(),
{
    if steps.len() == 0 {
        start
    } else {
        let before = state_after::<E>(start, steps.drop_last());
        match steps.last().event {
            Some(e) => E::applied(before, e),
            None => before,
        }
    }
}

/// `decode` may read `event` from `payload`.
pub open spec fn reads<V, F: Fn(&[u8]) -> Option<V>>(
    decode: F,
    payload: Seq<u8>,
    event: Option<V>,
) -> bool {
    exists|b: &[u8]| b@ == payload && #[trigger] call_ensures(decode, (b,), event)
}

/// `re_encode` may write `event` as `bytes`.
pub open spec fn writes<V, G: Fn(&V) -> Vec<u8>>(re_encode: G, event: V, bytes: Seq<u8>) -> bool {
    exists|v: Vec<u8>| v@ == bytes && #[trigger] call_ensures(re_encode, (&event,), v)
}

/// `steps` are what the two functions make of `entries`, one step for each.
pub open spec fn steps_of<V, F: Fn(&[u8]) -> Option<V>, G: Fn(&V) -> Vec<u8>>(
    decode: F,
    re_encode: G,
    entries: Seq<ReprView>,
    steps: Seq<Step<V>>,
) -> bool {
    &&& steps.len() == entries.len()
    &&& forall|i: int|
        0 <= i < steps.len() ==> {
            &&& reads(decode, entries[i].payload, (#[trigger] steps[i]).event)
            &&& steps[i].event is Some && is_derived(entries[i]) ==> writes(
                re_encode,
                steps[i].event->0,
                steps[i].bytes,
            )
        }
}

impl ReplayHarness {
    /// Replay `recorded` into `state`. `decode` reads an event from a payload;
    /// `re_encode` writes it again, to be held against the recording. External
    /// entries are applied as they were recorded.
    pub fn replay<E: Eventsourced, F: Fn(&[u8]) -> Option<E::Event>, G: Fn(&E::Event) -> Vec<u8>>(
        rng_state: RngState,
        state: &mut E::State,
        recorded: &[PersistentRepr],
        decode: F,
        re_encode: G,
    ) -> (r: ReplayReport)
        requires
            forall|b: &[u8]| call_requires(decode, (b,)),
            forall|e: &E::Event| call_requires(re_encode, (e,)),
        ensures
            r.events == recorded@.len(),
            exists|steps: Seq<Step<E::Event>>|
                {
                    &&& #[trigger] steps_of(
                        decode,
                        re_encode,
                        repr::repr_views(recorded@),
                        steps,
                    )
                    &&& r.matched == all_match(repr::repr_views(recorded@), steps)
                    &&& *final(state) == state_after::<E>(*old(state), steps)
                },
    {
        let _rng: SeededRng = SeededRng::restore(rng_state);
        let ghost entries = repr::repr_views(recorded@);
        let ghost start = *state;
        let ghost mut steps: Seq<Step<E::Event>> = Seq::empty();
        let mut matched: bool = true;
        let mut i: usize = 0;
        while i < recorded.len()
            invariant
                i <= recorded.len(),
                entries == repr::repr_views(recorded@),
                forall|b: &[u8]| call_requires(decode, (b,)),
                forall|e: &E::Event| call_requires(re_encode, (e,)),
                steps_of(decode, re_encode, entries.take(i as int), steps),
                matched == all_match(entries.take(i as int), steps),
                *state == state_after::<E>(start, steps),
            decreases recorded.len() - i,
        {
            let entry: &PersistentRepr = &recorded[i];
            let payload: &[u8] = entry.payload.as_slice();
            let ghost before = steps;
            let ghost mut bytes: Seq<u8> = Seq::empty();
            let ghost event: Option<E::Event>;
            let was_matched: bool = matched;
            assert(entries[i as int] == entry@);
            match decode(payload) {
                None => {
                    matched = false;
                    proof {
                        event = None;
                        assert(reads(decode, entry@.payload, None::<E::Event>));
                    }
                },
                Some(e) => {
                    proof {
                        event = Some(e);
                        assert(reads(decode, entry@.payload, Some(e)));
                    }
                    let external: bool = match EntryKind::from_tags(entry.tags.as_slice()) {
                        Some(EntryKind::ExternalCommand) => true,
                        _ => false,
                    };
                    if !external {
                        let again: Vec<u8> = re_encode(&e);
                        proof {
                            bytes = again@;
                            assert(writes(re_encode, e, again@));
                        }
                        if !buffer::same_bytes(&again, &entry.payload) {
                            matched = false;
                        }
                    }
                    E::apply_event(state, &e);
                },
            }
            i = i + 1;
            proof {
                let step = Step { event, bytes };
                steps = before.push(step);
                assert(steps.drop_last() =~= before);
                let seen = entries.take(i as int);
                assert(seen.drop_last() =~= entries.take(i - 1));
                assert forall|j: int| 0 <= j < steps.len() implies {
                    &&& reads(decode, seen[j].payload, (#[trigger] steps[j]).event)
                    &&& steps[j].event is Some && is_derived(seen[j]) ==> writes(
                        re_encode,
                        steps[j].event->0,
                        steps[j].bytes,
                    )
                } by {
                    if j < i - 1 {
                        assert(steps[j] == before[j]);
                        assert(seen[j] == entries.take(i - 1)[j]);
                    }
                }
                if all_match(seen, steps) {
                    assert forall|j: int|
                        0 <= j < i - 1 && j < before.len() implies step_matches(
                        entries.take(i - 1)[j],
                        #[trigger] before[j],
                    ) by {
                        assert(steps[j] == before[j]);
                    }
                    assert(step_matches(seen[i - 1], steps[i - 1]));
                }
                if was_matched && step_matches(entry@, step) {
                    assert forall|j: int|
                        0 <= j < seen.len() && j < steps.len() implies step_matches(
                        seen[j],
                        #[trigger] steps[j],
                    ) by {
                        if j < i - 1 {
                            assert(steps[j] == before[j]);
                            assert(step_matches(entries.take(i - 1)[j], before[j]));
                        }
                    }
                }
            }
        }
        proof {
            assert(entries.take(i as int) =~= entries);
        }
        ReplayReport { events: recorded.len() as u64, matched }
    }
}

// ---------------------------------------------------------------------------
// Laws
// ---------------------------------------------------------------------------
/// The tag of a kind tells that kind.
pub proof fn tags_round_trip(kind: EntryKind)
    ensures
        kind_of_tag(tag_of(kind)) == Some(kind),
        kind_of_tags(seq![tag_of(kind)]) == Some(kind),
{
    reveal_strlit("kind:external");
    reveal_strlit("kind:derived");
    assert("kind:external"@[5] != "kind:derived"@[5]);
}

/// Marking an entry that has no kind gives it one that can be told again.
pub proof fn marked_kind_is_recovered(tags: Seq<Seq<char>>, kind: EntryKind)
    requires
        kind_of_tags(tags) is None,
    ensures
        kind_of_tags(tags.push(tag_of(kind))) == Some(kind),
    decreases tags.len(),
{
    tags_round_trip(kind);
    let more = tags.push(tag_of(kind));
    if tags.len() > 0 {
        marked_kind_is_recovered(tags.drop_first(), kind);
        assert(more.drop_first() =~= tags.drop_first().push(tag_of(kind)));
        assert(more[0] == tags[0]);
    } else {
        assert(more =~= seq![tag_of(kind)]);
    }
}

/// Two replays of the same recording agree in state and outcome, as long as
/// reading and writing an event always give the same.
pub proof fn replay_is_deterministic<
    E: Eventsourced,
    F: Fn(&[u8]) -> Option<E::Event>,
    G: Fn(&E::Event) -> Vec<u8>,
>(
    decode: F,
    re_encode: G,
    start: E::State,
    entries: Seq<ReprView>,
    first: Seq<Step<E::Event>>,
    second: Seq<Step<E::Event>>,
)
    requires
        steps_of(decode, re_encode, entries, first),
        steps_of(decode, re_encode, entries, second),
        forall|p: Seq<u8>, a: Option<E::Event>, b: Option<E::Event>|
            #[trigger] reads(decode, p, a) && #[trigger] reads(decode, p, b) ==> a == b,
        forall|e: E::Event, a: Seq<u8>, b: Seq<u8>|
            #[trigger] writes(re_encode, e, a) && #[trigger] writes(re_encode, e, b) ==> a == b,
    ensures
        state_after::<E>(start, first) == state_after::<E>(start, second),
        all_match(entries, first) == all_match(entries, second),
{
    assert forall|i: int| 0 <= i < entries.len() implies (#[trigger] first[i]).event
        == second[i].event && step_matches(entries[i], first[i]) == step_matches(
        entries[i],
        second[i],
    ) by {
        assert(reads(decode, entries[i].payload, first[i].event));
        assert(reads(decode, entries[i].payload, second[i].event));
        if first[i].event is Some && is_derived(entries[i]) {
            assert(writes(re_encode, first[i].event->0, first[i].bytes));
            assert(writes(re_encode, second[i].event->0, second[i].bytes));
        }
    }
    lemma_same_events_same_state::<E>(start, first, second);
    if all_match(entries, first) {
        assert forall|i: int| 0 <= i < entries.len() && i < second.len() implies step_matches(
            entries[i],
            #[trigger] second[i],
        ) by {
            assert(step_matches(entries[i], first[i]));
        }
    }
    if all_match(entries, second) {
        assert forall|i: int| 0 <= i < entries.len() && i < first.len() implies step_matches(
            entries[i],
            #[trigger] first[i],
        ) by {
            assert(step_matches(entries[i], second[i]));
        }
    }
}

/// A recording is applied in the order in which it was made, the oldest entry
/// first: one more step applies its event, where one was read, to the state that
/// the steps before it left, and a recording in two parts is the second part
/// replayed from where the first one ends.
pub proof fn replay_goes_in_order<E: Eventsourced>(
    start: E::State,
    first: Seq<Step<E::Event>>,
    second: Seq<Step<E::Event>>,
    step: Step<E::Event>,
)
    ensures
        state_after::<E>(start, Seq::empty()) == start,
        step.event is Some ==> state_after::<E>(start, first.push(step)) == E::applied(
            state_after::<E>(start, first),
            step.event->0,
        ),
        step.event is None ==> state_after::<E>(start, first.push(step)) == state_after::<E>(
            start,
            first,
        ),
        state_after::<E>(start, first + second) == state_after::<E>(
            state_after::<E>(start, first),
            second,
        ),
    decreases second.len(),
{
    assert(first.push(step).drop_last() =~= first);
    if second.len() == 0 {
        assert(first + second =~= first);
    } else {
        replay_goes_in_order::<E>(start, first, second.drop_last(), step);
        assert((first + second).drop_last() =~= first + second.drop_last());
        assert((first + second).last() == second.last());
    }
}

/// Every entry of a recording is one step: what was read from its payload, and,
/// where an event was read and the entry is not marked external, what that event
/// was written as again.
pub proof fn every_entry_is_a_step<V, F: Fn(&[u8]) -> Option<V>, G: Fn(&V) -> Vec<u8>>(
    decode: F,
    re_encode: G,
    entries: Seq<ReprView>,
    steps: Seq<Step<V>>,
    i: int,
)
    requires
        steps_of(decode, re_encode, entries, steps),
        0 <= i < entries.len(),
    ensures
        steps.len() == entries.len(),
        exists|b: &[u8]|
            b@ == entries[i].payload && #[trigger] call_ensures(decode, (b,), steps[i].event),
        steps[i].event is Some && kind_of_tags(entries[i].tags) != Some(EntryKind::ExternalCommand)
            ==> exists|v: Vec<u8>|
            v@ == steps[i].bytes && #[trigger] call_ensures(re_encode, (&steps[i].event->0,), v),
{
    assert(reads(decode, entries[i].payload, steps[i].event));
}

/// A replay matches exactly if an event was read from every entry, and every
/// entry that is not marked external came out with the bytes it was recorded
/// with.
pub proof fn replay_matches_what_was_recorded<V>(entries: Seq<ReprView>, steps: Seq<Step<V>>)
    requires
        steps.len() == entries.len(),
    ensures
        all_match(entries, steps) <==> forall|i: int|
            #![trigger steps[i]]
            0 <= i < steps.len() ==> {
                &&& steps[i].event is Some
                &&& kind_of_tags(entries[i].tags) == Some(EntryKind::ExternalCommand)
                    || steps[i].bytes == entries[i].payload
            },
{
    if all_match(entries, steps) {
        assert forall|i: int| #![trigger steps[i]] 0 <= i < steps.len() implies {
            &&& steps[i].event is Some
            &&& kind_of_tags(entries[i].tags) == Some(EntryKind::ExternalCommand)
                || steps[i].bytes == entries[i].payload
        } by {
            assert(step_matches(entries[i], steps[i]));
        }
    }
}

/// Of the tags of an entry the first that names a kind decides; where none does,
/// no kind is told.
pub proof fn first_telling_tag_decides(tags: Seq<Seq<char>>, i: int)
    ensures
        0 <= i < tags.len() && (tags[i] == "kind:external"@ || tags[i] == "kind:derived"@) && (
        forall|j: int|
            0 <= j < i ==> #[trigger] tags[j] != "kind:external"@ && tags[j] != "kind:derived"@)
            ==> kind_of_tags(tags) == Some(
            if tags[i] == "kind:external"@ {
                EntryKind::ExternalCommand
            } else {
                EntryKind::DerivedEvent
            },
        ),
        (forall|j: int|
            0 <= j < tags.len() ==> #[trigger] tags[j] != "kind:external"@ && tags[j]
                != "kind:derived"@) <==> kind_of_tags(tags) is None,
        tag_of(EntryKind::ExternalCommand) == "kind:external"@,
        tag_of(EntryKind::DerivedEvent) == "kind:derived"@,
    decreases tags.len(),
{
    if tags.len() > 0 {
        let rest = tags.drop_first();
        first_telling_tag_decides(rest, i - 1);
        if forall|j: int|
            0 <= j < rest.len() ==> #[trigger] rest[j] != "kind:external"@ && rest[j]
                != "kind:derived"@ {
            assert forall|j: int|
                0 <= j < tags.len() && kind_of_tag(tags[0]) is None implies #[trigger] tags[j]
                != "kind:external"@ && tags[j] != "kind:derived"@ by {
                if j > 0 {
                    assert(tags[j] == rest[j - 1]);
                }
            }
        } else {
            let j = choose|j: int|
                0 <= j < rest.len() && (#[trigger] rest[j] == "kind:external"@ || rest[j]
                    == "kind:derived"@);
            assert(tags[j + 1] == rest[j]);
        }
        if 0 < i < tags.len() && (forall|j: int|
            0 <= j < i ==> #[trigger] tags[j] != "kind:external"@ && tags[j] != "kind:derived"@) {
            assert(tags[i] == rest[i - 1]);
            assert(tags[0] != "kind:external"@ && tags[0] != "kind:derived"@);
            assert forall|j: int| 0 <= j < i - 1 implies #[trigger] rest[j] != "kind:external"@
                && rest[j] != "kind:derived"@ by {
                assert(rest[j] == tags[j + 1]);
            }
        }
    }
}

proof fn lemma_same_events_same_state<E: Eventsourced>(
    start: E::State,
    first: Seq<Step<E::Event>>,
    second: Seq<Step<E::Event>>,
)
    requires
        first.len() == second.len(),
        forall|i: int| 0 <= i < first.len() ==> (#[trigger] first[i]).event == second[i].event,
    ensures
        state_after::<E>(start, first) == state_after::<E>(start, second),
    decreases first.len(),
{
    if first.len() > 0 {
        assert forall|i: int| 0 <= i < first.len() - 1 implies (
        #[trigger] first.drop_last()[i]).event == second.drop_last()[i].event by {
            assert(first[i].event == second[i].event);
        }
        lemma_same_events_same_state::<E>(start, first.drop_last(), second.drop_last());
        assert(first[first.len() - 1].event == second[second.len() - 1].event);
    }
}

} // verus!
