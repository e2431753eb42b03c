use atomr::persistence::{
    with_kind, Effect, EffectKind, EntryKind, Eventsourced, PersistentRepr, ReplayHarness, RngState,
    SeededRng,
};
use rand_chacha::rand_core::{RngCore, SeedableRng};

fn draws(rng: &mut SeededRng, n: usize) -> Vec<u64> {
    (0..n).map(|_| rng.next_u64()).collect()
}

#[test]
fn snapshot_restore_reproduces_identical_draws() {
    let mut rng = SeededRng::from_seed(42);
    let _ = rng.next_u64();
    let _ = rng.next_u64();
    let snap = rng.snapshot();
    let expected = draws(&mut rng, 8);
    let mut restored = SeededRng::restore(snap);
    assert_eq!(expected, draws(&mut restored, 8));
}

#[test]
fn same_seed_same_sequence() {
    let mut a = SeededRng::from_seed(7);
    let mut b = SeededRng::from_seed(7);
    for _ in 0..32 {
        assert_eq!(a.next_u64(), b.next_u64());
    }
}

#[test]
fn split_yields_independent_streams() {
    let mut parent = SeededRng::from_seed(99);
    let before = parent.snapshot();
    let mut child = parent.split();
    let after = parent.snapshot();
    assert_eq!(before.word_pos, after.word_pos, "split must not advance parent");
    assert_ne!(draws(&mut child, 16), draws(&mut parent, 16));

    let mut p2 = SeededRng::from_seed(99);
    let mut c1 = p2.split();
    let mut c2 = p2.split();
    assert_ne!(draws(&mut c1, 8), draws(&mut c2, 8));
}

#[test]
fn draws_are_those_of_the_key_stream() {
    let mut reference = rand_chacha::ChaCha20Rng::seed_from_u64(42);
    let mut rng = SeededRng::from_seed(42);
    for _ in 0..100 {
        assert_eq!(rng.next_u64(), reference.next_u64());
    }
    let snap = rng.snapshot();
    assert_eq!(snap.seed, reference.get_seed());
    assert_eq!(snap.word_pos, reference.get_word_pos());
    assert_eq!(snap.word_pos, 200);
}

#[test]
fn positions_count_modulo_the_period() {
    let end: u128 = 1 << 68;
    let state = RngState { seed: [7; 32], stream: 3, word_pos: end - 2 };
    let mut a = SeededRng::restore(state);
    let _ = a.next_u64();
    assert_eq!(a.snapshot().word_pos, 0);
    let mut b = SeededRng::restore(RngState { seed: [7; 32], stream: 3, word_pos: end });
    assert_eq!(a.next_u64(), b.next_u64());
    let mut odd = SeededRng::restore(RngState { seed: [7; 32], stream: 3, word_pos: 63 });
    let _ = odd.next_u64();
    assert_eq!(odd.snapshot().word_pos, 65);
}

#[test]
fn entry_kind_tag_round_trips() {
    assert_eq!(
        EntryKind::from_tags(&[EntryKind::ExternalCommand.tag()]),
        Some(EntryKind::ExternalCommand)
    );
    assert_eq!(
        EntryKind::from_tags(&[EntryKind::DerivedEvent.tag()]),
        Some(EntryKind::DerivedEvent)
    );
    assert_eq!(EntryKind::from_tags(&["unrelated".to_string()]), None);
    assert_eq!(EntryKind::from_tags(&[]), None);
    let r = PersistentRepr { tags: vec!["existing".into()], ..Default::default() };
    let r = with_kind(r, EntryKind::DerivedEvent);
    assert!(r.tags.iter().any(|t| t == "existing"));
    assert_eq!(EntryKind::from_tags(&r.tags), Some(EntryKind::DerivedEvent));
}

#[derive(Default, Debug, PartialEq, Clone)]
struct SumState {
    total: i64,
    applied: u64,
}

#[derive(Clone, Debug)]
struct Delta(i64);

struct SumAgg;

impl Eventsourced for SumAgg {
    type Event = Delta;
    type State = SumState;
    fn apply_event(state: &mut SumState, e: &Delta) {
        state.total += e.0;
        state.applied += 1;
    }
}

fn decode(b: &[u8]) -> Option<Delta> {
    let mut buf = [0u8; 8];
    if b.len() != 8 {
        return None;
    }
    buf.copy_from_slice(b);
    Some(Delta(i64::from_le_bytes(buf)))
}

fn encode(e: &Delta) -> Vec<u8> {
    e.0.to_le_bytes().to_vec()
}

fn delta_repr(n: i64, kind: EntryKind) -> PersistentRepr {
    with_kind(PersistentRepr { payload: n.to_le_bytes().to_vec(), ..Default::default() }, kind)
}

#[test]
fn replay_yields_identical_state_twice() {
    let snap = SeededRng::from_seed(5).snapshot();
    let recorded = vec![
        delta_repr(10, EntryKind::ExternalCommand),
        delta_repr(5, EntryKind::DerivedEvent),
        delta_repr(-3, EntryKind::DerivedEvent),
    ];
    let mut s1 = SumState::default();
    let r1 = ReplayHarness::replay::<SumAgg, _, _>(snap, &mut s1, &recorded, decode, encode);
    let mut s2 = SumState::default();
    let r2 = ReplayHarness::replay::<SumAgg, _, _>(snap, &mut s2, &recorded, decode, encode);
    assert_eq!(s1, s2, "two replays from same seed+snapshot must be bit-identical");
    assert_eq!(s1.total, 12);
    assert_eq!(s1.applied, 3);
    assert_eq!(r1, r2);
    assert!(r1.matched);
    assert_eq!(r1.events, 3);
}

#[test]
fn replay_detects_derived_mismatch() {
    let snap = SeededRng::from_seed(1).snapshot();
    let recorded = vec![delta_repr(10, EntryKind::DerivedEvent)];
    let re_encode = |_e: &Delta| 999i64.to_le_bytes().to_vec();
    let mut s = SumState::default();
    let r = ReplayHarness::replay::<SumAgg, _, _>(snap, &mut s, &recorded, decode, re_encode);
    assert!(!r.matched);
}

#[test]
fn external_entries_are_not_compared() {
    let snap = SeededRng::from_seed(1).snapshot();
    let recorded = vec![delta_repr(10, EntryKind::ExternalCommand)];
    let re_encode = |_e: &Delta| Vec::new();
    let mut s = SumState::default();
    let r = ReplayHarness::replay::<SumAgg, _, _>(snap, &mut s, &recorded, decode, re_encode);
    assert!(r.matched);
    assert_eq!(s.total, 10);
}

#[test]
fn unreadable_entries_are_reported_and_skipped() {
    let snap = SeededRng::from_seed(1).snapshot();
    let recorded = vec![
        PersistentRepr { payload: vec![1, 2], ..Default::default() },
        delta_repr(4, EntryKind::DerivedEvent),
    ];
    let mut s = SumState::default();
    let r = ReplayHarness::replay::<SumAgg, _, _>(snap, &mut s, &recorded, decode, encode);
    assert_eq!(r.events, 2);
    assert!(!r.matched);
    assert_eq!(s.applied, 1);
    assert_eq!(s.total, 4);
}

#[test]
fn effects_describe_themselves() {
    let e = Effect::persist(1u8);
    assert_eq!(e.kind, EffectKind::Persist);
    assert_eq!(e.events, Some(vec![1]));
    assert_eq!(e.describe(), "Effect(kind=persist, every=None, has_reply=false, has_events=true)");
    let s: Effect<u8> = Effect::snapshot(Some(10));
    assert_eq!(
        s.describe(),
        "Effect(kind=snapshot, every=Some(10), has_reply=false, has_events=false)"
    );
    assert_eq!(Effect::reply_message(3u8).reply, Some(3));
    assert_eq!(Effect::<u8>::stop().kind.name(), "stop");
    assert_eq!(Effect::<u8>::none().kind.name(), "none");
    assert_eq!(Effect::persist_all(vec![1u8, 2]).events, Some(vec![1, 2]));
}

#[test]
fn splits_are_counted() {
    let mut rng = SeededRng::from_seed(3);
    assert_eq!(rng.split_count(), 0);
    let child = rng.split();
    let _ = rng.split();
    assert_eq!(rng.split_count(), 2);
    assert_eq!(child.split_count(), 0);
}
