//! What a command handler asks for.

use crate::text;
use vstd::prelude::*;

verus! {

/// The kind of an effect.
#[derive(Debug, Clone, Copy, PartialEq, Eq, Structural)]
pub enum EffectKind {
    /// Store events.
    Persist,
    /// Take a snapshot.
    Snapshot,
    /// Answer the sender.
    Reply,
    /// Stop after this command.
    Stop,
    /// Nothing.
    Nothing,
}

/// What a command handler asks for, with values of the type `V`.
pub struct Effect<V> {
    pub kind: EffectKind,
    /// The events to store.
    pub events: Option<Vec<V>>,
    /// How often to take a snapshot, in events; without a number, or with 0, now.
    pub every: Option<u64>,
    /// The answer.
    pub reply: Option<V>,
}

/// The name of a kind.
pub open spec fn kind_text(kind: EffectKind) -> Seq<char> {
    match kind {
        EffectKind::Persist => "persist"@,
        EffectKind::Snapshot => "snapshot"@,
        EffectKind::Reply => "reply"@,
        EffectKind::Stop => "stop"@,
        EffectKind::Nothing => "none"@,
    }
}

/// An optional number, written out.
pub open spec fn optional_text(n: Option<u64>) -> Seq<char> {
    match n {
        Some(n) => "Some("@ + text::decimal(n as nat) + ")"@,
        None => "None"@,
    }
}

/// A truth value, written out.
pub open spec fn bool_text(b: bool) -> Seq<char> {
    if b {
        "true"@
    } else {
        "false"@
    }
}

impl EffectKind {
    /// The name of the kind.
    pub fn name(self) -> (r: &'static str)
        ensures
            r@ == kind_text(self),
    {
        match self {
            EffectKind::Persist => "persist",
            EffectKind::Snapshot => "snapshot",
            EffectKind::Reply => "reply",
            EffectKind::Stop => "stop",
            EffectKind::Nothing => "none",
        }
    }
}

fn bool_name(b: bool) -> (r: &'static str)
    ensures
        r@ == bool_text(b),
{
    if b {
        "true"
    } else {
        "false"
    }
}

impl<V> Effect<V> {
    /// Store an event.
    pub fn persist(event: V) -> (r: Effect<V>)
        ensures
            r.kind == EffectKind::Persist,
            r.events is Some && r.events->0@ == seq![event],
            r.every is None,
            r.reply is None,
    {
        let mut events: Vec<V> = Vec::new();
        events.push(event);
        assert(events@ =~= seq![event]);
        Effect::persist_all(events)
    }

    /// Store several events at once.
    pub fn persist_all(events: Vec<V>) -> (r: Effect<V>)
        ensures
            r.kind == EffectKind::Persist,
            r.events == Some(events),
            r.every is None,
            r.reply is None,
    {
        Effect { kind: EffectKind::Persist, events: Some(events), every: None, reply: None }
    }

    /// Take a snapshot now, or from now on after every so many events.
    pub fn snapshot(every: Option<u64>) -> (r: Effect<V>)
        ensures
            r.kind == EffectKind::Snapshot,
            r.events is None,
            r.every == every,
            r.reply is None,
    {
        Effect { kind: EffectKind::Snapshot, events: None, every, reply: None }
    }

    /// Answer the sender of the command.
    pub fn reply_message(value: V) -> (r: Effect<V>)
        ensures
            r.kind == EffectKind::Reply,
            r.events is None,
            r.every is None,
            r.reply == Some(value),
    {
        Effect { kind: EffectKind::Reply, events: None, every: None, reply: Some(value) }
    }

    /// Stop after the command.
    pub fn stop() -> (r: Effect<V>)
        ensures
            r.kind == EffectKind::Stop,
            r.events is None,
            r.every is None,
            r.reply is None,
    {
        Effect { kind: EffectKind::Stop, events: None, every: None, reply: None }
    }

    /// Nothing.
    pub fn none() -> (r: Effect<V>)
        ensures
            r.kind == EffectKind::Nothing,
            r.events is None,
            r.every is None,
            r.reply is None,
    {
        Effect { kind: EffectKind::Nothing, events: None, every: None, reply: None }
    }

    /// The effect in a line, without its values.
    pub fn describe(&self) -> (r: String)
        ensures
            r@ == "Effect(kind="@ + kind_text(self.kind) + ", every="@ + optional_text(self.every)
                + ", has_reply="@ + bool_text(self.reply is Some) + ", has_events="@ + bool_text(
                self.events is Some,
            ) + ")"@,
    {
        let mut out: String = "Effect(kind=".to_string();
        out.append(self.kind.name());
        out.append(", every=");
        let every: String = match self.every {
            Some(n) => {
                let mut s: String = "Some(".to_string();
                s.append(text::decimal_text(n).as_str());
                s.append(")");
                s
            },
            None => "None".to_string(),
        };
        out.append(every.as_str());
        out.append(", has_reply=");
        out.append(bool_name(self.reply.is_some()));
        out.append(", has_events=");
        out.append(bool_name(self.events.is_some()));
        out.append(")");
        out
    }
}

/// Kinds, optional numbers and truth values are written as their names.
pub proof fn effects_are_written_by_name(kind: EffectKind, n: u64)
    ensures
        kind is Persist ==> kind_text(kind) == "persist"@,
        kind is Snapshot ==> kind_text(kind) == "snapshot"@,
        kind is Reply ==> kind_text(kind) == "reply"@,
        kind is Stop ==> kind_text(kind) == "stop"@,
        kind is Nothing ==> kind_text(kind) == "none"@,
        optional_text(None) == "None"@,
        optional_text(Some(n)) == "Some("@ + text::decimal(n as nat) + ")"@,
        bool_text(true) == "true"@,
        bool_text(false) == "false"@,
{
}

} // verus!
