//! Telemetry events, and the topics by which subscribers choose among them.

use crate::text;
use vstd::prelude::*;

verus! {

/// An actor that was started.
#[derive(Debug, PartialEq, Eq)]
pub struct ActorStatus {
    pub path: String,
    pub parent: Option<String>,
    pub actor_type: String,
    pub mailbox_depth: u64,
    pub spawned_at: String,
    pub host: Option<String>,
}

/// A message that reached no one.
#[derive(Debug, PartialEq, Eq)]
pub struct DeadLetterRecord {
    pub seq: u64,
    pub recipient: String,
    pub sender: Option<String>,
    pub message_type: String,
    pub message_preview: String,
    pub timestamp: String,
}

/// Named details of a change.
#[derive(Debug, PartialEq, Eq)]
pub struct Details {
    pub entries: Vec<(String, String)>,
}

/// A telemetry event.
#[derive(Debug, PartialEq, Eq)]
pub enum TelemetryEvent {
    ActorSpawned(ActorStatus),
    ActorStopped { path: String },
    MailboxSampled { path: String, depth: u64 },
    DeadLetter(DeadLetterRecord),
    ClusterChanged(Details),
    ShardingChanged(Details),
    JournalWrite(Details),
    RemoteAssociation(Details),
    StreamsGraphStarted { id: u64, name: String },
    StreamsGraphFinished { id: u64 },
    DDataUpdated { key: String },
}

/// The topic of an event.
pub open spec fn topic_of(event: TelemetryEvent) -> Seq<char> {
    match event {
        TelemetryEvent::ActorSpawned(_) => "actors"@,
        TelemetryEvent::ActorStopped { .. } => "actors"@,
        TelemetryEvent::MailboxSampled { .. } => "actors"@,
        TelemetryEvent::DeadLetter(_) => "dead_letters"@,
        TelemetryEvent::ClusterChanged(_) => "cluster"@,
        TelemetryEvent::ShardingChanged(_) => "sharding"@,
        TelemetryEvent::JournalWrite(_) => "persistence"@,
        TelemetryEvent::RemoteAssociation(_) => "remote"@,
        TelemetryEvent::StreamsGraphStarted { .. } => "streams"@,
        TelemetryEvent::StreamsGraphFinished { .. } => "streams"@,
        TelemetryEvent::DDataUpdated { .. } => "ddata"@,
    }
}

/// All topics.
pub open spec fn topics() -> Seq<Seq<char>> {
    seq![
        "actors"@,
        "dead_letters"@,
        "cluster"@,
        "sharding"@,
        "persistence"@,
        "remote"@,
        "streams"@,
        "ddata"@,
    ]
}

/// The characters of a list of texts.
pub open spec fn texts(v: Seq<&'static str>) -> Seq<Seq<char>> {
    v.map_values(|s: &'static str| s@)
}

impl TelemetryEvent {
    /// The topic of the event: a short name that does not change.
    pub fn topic(&self) -> (r: &'static str)
        ensures
            r@ == topic_of(*self),
    {
        match self {
            TelemetryEvent::ActorSpawned(_) => "actors",
            TelemetryEvent::ActorStopped { .. } => "actors",
            TelemetryEvent::MailboxSampled { .. } => "actors",
            TelemetryEvent::DeadLetter(_) => "dead_letters",
            TelemetryEvent::ClusterChanged(_) => "cluster",
            TelemetryEvent::ShardingChanged(_) => "sharding",
            TelemetryEvent::JournalWrite(_) => "persistence",
            TelemetryEvent::RemoteAssociation(_) => "remote",
            TelemetryEvent::StreamsGraphStarted { .. } => "streams",
            TelemetryEvent::StreamsGraphFinished { .. } => "streams",
            TelemetryEvent::DDataUpdated { .. } => "ddata",
        }
    }

    /// All topics.
    pub fn all_topics() -> (r: Vec<&'static str>)
        ensures
            texts(r@) == topics(),
    {
        let r: Vec<&'static str> = vec![
            "actors",
            "dead_letters",
            "cluster",
            "sharding",
            "persistence",
            "remote",
            "streams",
            "ddata",
        ];
        assert(texts(r@) =~= topics());
        r
    }

    /// Whether a subscriber of the topic `wanted` gets the event.
    pub fn is_wanted(&self, wanted: &str) -> (r: bool)
        ensures
            r == (topic_of(*self) == wanted@),
    {
        text::same_text(self.topic(), wanted)
    }
}

/// The smallest number of events that a bus holds for a slow subscriber.
pub const MIN_CAPACITY: usize = 16;

/// The number of events that a bus holds for a slow subscriber, where `capacity`
/// is asked for.
pub fn bus_capacity(capacity: usize) -> (r: usize)
    ensures
        r == if capacity < MIN_CAPACITY {
            MIN_CAPACITY
        } else {
            capacity
        },
{
    if capacity < MIN_CAPACITY {
        MIN_CAPACITY
    } else {
        capacity
    }
}

/// Every event has a topic that is listed.
pub proof fn every_topic_is_listed(event: TelemetryEvent)
    ensures
        topics().contains(topic_of(event)),
{
    let all = topics();
    assert(all[0] == "actors"@ && all[1] == "dead_letters"@ && all[2] == "cluster"@ && all[3]
        == "sharding"@ && all[4] == "persistence"@ && all[5] == "remote"@ && all[6] == "streams"@
        && all[7] == "ddata"@);
}

/// No topic is listed twice.
pub proof fn topics_are_distinct()
    ensures
        topics().no_duplicates(),
{
    reveal_strlit("actors");
    reveal_strlit("dead_letters");
    reveal_strlit("cluster");
    reveal_strlit("sharding");
    reveal_strlit("persistence");
    reveal_strlit("remote");
    reveal_strlit("streams");
    reveal_strlit("ddata");
    let all = topics();
    assert("actors"@[0] == 'a' && "dead_letters"@[0] == 'd' && "cluster"@[0] == 'c'
        && "sharding"@[0] == 's' && "persistence"@[0] == 'p' && "remote"@[0] == 'r'
        && "streams"@[0] == 's' && "ddata"@[0] == 'd');
    assert("sharding"@[1] == 'h' && "streams"@[1] == 't');
    assert("dead_letters"@[1] == 'e' && "ddata"@[1] == 'd');
}

/// Every event stands under the topic of what it is about, and a topic holds no
/// other event: the life and the mailboxes of actors, dead letters, the cluster,
/// sharding, the journal, remote associations, stream graphs, and replicated data.
pub proof fn topics_say_what_events_are_about(event: TelemetryEvent)
    ensures
        topic_of(event) == "actors"@ <==> event is ActorSpawned || event is ActorStopped || event
            is MailboxSampled,
        topic_of(event) == "dead_letters"@ <==> event is DeadLetter,
        topic_of(event) == "cluster"@ <==> event is ClusterChanged,
        topic_of(event) == "sharding"@ <==> event is ShardingChanged,
        topic_of(event) == "persistence"@ <==> event is JournalWrite,
        topic_of(event) == "remote"@ <==> event is RemoteAssociation,
        topic_of(event) == "streams"@ <==> event is StreamsGraphStarted || event
            is StreamsGraphFinished,
        topic_of(event) == "ddata"@ <==> event is DDataUpdated,
        topics().len() == 8,
        MIN_CAPACITY == 16,
{
    topics_are_distinct();
    let all = topics();
    assert(all[0] == "actors"@ && all[1] == "dead_letters"@ && all[2] == "cluster"@ && all[3]
        == "sharding"@ && all[4] == "persistence"@ && all[5] == "remote"@ && all[6] == "streams"@
        && all[7] == "ddata"@);
}

} // verus!
