//! Where spans are exported to, and what describes the process that they come
//! from.

use crate::text;
use vstd::prelude::*;

verus! {

/// The configuration of an exporter.
#[derive(Debug, PartialEq, Eq)]
pub struct OtlpConfig {
    pub enabled: bool,
    pub endpoint: String,
    pub protocol: String,
    pub service_name: Option<String>,
    pub interval_secs: u64,
    pub headers: Vec<(String, String)>,
    pub resource_attributes: Vec<(String, String)>,
    pub traces: bool,
    pub stdout: bool,
}

/// How spans leave the process.
#[derive(Debug, Clone, Copy, PartialEq, Eq, Structural)]
pub enum Transport {
    Stdout,
    Grpc,
    Http,
}

/// The transport of a protocol name.
pub open spec fn protocol_named(s: Seq<char>) -> Option<Transport> {
    if s == "grpc"@ {
        Some(Transport::Grpc)
    } else if s == "http"@ {
        Some(Transport::Http)
    } else {
        None
    }
}

/// Why there is no transport for a protocol name.
pub open spec fn unsupported(s: Seq<char>) -> Seq<char> {
    "unsupported or un-enabled OTLP protocol `"@ + s + "`; enable the matching cargo feature"@
}

/// The pairs of texts of a list.
pub open spec fn pair_texts(v: Seq<(String, String)>) -> Seq<(Seq<char>, Seq<char>)> {
    v.map_values(|p: (String, String)| (p.0@, p.1@))
}

/// The attributes of the process `node`: the service, the node, and the
/// configured attributes behind them.
pub open spec fn attributes_of(config: OtlpConfig, node: Seq<char>) -> Seq<(Seq<char>, Seq<char>)> {
    let service = match config.service_name {
        Some(s) => s@,
        None => "atomr"@,
    };
    seq![("service.name"@, service), ("service.instance.id"@, node)] + pair_texts(
        config.resource_attributes@,
    )
}

impl OtlpConfig {
    /// The transport to export by, or why there is none.
    pub fn transport(&self) -> (r: Result<Transport, String>)
        ensures
            self.stdout ==> r == Ok::<Transport, String>(Transport::Stdout),
            !self.stdout ==> match protocol_named(self.protocol@) {
                Some(t) => r == Ok::<Transport, String>(t),
                None => r is Err && r->Err_0@ == unsupported(self.protocol@),
            },
    {
        if self.stdout {
            return Ok(Transport::Stdout);
        }
        if text::same_text(self.protocol.as_str(), "grpc") {
            Ok(Transport::Grpc)
        } else if text::same_text(self.protocol.as_str(), "http") {
            Ok(Transport::Http)
        } else {
            let mut message: String = "unsupported or un-enabled OTLP protocol `".to_string();
            message.append(self.protocol.as_str());
            message.append("`; enable the matching cargo feature");
            Err(message)
        }
    }

    /// The attributes of the process `node`.
    pub fn resource(&self, node: &str) -> (r: Vec<(String, String)>)
        ensures
            pair_texts(r@) == attributes_of(*self, node@),
    {
        let service: String = match &self.service_name {
            Some(s) => s.as_str().to_string(),
            None => "atomr".to_string(),
        };
        let mut r: Vec<(String, String)> = Vec::new();
        r.push(("service.name".to_string(), service));
        r.push(("service.instance.id".to_string(), node.to_string()));
        let ghost head = pair_texts(r@);
        let ghost more = pair_texts(self.resource_attributes@);
        let mut i: usize = 0;
        assert(head + more.take(0) =~= head);
        while i < self.resource_attributes.len()
            invariant
                i <= self.resource_attributes.len(),
                more == pair_texts(self.resource_attributes@),
                pair_texts(r@) == head + more.take(i as int),
            decreases self.resource_attributes.len() - i,
        {
            let entry: &(String, String) = &self.resource_attributes[i];
            let ghost before = r@;
            r.push((entry.0.as_str().to_string(), entry.1.as_str().to_string()));
            i = i + 1;
            assert(pair_texts(r@) =~= pair_texts(before).push(more[i - 1]));
            assert(head + more.take(i as int) =~= (head + more.take(i - 1)).push(more[i - 1]));
        }
        assert(more.take(i as int) =~= more);
        assert(pair_texts(r@) =~= attributes_of(*self, node@));
        r
    }
}

/// Two names stand for a transport, each for its own; no other does.
pub proof fn protocols_have_their_names(s: Seq<char>)
    ensures
        protocol_named(s) == Some(Transport::Grpc) <==> s == "grpc"@,
        protocol_named(s) == Some(Transport::Http) <==> s == "http"@,
        protocol_named(s) != Some(Transport::Stdout),
{
    reveal_strlit("grpc");
    reveal_strlit("http");
    assert("grpc"@[0] == 'g' && "http"@[0] == 'h');
}

/// A process is described by its service first (by default `atomr`), then by its
/// node, then by the configured attributes in their order.
pub proof fn attributes_come_in_order(config: OtlpConfig, node: Seq<char>, i: int)
    requires
        0 <= i < config.resource_attributes@.len(),
    ensures
        ({
            let all = attributes_of(config, node);
            &&& all.len() == config.resource_attributes@.len() + 2
            &&& all[0] == ("service.name"@, match config.service_name {
                Some(s) => s@,
                None => "atomr"@,
            })
            &&& all[1] == ("service.instance.id"@, node)
            &&& all[i + 2] == (
                config.resource_attributes@[i].0@,
                config.resource_attributes@[i].1@,
            )
        }),
{
}

} // verus!
