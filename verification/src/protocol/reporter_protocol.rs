//! The heartbeat the agent sends.
use vstd::prelude::*;

use crate::utils::json::{
    json_object, json_object_of, json_string, json_string_of, lemma_json_object_members, lemma_json_object_slot,
    lemma_string_members_prefix, lemma_strip_prefix, members_text, string_members,
};

verus! {

/// Says that the agent is alive, and where it runs.
#[derive(Debug, Default)]
pub struct Heartbeat {
    /// The message type.
    pub protocol_type: String,
    /// The server's IP address.
    pub ip: String,
    /// The agent's version.
    pub version: String,
    /// The name of the system it runs on.
    pub system: String,
    /// The group of that system.
    pub cluster: String,
    /// The environment of that system.
    pub env: String,
}

/// The JSON text of a `Heartbeat`, as serde_json writes the struct.
pub open spec fn heartbeat_json(h: Heartbeat) -> Seq<char> {
    json_object(
        seq![
            ("protocol_type"@, json_string(h.protocol_type@)),
            ("ip"@, json_string(h.ip@)),
            ("version"@, json_string(h.version@)),
            ("system"@, json_string(h.system@)),
            ("cluster"@, json_string(h.cluster@)),
            ("env"@, json_string(h.env@)),
        ],
    )
}

/// Law: the JSON text of a heartbeat determines it: two heartbeats written
/// alike agree on every field (so no field, the cluster among them, is left
/// out or written as something else).
pub proof fn lemma_heartbeat_json_determines(a: Heartbeat, b: Heartbeat)
    requires
        heartbeat_json(a) == heartbeat_json(b),
    ensures
        a.protocol_type@ == b.protocol_type@,
        a.ip@ == b.ip@,
        a.version@ == b.version@,
        a.system@ == b.system@,
        a.cluster@ == b.cluster@,
        a.env@ == b.env@,
{
    let keys = seq!["protocol_type"@, "ip"@, "version"@, "system"@, "cluster"@, "env"@];
    let va = seq![a.protocol_type@, a.ip@, a.version@, a.system@, a.cluster@, a.env@];
    let vb = seq![b.protocol_type@, b.ip@, b.version@, b.system@, b.cluster@, b.env@];
    let fa = string_members(keys, va);
    let fb = string_members(keys, vb);
    assert(fa =~= seq![
        ("protocol_type"@, json_string(a.protocol_type@)),
        ("ip"@, json_string(a.ip@)),
        ("version"@, json_string(a.version@)),
        ("system"@, json_string(a.system@)),
        ("cluster"@, json_string(a.cluster@)),
        ("env"@, json_string(a.env@)),
    ]);
    assert(fb =~= seq![
        ("protocol_type"@, json_string(b.protocol_type@)),
        ("ip"@, json_string(b.ip@)),
        ("version"@, json_string(b.version@)),
        ("system"@, json_string(b.system@)),
        ("cluster"@, json_string(b.cluster@)),
        ("env"@, json_string(b.env@)),
    ]);
    lemma_json_object_members(fa);
    lemma_json_object_members(fb);
    lemma_strip_prefix(seq!['{'], members_text(fa) + seq!['}'], members_text(fb) + seq!['}']);
    lemma_string_members_prefix(keys, va, vb, seq!['}'], seq!['}']);
    assert(va[0] == vb[0] && va[1] == vb[1] && va[2] == vb[2] && va[3] == vb[3] && va[4] == vb[4] && va[5] == vb[5]);
}

/// Law: every field of a heartbeat is written, whatever its value, in a place of its own: the text is some `p`, the field's value, some `s`, and the heartbeat with another value in that field is written `p`, the other value, `s`.
pub proof fn lemma_heartbeat_json_slots(c: Heartbeat, e: String)
    ensures
        exists|p: Seq<char>, s: Seq<char>|
            heartbeat_json(c) == p + json_string(c.protocol_type@) + s && heartbeat_json(Heartbeat { protocol_type: e, ..c }) == p + json_string(e@) + s,
        exists|p: Seq<char>, s: Seq<char>|
            heartbeat_json(c) == p + json_string(c.ip@) + s && heartbeat_json(Heartbeat { ip: e, ..c }) == p + json_string(e@) + s,
        exists|p: Seq<char>, s: Seq<char>|
            heartbeat_json(c) == p + json_string(c.version@) + s && heartbeat_json(Heartbeat { version: e, ..c }) == p + json_string(e@) + s,
        exists|p: Seq<char>, s: Seq<char>|
            heartbeat_json(c) == p + json_string(c.system@) + s && heartbeat_json(Heartbeat { system: e, ..c }) == p + json_string(e@) + s,
        exists|p: Seq<char>, s: Seq<char>|
            heartbeat_json(c) == p + json_string(c.cluster@) + s && heartbeat_json(Heartbeat { cluster: e, ..c }) == p + json_string(e@) + s,
        exists|p: Seq<char>, s: Seq<char>|
            heartbeat_json(c) == p + json_string(c.env@) + s && heartbeat_json(Heartbeat { env: e, ..c }) == p + json_string(e@) + s,
{
    let f = seq![("protocol_type"@, json_string(c.protocol_type@)), ("ip"@, json_string(c.ip@)), ("version"@, json_string(c.version@)), ("system"@, json_string(c.system@)), ("cluster"@, json_string(c.cluster@)), ("env"@, json_string(c.env@))];
    lemma_json_object_slot(f, 0, json_string(e@));
    assert(f.update(0, (f[0].0, json_string(e@))) =~= seq![("protocol_type"@, json_string(e@)), ("ip"@, json_string(c.ip@)), ("version"@, json_string(c.version@)), ("system"@, json_string(c.system@)), ("cluster"@, json_string(c.cluster@)), ("env"@, json_string(c.env@))]);
    lemma_json_object_slot(f, 1, json_string(e@));
    assert(f.update(1, (f[1].0, json_string(e@))) =~= seq![("protocol_type"@, json_string(c.protocol_type@)), ("ip"@, json_string(e@)), ("version"@, json_string(c.version@)), ("system"@, json_string(c.system@)), ("cluster"@, json_string(c.cluster@)), ("env"@, json_string(c.env@))]);
    lemma_json_object_slot(f, 2, json_string(e@));
    assert(f.update(2, (f[2].0, json_string(e@))) =~= seq![("protocol_type"@, json_string(c.protocol_type@)), ("ip"@, json_string(c.ip@)), ("version"@, json_string(e@)), ("system"@, json_string(c.system@)), ("cluster"@, json_string(c.cluster@)), ("env"@, json_string(c.env@))]);
    lemma_json_object_slot(f, 3, json_string(e@));
    assert(f.update(3, (f[3].0, json_string(e@))) =~= seq![("protocol_type"@, json_string(c.protocol_type@)), ("ip"@, json_string(c.ip@)), ("version"@, json_string(c.version@)), ("system"@, json_string(e@)), ("cluster"@, json_string(c.cluster@)), ("env"@, json_string(c.env@))]);
    lemma_json_object_slot(f, 4, json_string(e@));
    assert(f.update(4, (f[4].0, json_string(e@))) =~= seq![("protocol_type"@, json_string(c.protocol_type@)), ("ip"@, json_string(c.ip@)), ("version"@, json_string(c.version@)), ("system"@, json_string(c.system@)), ("cluster"@, json_string(e@)), ("env"@, json_string(c.env@))]);
    lemma_json_object_slot(f, 5, json_string(e@));
    assert(f.update(5, (f[5].0, json_string(e@))) =~= seq![("protocol_type"@, json_string(c.protocol_type@)), ("ip"@, json_string(c.ip@)), ("version"@, json_string(c.version@)), ("system"@, json_string(c.system@)), ("cluster"@, json_string(c.cluster@)), ("env"@, json_string(e@))]);
}

impl Heartbeat {
    /// The JSON text of this heartbeat.
    pub fn to_json_string(&self) -> (r: String)
        ensures
            r@ == heartbeat_json(*self),
    {
        let fields = vec![
            ("protocol_type", json_string_of(self.protocol_type.as_str())),
            ("ip", json_string_of(self.ip.as_str())),
            ("version", json_string_of(self.version.as_str())),
            ("system", json_string_of(self.system.as_str())),
            ("cluster", json_string_of(self.cluster.as_str())),
            ("env", json_string_of(self.env.as_str())),
        ];
        let r = json_object_of(&fields);
        assert(fields@.map_values(|f: (&str, String)| (f.0@, f.1@)) =~= seq![
            ("protocol_type"@, json_string(self.protocol_type@)),
            ("ip"@, json_string(self.ip@)),
            ("version"@, json_string(self.version@)),
            ("system"@, json_string(self.system@)),
            ("cluster"@, json_string(self.cluster@)),
            ("env"@, json_string(self.env@)),
        ]);
        r
    }
}

} // verus!
