//! Messages about log collection: a new list of log watchers, and a count report.
use vstd::prelude::*;

use crate::collecter::collecter::{log_watchers_json, log_watchers_to_json, LogWatcher};
use crate::utils::json::{
    decimal, json_number_of, json_object, json_object_of, json_string, json_string_of,
    lemma_decimal_prefix, lemma_json_object_two_then, lemma_json_object_slot,
    lemma_string_members_prefix, lemma_strip_prefix, members_text, string_members,
};

verus! {

/// Replaces the stored list of log watchers under `key`.
#[derive(Debug, Default)]
pub struct UpdateCollecter {
    pub key: String,
    pub value: Vec<LogWatcher>,
}

/// How often a watch key's label was counted, with where and when.
#[derive(Debug, Default)]
pub struct CollectReport {
    pub time: u64,
    pub count: u64,
    pub system: String,
    pub env: String,
    pub cluster: String,
    pub ip: String,
    pub count_type: String,
}

/// The JSON text of an `UpdateCollecter`, as serde_json writes the struct.
pub open spec fn update_collecter_json(u: UpdateCollecter) -> Seq<char> {
    json_object(seq![("key"@, json_string(u.key@)), ("value"@, log_watchers_json(u.value@))])
}

/// The JSON text of a `CollectReport`, as serde_json writes the struct.
pub open spec fn collect_report_json(c: CollectReport) -> Seq<char> {
    json_object(
        seq![
            ("time"@, decimal(c.time as nat)),
            ("count"@, decimal(c.count as nat)),
            ("system"@, json_string(c.system@)),
            ("env"@, json_string(c.env@)),
            ("cluster"@, json_string(c.cluster@)),
            ("ip"@, json_string(c.ip@)),
            ("count_type"@, json_string(c.count_type@)),
        ],
    )
}

/// Law: every field of a report is written, whatever its value, in a place of its own: the text is some `p`, the field's value, some `s`, and the report with another value in that field is written `p`, the other value, `s`.
pub proof fn lemma_collect_report_json_slots(c: CollectReport, n: u64, e: String)
    ensures
        exists|p: Seq<char>, s: Seq<char>|
            collect_report_json(c) == p + decimal(c.time as nat) + s && collect_report_json(CollectReport { time: n, ..c }) == p + decimal(n as nat) + s,
        exists|p: Seq<char>, s: Seq<char>|
            collect_report_json(c) == p + decimal(c.count as nat) + s && collect_report_json(CollectReport { count: n, ..c }) == p + decimal(n as nat) + s,
        exists|p: Seq<char>, s: Seq<char>|
            collect_report_json(c) == p + json_string(c.system@) + s && collect_report_json(CollectReport { system: e, ..c }) == p + json_string(e@) + s,
        exists|p: Seq<char>, s: Seq<char>|
            collect_report_json(c) == p + json_string(c.env@) + s && collect_report_json(CollectReport { env: e, ..c }) == p + json_string(e@) + s,
        exists|p: Seq<char>, s: Seq<char>|
            collect_report_json(c) == p + json_string(c.cluster@) + s && collect_report_json(CollectReport { cluster: e, ..c }) == p + json_string(e@) + s,
        exists|p: Seq<char>, s: Seq<char>|
            collect_report_json(c) == p + json_string(c.ip@) + s && collect_report_json(CollectReport { ip: e, ..c }) == p + json_string(e@) + s,
        exists|p: Seq<char>, s: Seq<char>|
            collect_report_json(c) == p + json_string(c.count_type@) + s && collect_report_json(CollectReport { count_type: e, ..c }) == p + json_string(e@) + s,
{
    let f = seq![("time"@, decimal(c.time as nat)), ("count"@, decimal(c.count as nat)), ("system"@, json_string(c.system@)), ("env"@, json_string(c.env@)), ("cluster"@, json_string(c.cluster@)), ("ip"@, json_string(c.ip@)), ("count_type"@, json_string(c.count_type@))];
    lemma_json_object_slot(f, 0, decimal(n as nat));
    assert(f.update(0, (f[0].0, decimal(n as nat))) =~= seq![("time"@, decimal(n as nat)), ("count"@, decimal(c.count as nat)), ("system"@, json_string(c.system@)), ("env"@, json_string(c.env@)), ("cluster"@, json_string(c.cluster@)), ("ip"@, json_string(c.ip@)), ("count_type"@, json_string(c.count_type@))]);
    lemma_json_object_slot(f, 1, decimal(n as nat));
    assert(f.update(1, (f[1].0, decimal(n as nat))) =~= seq![("time"@, decimal(c.time as nat)), ("count"@, decimal(n as nat)), ("system"@, json_string(c.system@)), ("env"@, json_string(c.env@)), ("cluster"@, json_string(c.cluster@)), ("ip"@, json_string(c.ip@)), ("count_type"@, json_string(c.count_type@))]);
    lemma_json_object_slot(f, 2, json_string(e@));
    assert(f.update(2, (f[2].0, json_string(e@))) =~= seq![("time"@, decimal(c.time as nat)), ("count"@, decimal(c.count as nat)), ("system"@, json_string(e@)), ("env"@, json_string(c.env@)), ("cluster"@, json_string(c.cluster@)), ("ip"@, json_string(c.ip@)), ("count_type"@, json_string(c.count_type@))]);
    lemma_json_object_slot(f, 3, json_string(e@));
    assert(f.update(3, (f[3].0, json_string(e@))) =~= seq![("time"@, decimal(c.time as nat)), ("count"@, decimal(c.count as nat)), ("system"@, json_string(c.system@)), ("env"@, json_string(e@)), ("cluster"@, json_string(c.cluster@)), ("ip"@, json_string(c.ip@)), ("count_type"@, json_string(c.count_type@))]);
    lemma_json_object_slot(f, 4, json_string(e@));
    assert(f.update(4, (f[4].0, json_string(e@))) =~= seq![("time"@, decimal(c.time as nat)), ("count"@, decimal(c.count as nat)), ("system"@, json_string(c.system@)), ("env"@, json_string(c.env@)), ("cluster"@, json_string(e@)), ("ip"@, json_string(c.ip@)), ("count_type"@, json_string(c.count_type@))]);
    lemma_json_object_slot(f, 5, json_string(e@));
    assert(f.update(5, (f[5].0, json_string(e@))) =~= seq![("time"@, decimal(c.time as nat)), ("count"@, decimal(c.count as nat)), ("system"@, json_string(c.system@)), ("env"@, json_string(c.env@)), ("cluster"@, json_string(c.cluster@)), ("ip"@, json_string(e@)), ("count_type"@, json_string(c.count_type@))]);
    lemma_json_object_slot(f, 6, json_string(e@));
    assert(f.update(6, (f[6].0, json_string(e@))) =~= seq![("time"@, decimal(c.time as nat)), ("count"@, decimal(c.count as nat)), ("system"@, json_string(c.system@)), ("env"@, json_string(c.env@)), ("cluster"@, json_string(c.cluster@)), ("ip"@, json_string(c.ip@)), ("count_type"@, json_string(e@))]);
}

/// The names of a report's string fields, in the order they are written.
spec fn report_string_keys() -> Seq<Seq<char>> {
    seq!["system"@, "env"@, "cluster"@, "ip"@, "count_type"@]
}

/// A report's string fields, in the order they are written.
spec fn report_string_values(c: CollectReport) -> Seq<Seq<char>> {
    seq![c.system@, c.env@, c.cluster@, c.ip@, c.count_type@]
}

/// The text of a report, cut where its two numbers and its string members stand.
proof fn lemma_collect_report_json_parts(c: CollectReport)
    ensures
        collect_report_json(c) == (seq!['{'] + json_string("time"@) + seq![':']) + (decimal(c.time as nat) + (
        (seq![','] + json_string("count"@) + seq![':']) + (decimal(c.count as nat) + (seq![','] + (members_text(
            string_members(report_string_keys(), report_string_values(c)),
        ) + seq!['}']))))),
{
    let r = string_members(report_string_keys(), report_string_values(c));
    let f0 = ("time"@, decimal(c.time as nat));
    let f1 = ("count"@, decimal(c.count as nat));
    assert(seq![f0, f1] + r =~= seq![
        ("time"@, decimal(c.time as nat)),
        ("count"@, decimal(c.count as nat)),
        ("system"@, json_string(c.system@)),
        ("env"@, json_string(c.env@)),
        ("cluster"@, json_string(c.cluster@)),
        ("ip"@, json_string(c.ip@)),
        ("count_type"@, json_string(c.count_type@)),
    ]);
    lemma_json_object_two_then(f0, f1, r);
    assert(collect_report_json(c) =~= (seq!['{'] + json_string("time"@) + seq![':']) + (decimal(c.time as nat) + (
    (seq![','] + json_string("count"@) + seq![':']) + (decimal(c.count as nat) + (seq![','] + (members_text(r)
        + seq!['}']))))));
}

/// Law: the JSON text of a report determines it: two reports written alike
/// agree on every field (so no field, `env` among them, is left out or
/// written as something else, whatever its value).
pub proof fn lemma_collect_report_json_determines(a: CollectReport, b: CollectReport)
    requires
        collect_report_json(a) == collect_report_json(b),
    ensures
        a.time == b.time,
        a.count == b.count,
        a.system@ == b.system@,
        a.env@ == b.env@,
        a.cluster@ == b.cluster@,
        a.ip@ == b.ip@,
        a.count_type@ == b.count_type@,
{
    let keys = report_string_keys();
    let va = report_string_values(a);
    let vb = report_string_values(b);
    let ra = members_text(string_members(keys, va));
    let rb = members_text(string_members(keys, vb));
    let sep = seq![','];
    let close = seq!['}'];
    let kt = seq!['{'] + json_string("time"@) + seq![':'];
    let kc = seq![','] + json_string("count"@) + seq![':'];
    let ta = sep + (ra + close);
    let tb = sep + (rb + close);
    let ua = kc + (decimal(a.count as nat) + ta);
    let ub = kc + (decimal(b.count as nat) + tb);
    lemma_collect_report_json_parts(a);
    lemma_collect_report_json_parts(b);
    lemma_strip_prefix(kt, decimal(a.time as nat) + ua, decimal(b.time as nat) + ub);
    lemma_decimal_prefix(a.time as nat, b.time as nat, ua, ub);
    lemma_strip_prefix(kc, decimal(a.count as nat) + ta, decimal(b.count as nat) + tb);
    lemma_decimal_prefix(a.count as nat, b.count as nat, ta, tb);
    lemma_strip_prefix(sep, ra + close, rb + close);
    lemma_string_members_prefix(keys, va, vb, close, close);
    assert(va[0] == vb[0] && va[1] == vb[1] && va[2] == vb[2] && va[3] == vb[3] && va[4] == vb[4]);
}

/// Law: the key and the list of watchers of an `UpdateCollecter` are each written in a place of their own, whatever their values.
pub proof fn lemma_update_collecter_json_slots(c: UpdateCollecter, e: String, ws: Vec<LogWatcher>)
    ensures
        exists|p: Seq<char>, s: Seq<char>|
            update_collecter_json(c) == p + json_string(c.key@) + s && update_collecter_json(UpdateCollecter { key: e, ..c }) == p + json_string(e@) + s,
        exists|p: Seq<char>, s: Seq<char>|
            update_collecter_json(c) == p + log_watchers_json(c.value@) + s && update_collecter_json(UpdateCollecter { value: ws, ..c }) == p + log_watchers_json(ws@) + s,
{
    let f = seq![("key"@, json_string(c.key@)), ("value"@, log_watchers_json(c.value@))];
    lemma_json_object_slot(f, 0, json_string(e@));
    assert(f.update(0, (f[0].0, json_string(e@))) =~= seq![("key"@, json_string(e@)), ("value"@, log_watchers_json(c.value@))]);
    lemma_json_object_slot(f, 1, log_watchers_json(ws@));
    assert(f.update(1, (f[1].0, log_watchers_json(ws@))) =~= seq![("key"@, json_string(c.key@)), ("value"@, log_watchers_json(ws@))]);
}

impl UpdateCollecter {
    /// The JSON text of this message.
    pub fn to_json_string(&self) -> (r: String)
        ensures
            r@ == update_collecter_json(*self),
    {
        let fields = vec![("key", json_string_of(self.key.as_str())), ("value", log_watchers_to_json(&self.value))];
        let r = json_object_of(&fields);
        assert(fields@.map_values(|f: (&str, String)| (f.0@, f.1@)) =~= seq![
            ("key"@, json_string(self.key@)),
            ("value"@, log_watchers_json(self.value@)),
        ]);
        r
    }

    /// The JSON text of the list of log watchers alone.
    pub fn value_to_json_string(&self) -> (r: String)
        ensures
            r@ == log_watchers_json(self.value@),
    {
        log_watchers_to_json(&self.value)
    }
}

impl CollectReport {
    /// The JSON text of this report.
    pub fn to_json_string(&self) -> (r: String)
        ensures
            r@ == collect_report_json(*self),
    {
        let fields = vec![
            ("time", json_number_of(self.time)),
            ("count", json_number_of(self.count)),
            ("system", json_string_of(self.system.as_str())),
            ("env", json_string_of(self.env.as_str())),
            ("cluster", json_string_of(self.cluster.as_str())),
            ("ip", json_string_of(self.ip.as_str())),
            ("count_type", json_string_of(self.count_type.as_str())),
        ];
        let r = json_object_of(&fields);
        assert(fields@.map_values(|f: (&str, String)| (f.0@, f.1@)) =~= seq![
            ("time"@, decimal(self.time as nat)),
            ("count"@, decimal(self.count as nat)),
            ("system"@, json_string(self.system@)),
            ("env"@, json_string(self.env@)),
            ("cluster"@, json_string(self.cluster@)),
            ("ip"@, json_string(self.ip@)),
            ("count_type"@, json_string(self.count_type@)),
        ]);
        r
    }
}

} // verus!
