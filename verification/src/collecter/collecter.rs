//! Watch keys, the files they are watched in, and counting the lines that match.
use vstd::prelude::*;

use crate::collecter::count_table::{count_or_zero, fits_u64, CountTable};
use crate::collecter::tail::{TailStep, WatchEvent};
use crate::utils::common::{chars_of, contains_in_range, contains_seq, is_contain, line_ranges, lines_of, str_eq};
use crate::protocol::collecter_protocol::CollectReport;
use crate::utils::common::seq_join;
use crate::utils::json::{
    json_array, json_array_of, json_object, json_object_of, json_string, json_string_of, lemma_items_prefix,
    lemma_json_object_slot, lemma_json_object_two, lemma_json_string_prefix, lemma_strip_prefix,
};
use crate::utils::string::{string_from_utf8_lossy, utf8_lossy};

verus! {

/// Why following a file stopped.
#[derive(Debug, Clone, Copy, PartialEq, Eq)]
pub enum TailCode {
    Size0,
    ReOpen,
    Unknown,
}

/// The receiving end of a channel of messages.
#[verifier::external_type_specification]
#[verifier::external_body]
#[verifier::reject_recursive_types(T)]
pub struct ExMpscReceiver<T>(std::sync::mpsc::Receiver<T>);

/// Runs a counter per log watcher and restarts them when told to reload.
pub struct Collecter {
    pub recv: std::sync::mpsc::Receiver<String>,
}

/// What the collector does with a message it receives.
#[derive(Debug, Clone, Copy, PartialEq, Eq)]
pub enum CollecterCommand {
    /// Stop every counter, load the log watchers again and start anew.
    Reload,
    /// Print the message and wait for the next one.
    Print,
}

/// The collector's reaction to `msg`: only `reload` restarts it.
pub fn collecter_command(msg: &str) -> (c: CollecterCommand)
    ensures
        c == (if msg@ == "reload"@ {
            CollecterCommand::Reload
        } else {
            CollecterCommand::Print
        }),
{
    if str_eq(msg, "reload") {
        CollecterCommand::Reload
    } else {
        CollecterCommand::Print
    }
}

/// The step of a counter that follows its file after an event: complete
/// writes are read, started writes are waited out, anything else makes it
/// open the file again.
pub fn counter_tail_event_step(ev: WatchEvent) -> (s: TailStep)
    ensures
        s == (match ev {
            WatchEvent::Write => TailStep::Read,
            WatchEvent::NoticeWrite => TailStep::Skip,
            WatchEvent::Other => TailStep::ReOpen,
        }),
{
    match ev {
        WatchEvent::Write => TailStep::Read,
        WatchEvent::NoticeWrite => TailStep::Skip,
        WatchEvent::Other => TailStep::ReOpen,
    }
}

/// What a counter that follows its file does after a read.
#[derive(Debug, Clone, Copy, PartialEq, Eq)]
pub enum ReadStep {
    /// Nothing was read: open the file again.
    ReOpen,
    /// Count what was read and read next from this offset.
    Advance(u64),
}

/// The step after reading `read` bytes at offset `start`: an empty read makes
/// the counter open the file again, else it goes on past what it read.
pub fn counter_read_step(start: u64, read: usize) -> (s: ReadStep)
    requires
        read > 0 ==> start + read <= u64::MAX,
    ensures
        s == (if read == 0 {
            ReadStep::ReOpen
        } else {
            ReadStep::Advance((start + read) as u64)
        }),
{
    if read == 0 {
        ReadStep::ReOpen
    } else {
        ReadStep::Advance(start + read as u64)
    }
}

/// A text to look for in each line, and the label under which matches are counted.
#[derive(Debug, Default)]
pub struct WatchKey {
    pub watch_key: String,
    pub msg: String,
}

/// A log file and the keys watched in it.
#[derive(Debug, Default)]
pub struct LogWatcher {
    pub path: String,
    pub watchs: Vec<WatchKey>,
}

/// The (key, label) pairs of a list of watch keys.
pub open spec fn watch_pairs(wks: Seq<WatchKey>) -> Seq<(Seq<char>, Seq<char>)> {
    wks.map_values(|w: WatchKey| (w.watch_key@, w.msg@))
}

/// How many of `lines` contain `key`.
pub open spec fn count_matching(lines: Seq<Seq<char>>, key: Seq<char>) -> nat
    decreases lines.len(),
{
    if lines.len() == 0 {
        0
    } else {
        count_matching(lines.drop_last(), key) + if contains_seq(lines.last(), key) {
            1nat
        } else {
            0nat
        }
    }
}

/// `m` with `n` added to the count of `label`; unchanged when `n` is 0.
pub open spec fn bump(m: Map<Seq<char>, nat>, label: Seq<char>, n: nat) -> Map<Seq<char>, nat> {
    if n == 0 {
        m
    } else {
        m.insert(label, count_or_zero(m, label) + n)
    }
}

/// The counts after going through `watches` in order: for each (key, label),
/// the number of `lines` that contain the key is added to the label's count.
pub open spec fn add_matches(
    m: Map<Seq<char>, nat>,
    watches: Seq<(Seq<char>, Seq<char>)>,
    lines: Seq<Seq<char>>,
) -> Map<Seq<char>, nat>
    decreases watches.len(),
{
    if watches.len() == 0 {
        m
    } else {
        bump(
            add_matches(m, watches.drop_last(), lines),
            watches.last().1,
            count_matching(lines, watches.last().0),
        )
    }
}

/// The JSON text of a watch key with the given (key, label), as serde_json writes the struct.
pub open spec fn watch_pair_json(p: (Seq<char>, Seq<char>)) -> Seq<char> {
    json_object(seq![("watch_key"@, json_string(p.0)), ("msg"@, json_string(p.1))])
}

/// The JSON text of a watch key, as serde_json writes the struct.
pub open spec fn watch_key_json(w: WatchKey) -> Seq<char> {
    watch_pair_json((w.watch_key@, w.msg@))
}

/// What the JSON text of a log watcher holds: its path and its (key, label) pairs.
pub open spec fn watcher_view(lw: LogWatcher) -> (Seq<char>, Seq<(Seq<char>, Seq<char>)>) {
    (lw.path@, watch_pairs(lw.watchs@))
}

/// The JSON text of a log watcher with the given path and (key, label) pairs.
pub open spec fn watcher_view_json(v: (Seq<char>, Seq<(Seq<char>, Seq<char>)>)) -> Seq<char> {
    json_object(
        seq![
            ("path"@, json_string(v.0)),
            ("watchs"@, json_array(v.1.map_values(|p: (Seq<char>, Seq<char>)| watch_pair_json(p)))),
        ],
    )
}

/// The JSON text of a log watcher, as serde_json writes the struct.
pub open spec fn log_watcher_json(lw: LogWatcher) -> Seq<char> {
    json_object(
        seq![
            ("path"@, json_string(lw.path@)),
            ("watchs"@, json_array(lw.watchs@.map_values(|w: WatchKey| watch_key_json(w)))),
        ],
    )
}

/// The JSON array of the given log watchers.
pub open spec fn log_watchers_json(ws: Seq<LogWatcher>) -> Seq<char> {
    json_array(ws.map_values(|lw: LogWatcher| log_watcher_json(lw)))
}

/// The JSON array of the given watch keys.
pub open spec fn watch_keys_json(wks: Seq<WatchKey>) -> Seq<char> {
    json_array(wks.map_values(|w: WatchKey| watch_key_json(w)))
}

/// Law: the key and the label of a watch key are each written, whatever
/// their values, in a place of their own: the text is some `p`, the value,
/// some `s`, and the watch key with another value there is written `p`, the
/// other value, `s`.
pub proof fn lemma_watch_key_json_slots(w: WatchKey, e: String)
    ensures
        exists|p: Seq<char>, s: Seq<char>|
            watch_key_json(w) == p + json_string(w.watch_key@) + s && watch_key_json(WatchKey { watch_key: e, ..w })
                == p + json_string(e@) + s,
        exists|p: Seq<char>, s: Seq<char>|
            watch_key_json(w) == p + json_string(w.msg@) + s && watch_key_json(WatchKey { msg: e, ..w }) == p
                + json_string(e@) + s,
{
    let f = seq![("watch_key"@, json_string(w.watch_key@)), ("msg"@, json_string(w.msg@))];
    lemma_json_object_slot(f, 0, json_string(e@));
    assert(f.update(0, (f[0].0, json_string(e@))) =~= seq![("watch_key"@, json_string(e@)), ("msg"@, json_string(w.msg@))]);
    lemma_json_object_slot(f, 1, json_string(e@));
    assert(f.update(1, (f[1].0, json_string(e@))) =~= seq![("watch_key"@, json_string(w.watch_key@)), ("msg"@, json_string(e@))]);
}

/// Law: the path and the list of watch keys of a log watcher are each
/// written, whatever their values, in a place of their own.
pub proof fn lemma_log_watcher_json_slots(lw: LogWatcher, e: String, ws: Vec<WatchKey>)
    ensures
        exists|p: Seq<char>, s: Seq<char>|
            log_watcher_json(lw) == p + json_string(lw.path@) + s && log_watcher_json(LogWatcher { path: e, ..lw })
                == p + json_string(e@) + s,
        exists|p: Seq<char>, s: Seq<char>|
            log_watcher_json(lw) == p + watch_keys_json(lw.watchs@) + s && log_watcher_json(
                LogWatcher { watchs: ws, ..lw },
            ) == p + watch_keys_json(ws@) + s,
{
    let ja = watch_keys_json(lw.watchs@);
    let jb = watch_keys_json(ws@);
    let f = seq![("path"@, json_string(lw.path@)), ("watchs"@, ja)];
    lemma_json_object_slot(f, 0, json_string(e@));
    assert(f.update(0, (f[0].0, json_string(e@))) =~= seq![("path"@, json_string(e@)), ("watchs"@, ja)]);
    lemma_json_object_slot(f, 1, jb);
    assert(f.update(1, (f[1].0, jb)) =~= seq![("path"@, json_string(lw.path@)), ("watchs"@, jb)]);
}

/// The JSON text of `w`.
pub(crate) fn watch_key_to_json(w: &WatchKey) -> (r: String)
    ensures
        r@ == watch_key_json(*w),
{
    let fields = vec![("watch_key", json_string_of(w.watch_key.as_str())), ("msg", json_string_of(w.msg.as_str()))];
    let r = json_object_of(&fields);
    assert(fields@.map_values(|f: (&str, String)| (f.0@, f.1@)) =~= seq![
        ("watch_key"@, json_string(w.watch_key@)),
        ("msg"@, json_string(w.msg@)),
    ]);
    r
}

proof fn lemma_log_watcher_json_view(lw: LogWatcher)
    ensures
        log_watcher_json(lw) == watcher_view_json(watcher_view(lw)),
{
    assert(lw.watchs@.map_values(|w: WatchKey| watch_key_json(w)) =~= watch_pairs(lw.watchs@).map_values(
        |p: (Seq<char>, Seq<char>)| watch_pair_json(p),
    ));
}

proof fn lemma_watch_pair_json_prefix(
    p1: (Seq<char>, Seq<char>),
    p2: (Seq<char>, Seq<char>),
    x: Seq<char>,
    y: Seq<char>,
)
    requires
        watch_pair_json(p1) + x == watch_pair_json(p2) + y,
    ensures
        p1 == p2,
        x == y,
{
    let head = seq!['{'] + json_string("watch_key"@) + seq![':'];
    let mid = seq![','] + json_string("msg"@) + seq![':'];
    let close = seq!['}'];
    lemma_json_object_two(("watch_key"@, json_string(p1.0)), ("msg"@, json_string(p1.1)));
    lemma_json_object_two(("watch_key"@, json_string(p2.0)), ("msg"@, json_string(p2.1)));
    let r1 = mid + (json_string(p1.1) + (close + x));
    let r2 = mid + (json_string(p2.1) + (close + y));
    assert(watch_pair_json(p1) + x =~= head + (json_string(p1.0) + r1));
    assert(watch_pair_json(p2) + y =~= head + (json_string(p2.0) + r2));
    lemma_strip_prefix(head, json_string(p1.0) + r1, json_string(p2.0) + r2);
    lemma_json_string_prefix(p1.0, p2.0, r1, r2);
    lemma_strip_prefix(mid, json_string(p1.1) + (close + x), json_string(p2.1) + (close + y));
    lemma_json_string_prefix(p1.1, p2.1, close + x, close + y);
    lemma_strip_prefix(close, x, y);
}

proof fn lemma_watcher_view_json_prefix(
    v1: (Seq<char>, Seq<(Seq<char>, Seq<char>)>),
    v2: (Seq<char>, Seq<(Seq<char>, Seq<char>)>),
    x: Seq<char>,
    y: Seq<char>,
)
    requires
        watcher_view_json(v1) + x == watcher_view_json(v2) + y,
    ensures
        v1 == v2,
        x == y,
{
    let enc = |p: (Seq<char>, Seq<char>)| watch_pair_json(p);
    let head = seq!['{'] + json_string("path"@) + seq![':'];
    let mid = seq![','] + json_string("watchs"@) + seq![':'] + seq!['['];
    let close = seq!['}'];
    let j1 = seq_join(v1.1.map_values(enc), seq![',']);
    let j2 = seq_join(v2.1.map_values(enc), seq![',']);
    lemma_json_object_two(("path"@, json_string(v1.0)), ("watchs"@, json_array(v1.1.map_values(enc))));
    lemma_json_object_two(("path"@, json_string(v2.0)), ("watchs"@, json_array(v2.1.map_values(enc))));
    let r1 = mid + (j1 + seq![']'] + (close + x));
    let r2 = mid + (j2 + seq![']'] + (close + y));
    assert(watcher_view_json(v1) + x =~= head + (json_string(v1.0) + r1));
    assert(watcher_view_json(v2) + y =~= head + (json_string(v2.0) + r2));
    lemma_strip_prefix(head, json_string(v1.0) + r1, json_string(v2.0) + r2);
    lemma_json_string_prefix(v1.0, v2.0, r1, r2);
    lemma_strip_prefix(mid, j1 + seq![']'] + (close + x), j2 + seq![']'] + (close + y));
    assert forall|t: (Seq<char>, Seq<char>)| #[trigger] enc(t).len() > 0 && enc(t)[0] == '{' by {
        lemma_json_object_two(("watch_key"@, json_string(t.0)), ("msg"@, json_string(t.1)));
    }
    assert forall|t1: (Seq<char>, Seq<char>), t2: (Seq<char>, Seq<char>), u: Seq<char>, v: Seq<char>|
        #![trigger enc(t1) + u, enc(t2) + v]
        enc(t1) + u == enc(t2) + v implies t1 == t2 && u == v by {
        lemma_watch_pair_json_prefix(t1, t2, u, v);
    }
    lemma_items_prefix(enc, v1.1, v2.1, close + x, close + y);
    lemma_strip_prefix(close, x, y);
}

/// Law: the JSON text of a log watcher determines its path and its watch
/// keys: two watchers written alike have the same path and the same (key,
/// label) pairs in the same order.
pub proof fn lemma_log_watcher_json_determines(a: LogWatcher, b: LogWatcher)
    requires
        log_watcher_json(a) == log_watcher_json(b),
    ensures
        a.path@ == b.path@,
        watch_pairs(a.watchs@) == watch_pairs(b.watchs@),
{
    lemma_log_watcher_json_view(a);
    lemma_log_watcher_json_view(b);
    assert(watcher_view_json(watcher_view(a)) + Seq::<char>::empty() =~= watcher_view_json(watcher_view(b))
        + Seq::<char>::empty());
    lemma_watcher_view_json_prefix(watcher_view(a), watcher_view(b), Seq::<char>::empty(), Seq::<char>::empty());
}

/// Law: the JSON text of a list of log watchers (what is stored for the
/// collector) determines the watchers: the same number of them, each with the
/// same path and (key, label) pairs, in the same order.
pub proof fn lemma_log_watchers_json_determines(a: Seq<LogWatcher>, b: Seq<LogWatcher>)
    requires
        log_watchers_json(a) == log_watchers_json(b),
    ensures
        a.map_values(|lw: LogWatcher| watcher_view(lw)) == b.map_values(|lw: LogWatcher| watcher_view(lw)),
{
    let enc = |v: (Seq<char>, Seq<(Seq<char>, Seq<char>)>)| watcher_view_json(v);
    let va = a.map_values(|lw: LogWatcher| watcher_view(lw));
    let vb = b.map_values(|lw: LogWatcher| watcher_view(lw));
    assert(a.map_values(|lw: LogWatcher| log_watcher_json(lw)) =~= va.map_values(enc)) by {
        assert forall|i: int| 0 <= i < a.len() implies a.map_values(|lw: LogWatcher| log_watcher_json(lw))[i]
            == va.map_values(enc)[i] by {
            lemma_log_watcher_json_view(a[i]);
        }
    }
    assert(b.map_values(|lw: LogWatcher| log_watcher_json(lw)) =~= vb.map_values(enc)) by {
        assert forall|i: int| 0 <= i < b.len() implies b.map_values(|lw: LogWatcher| log_watcher_json(lw))[i]
            == vb.map_values(enc)[i] by {
            lemma_log_watcher_json_view(b[i]);
        }
    }
    let open = seq!['['];
    let ja = seq_join(va.map_values(enc), seq![',']);
    let jb = seq_join(vb.map_values(enc), seq![',']);
    assert(log_watchers_json(a) =~= open + (ja + seq![']'] + Seq::<char>::empty()));
    assert(log_watchers_json(b) =~= open + (jb + seq![']'] + Seq::<char>::empty()));
    lemma_strip_prefix(open, ja + seq![']'] + Seq::<char>::empty(), jb + seq![']'] + Seq::<char>::empty());
    assert forall|t: (Seq<char>, Seq<(Seq<char>, Seq<char>)>)| #[trigger] enc(t).len() > 0 && enc(t)[0] == '{' by {
        lemma_json_object_two(
            ("path"@, json_string(t.0)),
            ("watchs"@, json_array(t.1.map_values(|p: (Seq<char>, Seq<char>)| watch_pair_json(p)))),
        );
    }
    assert forall|t1: (Seq<char>, Seq<(Seq<char>, Seq<char>)>), t2: (Seq<char>, Seq<(Seq<char>, Seq<char>)>), u: Seq<char>, v: Seq<char>|
        #![trigger enc(t1) + u, enc(t2) + v]
        enc(t1) + u == enc(t2) + v implies t1 == t2 && u == v by {
        lemma_watcher_view_json_prefix(t1, t2, u, v);
    }
    lemma_items_prefix(enc, va, vb, Seq::<char>::empty(), Seq::<char>::empty());
}

/// The JSON array of `ws`.
pub(crate) fn log_watchers_to_json(ws: &Vec<LogWatcher>) -> (r: String)
    ensures
        r@ == log_watchers_json(ws@),
{
    let mut items: Vec<String> = Vec::new();
    let mut i: usize = 0;
    while i < ws.len()
        invariant
            i <= ws@.len(),
            items@.len() == i,
            forall|q: int| 0 <= q < i ==> (#[trigger] items@[q])@ == log_watcher_json(ws@[q]),
        decreases ws@.len() - i,
    {
        items.push(ws[i].to_json_string());
        i = i + 1;
    }
    let r = json_array_of(&items);
    assert(items@.map_values(|x: String| x@) =~= ws@.map_values(|lw: LogWatcher| log_watcher_json(lw)));
    r
}

impl LogWatcher {
    /// The JSON text of this watcher.
    pub fn to_json_string(&self) -> (r: String)
        ensures
            r@ == log_watcher_json(*self),
    {
        let mut items: Vec<String> = Vec::new();
        let mut i: usize = 0;
        while i < self.watchs.len()
            invariant
                i <= self.watchs@.len(),
                items@.len() == i,
                forall|q: int| 0 <= q < i ==> (#[trigger] items@[q])@ == watch_key_json(self.watchs@[q]),
            decreases self.watchs@.len() - i,
        {
            items.push(watch_key_to_json(&self.watchs[i]));
            i = i + 1;
        }
        let watchs_json = json_array_of(&items);
        assert(items@.map_values(|x: String| x@) =~= self.watchs@.map_values(|w: WatchKey| watch_key_json(w)));
        let fields = vec![("path", json_string_of(self.path.as_str())), ("watchs", watchs_json)];
        let r = json_object_of(&fields);
        assert(fields@.map_values(|f: (&str, String)| (f.0@, f.1@)) =~= seq![
            ("path"@, json_string(self.path@)),
            ("watchs"@, json_array(self.watchs@.map_values(|w: WatchKey| watch_key_json(w)))),
        ]);
        r
    }
}

impl WatchKey {
    /// Whether `content` contains the watched text.
    pub fn is_match(&self, content: &str) -> (r: bool)
        ensures
            r == contains_seq(content@, self.watch_key@),
    {
        is_contain(content, self.watch_key.as_str())
    }
}

proof fn lemma_count_matching_step(lines: Seq<Seq<char>>, key: Seq<char>, j: int)
    requires
        0 <= j < lines.len(),
    ensures
        count_matching(lines.take(j + 1), key) == count_matching(lines.take(j), key) + if contains_seq(
            lines[j],
            key,
        ) {
            1nat
        } else {
            0nat
        },
{
    assert(lines.take(j + 1).drop_last() =~= lines.take(j));
}

proof fn lemma_count_matching_prefix(lines: Seq<Seq<char>>, key: Seq<char>, j: int)
    requires
        0 <= j <= lines.len(),
    ensures
        count_matching(lines.take(j), key) <= count_matching(lines, key),
    decreases lines.len() - j,
{
    if j == lines.len() {
        assert(lines.take(j) =~= lines);
    } else {
        lemma_count_matching_step(lines, key, j);
        lemma_count_matching_prefix(lines, key, j + 1);
    }
}

proof fn lemma_add_matches_prefix(
    m: Map<Seq<char>, nat>,
    w: Seq<(Seq<char>, Seq<char>)>,
    lines: Seq<Seq<char>>,
    i: int,
    k: Seq<char>,
)
    requires
        0 <= i <= w.len(),
    ensures
        count_or_zero(add_matches(m, w.take(i), lines), k) <= count_or_zero(add_matches(m, w, lines), k),
    decreases w.len() - i,
{
    if i == w.len() {
        assert(w.take(i) =~= w);
    } else {
        assert(w.take(i + 1).drop_last() =~= w.take(i));
        lemma_add_matches_prefix(m, w, lines, i + 1, k);
    }
}

/// Law: counting with a list of watch keys is counting with its first part,
/// then with the rest.
pub proof fn lemma_add_matches_concat(
    m: Map<Seq<char>, nat>,
    w1: Seq<(Seq<char>, Seq<char>)>,
    w2: Seq<(Seq<char>, Seq<char>)>,
    lines: Seq<Seq<char>>,
)
    ensures
        add_matches(m, w1 + w2, lines) == add_matches(add_matches(m, w1, lines), w2, lines),
    decreases w2.len(),
{
    if w2.len() == 0 {
        assert(w1 + w2 =~= w1);
    } else {
        assert((w1 + w2).drop_last() =~= w1 + w2.drop_last());
        assert((w1 + w2).last() == w2.last());
        lemma_add_matches_concat(m, w1, w2.drop_last(), lines);
    }
}

/// How many (watch key, line) pairs count for `label`: for each key with that
/// label, the number of lines that contain the key.
pub open spec fn label_total(w: Seq<(Seq<char>, Seq<char>)>, lines: Seq<Seq<char>>, label: Seq<char>) -> nat
    decreases w.len(),
{
    if w.len() == 0 {
        0
    } else {
        label_total(w.drop_last(), lines, label) + if w.last().1 == label {
            count_matching(lines, w.last().0)
        } else {
            0
        }
    }
}

/// Law: what counting adds to a label is the number of lines that contain one
/// of its keys, one for each such key and line.
pub proof fn lemma_add_matches_total(
    m: Map<Seq<char>, nat>,
    w: Seq<(Seq<char>, Seq<char>)>,
    lines: Seq<Seq<char>>,
    label: Seq<char>,
)
    ensures
        count_or_zero(add_matches(m, w, lines), label) == count_or_zero(m, label) + label_total(w, lines, label),
    decreases w.len(),
{
    if w.len() > 0 {
        lemma_add_matches_total(m, w.drop_last(), lines, label);
    }
}

/// Law: counts never go down, and a label gets a count only when a line
/// matched one of its keys: the labels after counting are the labels before,
/// and those of keys that some line contains.
pub proof fn lemma_add_matches_labels(
    m: Map<Seq<char>, nat>,
    w: Seq<(Seq<char>, Seq<char>)>,
    lines: Seq<Seq<char>>,
    k: Seq<char>,
)
    ensures
        count_or_zero(m, k) <= count_or_zero(add_matches(m, w, lines), k),
        add_matches(m, w, lines).contains_key(k) <==> (m.contains_key(k) || exists|i: int|
            0 <= i < w.len() && w[i].1 == k && count_matching(lines, w[i].0) > 0),
    decreases w.len(),
{
    if w.len() > 0 {
        let init = w.drop_last();
        lemma_add_matches_labels(m, init, lines, k);
        if exists|i: int| 0 <= i < w.len() && w[i].1 == k && count_matching(lines, w[i].0) > 0 {
            let i = choose|i: int| 0 <= i < w.len() && w[i].1 == k && count_matching(lines, w[i].0) > 0;
            if i < init.len() {
                assert(init[i] == w[i]);
            }
        }
        if exists|i: int| 0 <= i < init.len() && init[i].1 == k && count_matching(lines, init[i].0) > 0 {
            let i = choose|i: int| 0 <= i < init.len() && init[i].1 == k && count_matching(lines, init[i].0) > 0;
            assert(w[i] == init[i]);
        }
    }
}

/// Counts, for each watch key in turn, the lines of `text` that contain its
/// text, under the key's label; where a count would pass `u64::MAX` it counts
/// nothing and returns false.
pub fn count_text_checked(text: &str, wks: &Vec<WatchKey>, counts: &mut CountTable) -> (counted: bool)
    ensures
        counted == fits_u64(add_matches(old(counts)@, watch_pairs(wks@), lines_of(text@))),
        counted ==> final(counts)@ == add_matches(old(counts)@, watch_pairs(wks@), lines_of(text@)),
        !counted ==> final(counts)@ == old(counts)@,
{
    let ghost m0 = counts@;
    let ghost w = watch_pairs(wks@);
    let ghost lines = lines_of(text@);
    proof {
        use_type_invariant(&*counts);
        counts.lemma_view_is_pairs();
    }
    let mut work = counts.copy();
    let chars = chars_of(text);
    let ranges = line_ranges(&chars);
    let mut i: usize = 0;
    assert(w.take(0) =~= Seq::<(Seq<char>, Seq<char>)>::empty());
    while i < wks.len()
        invariant
            i <= wks@.len(),
            w == watch_pairs(wks@),
            chars@ == text@,
            lines == lines_of(text@),
            ranges@.len() == lines.len(),
            forall|q: int|
                0 <= q < ranges@.len() ==> {
                    &&& (#[trigger] ranges@[q]).0 <= ranges@[q].1 <= chars@.len()
                    &&& chars@.subrange(ranges@[q].0 as int, ranges@[q].1 as int) == lines[q]
                },
            counts@ == m0,
            m0 == old(counts)@,
            fits_u64(work@),
            work@ == add_matches(m0, w.take(i as int), lines),
        decreases wks@.len() - i,
    {
        let wk = &wks[i];
        let key = chars_of(wk.watch_key.as_str());
        let ghost prev = work@;
        let ghost label = wk.msg@;
        let ghost full = count_matching(lines, key@);
        proof {
            assert(w.take(i + 1).drop_last() =~= w.take(i as int));
            assert(w.take(i + 1).last() == (key@, label));
            lemma_add_matches_prefix(m0, w, lines, i + 1, label);
            assert(lines.take(0) =~= Seq::<Seq<char>>::empty());
            assert(bump(prev, label, 0) == prev);
        }
        let mut j: usize = 0;
        while j < ranges.len()
            invariant
                j <= ranges@.len(),
                ranges@.len() == lines.len(),
                chars@ == text@,
                forall|q: int|
                    0 <= q < ranges@.len() ==> {
                        &&& (#[trigger] ranges@[q]).0 <= ranges@[q].1 <= chars@.len()
                        &&& chars@.subrange(ranges@[q].0 as int, ranges@[q].1 as int) == lines[q]
                    },
                label == wk.msg@,
                full == count_matching(lines, key@),
                add_matches(m0, w.take(i + 1), lines) == bump(prev, label, full),
                count_or_zero(add_matches(m0, w.take(i + 1), lines), label) <= count_or_zero(
                    add_matches(m0, w, lines),
                    label,
                ),
                counts@ == m0,
                m0 == old(counts)@,
                w == watch_pairs(wks@),
                lines == lines_of(text@),
                fits_u64(work@),
                work@ == bump(prev, label, count_matching(lines.take(j as int), key@)),
            decreases ranges@.len() - j,
        {
            let (lo, hi) = ranges[j];
            let found = contains_in_range(&chars, lo, hi, &key);
            proof {
                lemma_count_matching_step(lines, key@, j as int);
                lemma_count_matching_prefix(lines, key@, j + 1);
            }
            if found {
                let current = work.get(&wk.msg);
                match current {
                    Some(c) => {
                        if c == u64::MAX {
                            proof {
                                let fin = add_matches(m0, w, lines);
                                assert(count_or_zero(add_matches(m0, w.take(i + 1), lines), label) > u64::MAX);
                                assert(fin.contains_key(label));
                                assert(fin[label] > u64::MAX);
                                assert(!fits_u64(fin));
                            }
                            assert(!fits_u64(add_matches(old(counts)@, watch_pairs(wks@), lines_of(text@))));
                            return false;
                        }
                    },
                    None => {},
                }
                work.increment(&wk.msg);
                assert(work@ =~= bump(prev, label, count_matching(lines.take(j + 1), key@)));
            }
            j = j + 1;
        }
        proof {
            assert(lines.take(ranges@.len() as int) =~= lines);
        }
        i = i + 1;
    }
    assert(w.take(wks@.len() as int) =~= w);
    *counts = work;
    true
}

/// Counts, for each watch key in turn, the lines of `text` that contain its
/// text, under the key's label (`*count.entry(label).or_insert(0) += 1` per line).
pub fn count_text(text: &str, wks: &Vec<WatchKey>, counts: &mut CountTable)
    requires
        fits_u64(add_matches(old(counts)@, watch_pairs(wks@), lines_of(text@))),
    ensures
        final(counts)@ == add_matches(old(counts)@, watch_pairs(wks@), lines_of(text@)),
{
    count_text_checked(text, wks, counts);
}

/// Decodes a buffer read from a log file (invalid UTF-8 replaced) and counts
/// its matching lines as `count_text_checked` does.
pub fn count_buffer(buffer: &[u8], wks: &Vec<WatchKey>, counts: &mut CountTable) -> (counted: bool)
    ensures
        counted == fits_u64(add_matches(old(counts)@, watch_pairs(wks@), lines_of(utf8_lossy(buffer@)))),
        counted ==> final(counts)@ == add_matches(
            old(counts)@,
            watch_pairs(wks@),
            lines_of(utf8_lossy(buffer@)),
        ),
        !counted ==> final(counts)@ == old(counts)@,
{
    let text = string_from_utf8_lossy(buffer);
    count_text_checked(text.as_str(), wks, counts)
}

/// One report per counted label, in the table's order: the label and its count,
/// with the given time and place (what the collector sends each minute).
pub fn collect_reports(
    counts: &CountTable,
    time: u64,
    system: &String,
    env: &String,
    cluster: &String,
    ip: &String,
) -> (r: Vec<CollectReport>)
    ensures
        r@.len() == counts.pairs().len(),
        r@.len() == counts@.len(),
        forall|i: int|
            0 <= i < r@.len() ==> {
                &&& (#[trigger] r@[i]).count_type@ == counts.pairs()[i].0
                &&& r@[i].count == counts.pairs()[i].1
                &&& r@[i].count == counts@[r@[i].count_type@]
                &&& r@[i].time == time
                &&& r@[i].system@ == system@
                &&& r@[i].env@ == env@
                &&& r@[i].cluster@ == cluster@
                &&& r@[i].ip@ == ip@
            },
        forall|k: Seq<char>| counts@.contains_key(k) ==> exists|i: int| 0 <= i < r@.len() && (#[trigger] r@[i]).count_type@ == k,
        forall|i: int, j: int| 0 <= i < j < r@.len() ==> (#[trigger] r@[i]).count_type@ != (#[trigger] r@[j]).count_type@,
{
    proof {
        use_type_invariant(counts);
        counts.lemma_view_is_pairs();
    }
    let n = counts.len();
    let mut r: Vec<CollectReport> = Vec::new();
    let mut i: usize = 0;
    while i < n
        invariant
            i <= n,
            n == counts.pairs().len(),
            r@.len() == i,
            forall|q: int|
                0 <= q < i ==> {
                    &&& (#[trigger] r@[q]).count_type@ == counts.pairs()[q].0
                    &&& r@[q].count == counts.pairs()[q].1
                    &&& r@[q].time == time
                    &&& r@[q].system@ == system@
                    &&& r@[q].env@ == env@
                    &&& r@[q].cluster@ == cluster@
                    &&& r@[q].ip@ == ip@
                },
        decreases n - i,
    {
        let (k, v) = counts.pair_at(i);
        r.push(
            CollectReport {
                time: time,
                count: v,
                system: system.clone(),
                env: env.clone(),
                cluster: cluster.clone(),
                ip: ip.clone(),
                count_type: k.clone(),
            },
        );
        i = i + 1;
    }
    proof {
        assert forall|k: Seq<char>| counts@.contains_key(k) implies exists|i: int|
            0 <= i < r@.len() && (#[trigger] r@[i]).count_type@ == k by {
            let j = choose|j: int| 0 <= j < counts.pairs().len() && counts.pairs()[j].0 == k;
            assert(r@[j].count_type@ == k);
        }
        assert forall|q: int| 0 <= q < r@.len() implies (#[trigger] r@[q]).count == counts@[r@[q].count_type@] by {
            assert(counts@[counts.pairs()[q].0] == counts.pairs()[q].1);
        }
    }
    r
}

} // verus!
