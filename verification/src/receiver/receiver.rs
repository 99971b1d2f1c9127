//! The receiver: decides what each command means and passes messages on to
//! the other parts of the agent by name.
use vstd::prelude::*;

use crate::utils::assoc::{assoc_map, keys_distinct, lemma_assoc_domain, lemma_assoc_push, lemma_assoc_update, lemma_assoc_value};
use crate::utils::common::str_eq;
use crate::utils::json::{json_member_as_str, json_member_str, json_member_text, json_member_to_text, json_parses};

verus! {

/// The sending end of a channel of messages.
#[verifier::external_type_specification]
#[verifier::external_body]
#[verifier::reject_recursive_types(T)]
pub struct ExMpscSender<T>(std::sync::mpsc::Sender<T>);

/// `Sender::send`: hands `msg` to the channel `tx`; whether the other end still
/// listens is not known here, and the outcome is dropped. The call is only
/// made on the channel that `owner` knows under the name `to`, with `msg`
/// holding the text `text`: `owner`, `to` and `text` serve that precondition
/// alone. Nothing is stated of what the other end receives.
#[verifier::external_body]
fn send_string(
    tx: &std::sync::mpsc::Sender<String>,
    msg: String,
    owner: &Receiver,
    to: &str,
    text: &str,
)
    requires
        owner.channels().contains_key(to@),
        *tx == owner.channels()[to@],
        msg@ == text@,
{
    let _ = tx.send(msg);
}

/// Passes messages on to the other parts of the agent, each known by a name.
pub struct Receiver {
    channels_tx: Vec<(String, std::sync::mpsc::Sender<String>)>,
}

/// What a command asks the agent to do.
#[derive(Debug)]
pub enum ReceiverAction {
    /// Nothing: the message is not JSON, or its type is unknown.
    Skip,
    /// Run the restart script.
    Restart,
    /// Fetch and install a new version, described by this JSON text.
    UpdateVersion(String),
    /// Store a key, described by this JSON text.
    UpdateKey(String),
    /// Store new log watchers, described by this JSON text, and reload the collector.
    UpdateCollecter(String),
}

/// `a` is what a command of type `t`, with the JSON text `protocol` under its
/// `protocol` member, asks for.
pub open spec fn action_for(t: Seq<char>, protocol: Seq<char>, a: ReceiverAction) -> bool {
    if t == "restart"@ {
        a is Restart
    } else if t == "updateVersion"@ {
        a matches ReceiverAction::UpdateVersion(q) && q@ == protocol
    } else if t == "updateKey"@ {
        a matches ReceiverAction::UpdateKey(q) && q@ == protocol
    } else if t == "updateCollecter"@ {
        a matches ReceiverAction::UpdateCollecter(q) && q@ == protocol
    } else {
        a is Skip
    }
}

/// The action for a command of type `t` whose `protocol` member is `protocol`.
pub fn action_of_type(t: &str, protocol: String) -> (a: ReceiverAction)
    ensures
        action_for(t@, protocol@, a),
{
    if str_eq(t, "restart") {
        ReceiverAction::Restart
    } else if str_eq(t, "updateVersion") {
        ReceiverAction::UpdateVersion(protocol)
    } else if str_eq(t, "updateKey") {
        ReceiverAction::UpdateKey(protocol)
    } else if str_eq(t, "updateCollecter") {
        ReceiverAction::UpdateCollecter(protocol)
    } else {
        ReceiverAction::Skip
    }
}

/// What the command `msg` asks for: text that is not JSON is skipped, else its
/// `type` member (which must be a string) selects the action, which carries
/// the JSON text of the `protocol` member where it needs one.
pub fn receiver_action(msg: &str) -> (a: ReceiverAction)
    requires
        json_member_str(msg@, "type"@) != Some(None::<Seq<char>>),
    ensures
        json_member_str(msg@, "type"@) is None <==> !json_parses(msg@),
        json_member_str(msg@, "type"@) is None ==> a is Skip,
        json_member_str(msg@, "type"@) matches Some(Some(t)) ==> (json_member_text(msg@, "protocol"@) matches Some(
            p,
        ) && action_for(t, p, a)),
{
    match json_member_as_str(msg, "type") {
        None => ReceiverAction::Skip,
        Some(None) => ReceiverAction::Skip,
        Some(Some(t)) => match json_member_to_text(msg, "protocol") {
            Some(p) => action_of_type(t.as_str(), p),
            None => ReceiverAction::Skip,
        },
    }
}

/// As `receiver_action`, but `None` where the command is JSON whose `type`
/// member is not a string (where `receiver_action` may not be called).
pub fn receiver_action_checked(msg: &str) -> (r: Option<ReceiverAction>)
    ensures
        r is None <==> json_member_str(msg@, "type"@) == Some(None::<Seq<char>>),
        json_member_str(msg@, "type"@) is None <==> !json_parses(msg@),
        json_member_str(msg@, "type"@) is None ==> r matches Some(ReceiverAction::Skip),
        json_member_str(msg@, "type"@) matches Some(Some(t)) ==> (r matches Some(a) && json_member_text(
            msg@,
            "protocol"@,
        ) matches Some(p) && action_for(t, p, a)),
{
    match json_member_as_str(msg, "type") {
        Some(None) => None,
        _ => Some(receiver_action(msg)),
    }
}

/// The message to pass on after carrying out `a`, and the name of the channel
/// it goes to: new log watchers make the collector reload; nothing else is
/// passed on.
pub fn follow_up(a: &ReceiverAction) -> (r: Option<(&'static str, &'static str)>)
    ensures
        a is UpdateCollecter ==> (r matches Some((to, msg)) && to@ == "collecter_tx"@ && msg@ == "reload"@),
        !(a is UpdateCollecter) ==> r is None,
{
    match a {
        ReceiverAction::UpdateCollecter(_) => Some(("collecter_tx", "reload")),
        _ => None,
    }
}

/// Law: once a channel is inserted under a name, the receiver knows that
/// name, so `send_msg` to it succeeds (`before` and `after` are the names before
/// and after `insert_channel`, as its contract relates them).
pub proof fn lemma_inserted_name_is_known(before: Seq<Seq<char>>, after: Seq<Seq<char>>, name: Seq<char>)
    requires
        before.contains(name) ==> after == before,
        !before.contains(name) ==> after == before.push(name),
    ensures
        after.contains(name),
{
    if !before.contains(name) {
        assert(after[before.len() as int] == name);
    }
}

impl Receiver {
    /// The (name, channel) pairs, in the order in which the names first came.
    pub closed spec fn entries(&self) -> Seq<(Seq<char>, std::sync::mpsc::Sender<String>)> {
        self.channels_tx@.map_values(|c: (String, std::sync::mpsc::Sender<String>)| (c.0@, c.1))
    }

    /// The names under which a channel is known, in order.
    pub closed spec fn names(&self) -> Seq<Seq<char>> {
        self.channels_tx@.map_values(|c: (String, std::sync::mpsc::Sender<String>)| c.0@)
    }

    /// The channel known under each name.
    pub closed spec fn channels(&self) -> Map<Seq<char>, std::sync::mpsc::Sender<String>> {
        assoc_map(self.entries())
    }

    /// No name twice (the receiver's invariant).
    #[verifier::type_invariant]
    pub closed spec fn wf(&self) -> bool {
        keys_distinct(self.entries())
    }

    proof fn lemma_entries(&self)
        ensures
            self.entries().len() == self.names().len(),
            forall|i: int| 0 <= i < self.names().len() ==> #[trigger] self.entries()[i].0 == self.names()[i],
            forall|k: Seq<char>| self.channels().contains_key(k) <==> self.names().contains(k),
    {
        assert forall|k: Seq<char>| self.channels().contains_key(k) <==> self.names().contains(k) by {
            lemma_assoc_domain(self.entries(), k);
            if self.names().contains(k) {
                let i = choose|i: int| 0 <= i < self.names().len() && self.names()[i] == k;
                assert(self.entries()[i].0 == k);
            }
            if self.channels().contains_key(k) {
                let i = choose|i: int| 0 <= i < self.entries().len() && self.entries()[i].0 == k;
                assert(self.names()[i] == k);
            }
        }
    }

    /// A receiver that knows no channel.
    pub fn new() -> (r: Receiver)
        ensures
            r.names() == Seq::<Seq<char>>::empty(),
            r.channels() == Map::<Seq<char>, std::sync::mpsc::Sender<String>>::empty(),
    {
        let r = Receiver { channels_tx: Vec::new() };
        assert(r.names() =~= Seq::<Seq<char>>::empty());
        assert(r.entries() =~= Seq::<(Seq<char>, std::sync::mpsc::Sender<String>)>::empty());
        r
    }

    /// The index of the channel named `to`, if there is one.
    fn find(&self, to: &str) -> (r: Option<usize>)
        ensures
            r matches Some(i) ==> i < self.names().len() && self.names()[i as int] == to@,
            r is None ==> !self.names().contains(to@),
    {
        let mut i: usize = 0;
        while i < self.channels_tx.len()
            invariant
                i <= self.channels_tx@.len(),
                forall|j: int| 0 <= j < i ==> self.names()[j] != to@,
            decreases self.channels_tx@.len() - i,
        {
            if str_eq(self.channels_tx[i].0.as_str(), to) {
                return Some(i);
            }
            i = i + 1;
        }
        None
    }

    /// Knows `tx` under `name` from now on, in place of any channel known by
    /// that name before (`HashMap::insert`).
    pub fn insert_channel(&mut self, name: String, tx: std::sync::mpsc::Sender<String>)
        ensures
            final(self).channels() == old(self).channels().insert(name@, tx),
            old(self).names().contains(name@) ==> final(self).names() == old(self).names(),
            !old(self).names().contains(name@) ==> final(self).names() == old(self).names().push(name@),
    {
        proof {
            use_type_invariant(&*self);
            self.lemma_entries();
        }
        let ghost old_entries = self.entries();
        let ghost old_names = self.names();
        let ghost name_v = name@;
        let idx = self.find(name.as_str());
        let mut channels: Vec<(String, std::sync::mpsc::Sender<String>)> = Vec::new();
        std::mem::swap(&mut channels, &mut self.channels_tx);
        assert(channels@.map_values(|c: (String, std::sync::mpsc::Sender<String>)| (c.0@, c.1)) == old_entries);
        assert(channels@.map_values(|c: (String, std::sync::mpsc::Sender<String>)| c.0@) == old_names);
        match idx {
            Some(i) => {
                proof {
                    assert(old_entries[i as int].0 == name_v);
                    lemma_assoc_update(old_entries, i as int, tx);
                }
                channels.set(i, (name, tx));
                assert(channels@.map_values(|c: (String, std::sync::mpsc::Sender<String>)| (c.0@, c.1))
                    =~= old_entries.update(i as int, (old_entries[i as int].0, tx)));
                assert(channels@.map_values(|c: (String, std::sync::mpsc::Sender<String>)| c.0@) =~= old_names);
            },
            None => {
                proof {
                    lemma_assoc_domain(old_entries, name_v);
                    if exists|j: int| 0 <= j < old_entries.len() && old_entries[j].0 == name_v {
                        let j = choose|j: int| 0 <= j < old_entries.len() && old_entries[j].0 == name_v;
                        assert(old_names[j] == name_v);
                    }
                    lemma_assoc_push(old_entries, name_v, tx);
                }
                channels.push((name, tx));
                assert(channels@.map_values(|c: (String, std::sync::mpsc::Sender<String>)| (c.0@, c.1))
                    =~= old_entries.push((name_v, tx)));
                assert(channels@.map_values(|c: (String, std::sync::mpsc::Sender<String>)| c.0@)
                    =~= old_names.push(name_v));
            },
        }
        self.channels_tx = channels;
    }

    /// The channel known under `to`, if there is one.
    pub fn sender_for(&self, to: &str) -> (r: Option<&std::sync::mpsc::Sender<String>>)
        ensures
            r is Some <==> self.channels().contains_key(to@),
            r matches Some(tx) ==> *tx == self.channels()[to@],
    {
        proof {
            use_type_invariant(self);
            self.lemma_entries();
        }
        match self.find(to) {
            Some(i) => {
                proof {
                    lemma_assoc_value(self.entries(), i as int);
                    assert(self.entries()[i as int].0 == to@);
                }
                Some(&self.channels_tx[i].1)
            },
            None => None,
        }
    }

    /// Sends `msg` on the channel known under `to` (the one `sender_for` gives),
    /// and on no other; false when no channel has that name, and then nothing
    /// is sent.
    pub fn send_msg(&self, to: &str, msg: &str) -> (sent: bool)
        ensures
            sent == self.channels().contains_key(to@),
            sent == self.names().contains(to@),
    {
        proof {
            self.lemma_entries();
        }
        match self.sender_for(to) {
            Some(tx) => {
                send_string(tx, msg.to_owned(), self, to, msg);
                true
            },
            None => false,
        }
    }
}

} // verus!
