//! Following a growing log file and counting, per watched text, the lines that
//! contain it.
use vstd::prelude::*;

use crate::collecter::collecter::{add_matches, count_text_checked, WatchKey as LabelledKey};
use crate::collecter::count_table::{fits_u64, CountTable};
use crate::utils::common::{contains_seq, is_contain, lines_of};

verus! {

/// Why following a file stopped.
#[derive(Debug, Clone, Copy, PartialEq, Eq)]
pub enum TailCode {
    Size0,
    ReOpen,
    Unknown,
}

/// A log file and the texts watched in it.
#[derive(Debug, Default)]
pub struct LogWatcher {
    pub path: String,
    pub watchs: Vec<WatchKey>,
}

/// A text to look for in each line.
#[derive(Debug, Default)]
pub struct WatchKey {
    pub watch_key: String,
    pub msg: String,
}

/// A count of matching lines, with when and where.
pub struct LogReport {
    time: u64,
    count: u32,
    system: String,
    ip: String,
    msg: String,
}

/// What the file watcher reported.
#[derive(Debug, Clone, Copy, PartialEq, Eq)]
pub enum WatchEvent {
    /// The file was written and the write is complete.
    Write,
    /// A write has started.
    NoticeWrite,
    /// Anything else: the file was removed, renamed, and so on.
    Other,
}

/// What following the file does next.
#[derive(Debug, Clone, Copy, PartialEq, Eq)]
pub enum TailStep {
    /// Read what was appended and count it.
    Read,
    /// Wait for the next event.
    Skip,
    /// Stop and open the file again.
    ReOpen,
}

/// The offset to read from next: past the `read` bytes just read at `start`.
pub fn tail_next_offset(start: u64, read: usize) -> (next: u64)
    requires
        start + read <= u64::MAX,
    ensures
        next == start + read,
{
    start + read as u64
}

impl WatchKey {
    /// Whether `content` contains the watched text.
    pub fn is_match(&self, content: &str) -> (r: bool)
        ensures
            r == contains_seq(content@, self.watch_key@),
    {
        is_contain(content, self.watch_key.as_str())
    }
}

/// The step after an event: writes (started or complete) are read, anything
/// else makes the caller open the file again (`TailCode::ReOpen`).
pub fn tail_event_step(ev: WatchEvent) -> (s: TailStep)
    ensures
        s == (match ev {
            WatchEvent::Write => TailStep::Read,
            WatchEvent::NoticeWrite => TailStep::Read,
            WatchEvent::Other => TailStep::ReOpen,
        }),
{
    match ev {
        WatchEvent::Write => TailStep::Read,
        WatchEvent::NoticeWrite => TailStep::Read,
        WatchEvent::Other => TailStep::ReOpen,
    }
}

/// Counts the lines of `disp_str` that contain `wk`'s text, under that text
/// itself. Where a count would pass `u64::MAX` it counts nothing and returns false.
pub fn handle_line(disp_str: String, wk: &WatchKey, counter: &mut CountTable) -> (counted: bool)
    ensures
        counted == fits_u64(add_matches(old(counter)@, seq![(wk.watch_key@, wk.watch_key@)], lines_of(disp_str@))),
        counted ==> final(counter)@ == add_matches(
            old(counter)@,
            seq![(wk.watch_key@, wk.watch_key@)],
            lines_of(disp_str@),
        ),
        !counted ==> final(counter)@ == old(counter)@,
{
    let single = vec![LabelledKey { watch_key: wk.watch_key.clone(), msg: wk.watch_key.clone() }];
    assert(single@.map_values(|w: LabelledKey| (w.watch_key@, w.msg@)) =~= seq![(wk.watch_key@, wk.watch_key@)]);
    count_text_checked(disp_str.as_str(), &single, counter)
}

} // verus!
