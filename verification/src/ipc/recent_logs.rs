//! The last log lines, for clients that connect later.

use crate::ipc::protocol::{DaemonMessage, LogLine};
use std::collections::VecDeque;
use vstd::prelude::*;

verus! {

/// How many lines are kept.
pub const RECENT_LOG_CAP: usize = 100;

/// A ring of the last log lines. Other messages never push lines out of it.
pub struct RecentLogs {
    lines: VecDeque<LogLine>,
}

/// At most the last `n` elements.
pub open spec fn last_of<T>(s: Seq<T>, n: int) -> Seq<T> {
    if s.len() <= n {
        s
    } else {
        s.skip(s.len() - n)
    }
}

/// The log lines among some messages.
pub open spec fn log_lines(messages: Seq<DaemonMessage>) -> Seq<LogLine>
    decreases messages.len(),
{
    if messages.len() == 0 {
        Seq::empty()
    } else {
        let before = log_lines(messages.drop_last());
        match messages.last() {
            DaemonMessage::Log(line) => before.push(line),
            _ => before,
        }
    }
}

impl View for RecentLogs {
    type V = Seq<LogLine>;

    closed spec fn view(&self) -> Seq<LogLine> {
        self.lines@
    }
}

/// The ring after one more message.
pub open spec fn recorded(lines: Seq<LogLine>, message: DaemonMessage) -> Seq<LogLine> {
    match message {
        DaemonMessage::Log(line) => last_of(lines.push(line), RECENT_LOG_CAP as int),
        _ => lines,
    }
}

impl RecentLogs {
    pub fn new() -> (r: Self)
        ensures
            r@ == Seq::<LogLine>::empty(),
    {
        RecentLogs { lines: VecDeque::new() }
    }

    /// Takes in one message of the daemon.
    pub fn record(&mut self, message: DaemonMessage)
        requires
            old(self)@.len() <= RECENT_LOG_CAP,
        ensures
            final(self)@ == recorded(old(self)@, message),
            final(self)@.len() <= RECENT_LOG_CAP,
    {
        let ghost start = self@;
        match message {
            DaemonMessage::Log(line) => {
                if self.lines.len() >= RECENT_LOG_CAP {
                    self.lines.pop_front();
                }
                self.lines.push_back(line);
                assert(self@ =~= last_of(start.push(line), RECENT_LOG_CAP as int));
            },
            _ => {},
        }
    }

    /// Number of kept lines.
    pub fn len(&self) -> (r: usize)
        ensures
            r == self@.len(),
    {
        self.lines.len()
    }

    /// The line at position `i`, the oldest first.
    pub fn line(&self, i: usize) -> (r: &LogLine)
        requires
            i < self@.len(),
        ensures
            *r == self@[i as int],
    {
        &self.lines[i]
    }
}

/// The ring after all of some messages, from the first to the last.
pub open spec fn replayed(messages: Seq<DaemonMessage>) -> Seq<LogLine>
    decreases messages.len(),
{
    if messages.len() == 0 {
        Seq::empty()
    } else {
        recorded(replayed(messages.drop_last()), messages.last())
    }
}

/// The ring always holds the last log lines: as many as fit, in order, whatever else was sent
/// in between.
pub proof fn law_ring_holds_last_lines(messages: Seq<DaemonMessage>)
    ensures
        replayed(messages) == last_of(log_lines(messages), RECENT_LOG_CAP as int),
    decreases messages.len(),
{
    if messages.len() > 0 {
        law_ring_holds_last_lines(messages.drop_last());
        let before = log_lines(messages.drop_last());
        match messages.last() {
            DaemonMessage::Log(line) => {
                assert(last_of(
                    last_of(before, RECENT_LOG_CAP as int).push(line),
                    RECENT_LOG_CAP as int,
                ) =~= last_of(before.push(line), RECENT_LOG_CAP as int));
            },
            _ => {},
        }
    }
}

/// The log lines among messages are those of the log messages, in their order.
pub proof fn law_log_lines_are_those_of_log_messages(messages: Seq<DaemonMessage>, i: int)
    ensures
        log_lines(messages).len() == messages.filter(|m: DaemonMessage| m is Log).len(),
        0 <= i < log_lines(messages).len() ==> messages.filter(|m: DaemonMessage| m is Log)[i]
            == DaemonMessage::Log(log_lines(messages)[i]),
    decreases messages.len(),
{
    let keep = |m: DaemonMessage| m is Log;
    reveal(Seq::filter);
    if messages.len() > 0 {
        let init = messages.drop_last();
        law_log_lines_are_those_of_log_messages(init, i);
        crate::text::lemma_filter_push(init, messages.last(), keep);
        assert(init.push(messages.last()) =~= messages);
    }
}

/// The ring holds a hundred lines at most, all lines as long as there are no more, and otherwise
/// the last hundred in their order.
pub proof fn law_ring_holds_a_hundred_lines(messages: Seq<DaemonMessage>, i: int)
    ensures
        replayed(messages).len() <= 100,
        log_lines(messages).len() <= 100 ==> replayed(messages) == log_lines(messages),
        log_lines(messages).len() > 100 ==> replayed(messages).len() == 100,
        0 <= i < replayed(messages).len() ==> replayed(messages)[i] == log_lines(messages)[i
            + log_lines(messages).len() - replayed(messages).len()],
{
    law_ring_holds_last_lines(messages);
}

} // verus!
