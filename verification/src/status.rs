//! Status messages, the status bar's decay, and the capped event log.

use vstd::prelude::*;

verus! {

/// How long a message stays on the bar, in milliseconds.
pub const MESSAGE_TIMEOUT_MS: u64 = 30000;

/// Most lines the event log keeps.
pub const MAX_LOG_LINES: usize = 1000;

/// Severity of a status message.
#[derive(Clone, Copy, PartialEq, Eq, Structural, Debug)]
pub enum StatusLevel {
    Error,
    Info,
}

/// One status message: what the bar shows and what the log records.
#[derive(Debug)]
pub struct StatusMessage {
    pub level: StatusLevel,
    pub display_message: String,
    pub log_message: String,
}

impl StatusMessage {
    /// A message of the given level.
    pub fn new(level: StatusLevel, display_message: String, log_message: String) -> (m: Self)
        ensures
            m.level == level,
            m.display_message == display_message,
            m.log_message == log_message,
    {
        StatusMessage { level, display_message, log_message }
    }

    /// An error message.
    pub fn err(display: String, log: String) -> (m: Self)
        ensures
            m.level == StatusLevel::Error,
            m.display_message == display,
            m.log_message == log,
    {
        Self::new(StatusLevel::Error, display, log)
    }

    /// An informational message.
    pub fn info(display: String, log: String) -> (m: Self)
        ensures
            m.level == StatusLevel::Info,
            m.display_message == display,
            m.log_message == log,
    {
        Self::new(StatusLevel::Info, display, log)
    }
}

impl Clone for StatusMessage {
    fn clone(&self) -> (r: Self)
        ensures
            r == *self,
    {
        StatusMessage {
            level: self.level,
            display_message: self.display_message.clone(),
            log_message: self.log_message.clone(),
        }
    }
}

/// The status bar: the message currently shown, if any, and when it arrived.
pub struct StatusBar {
    pub current: Option<StatusMessage>,
    pub current_since: u64,
}

impl StatusBar {
    /// An empty bar.
    pub fn new() -> (b: Self)
        ensures
            b.current is None,
    {
        StatusBar { current: None, current_since: 0 }
    }

    /// Absorb newly arrived messages and expire an old one: the latest
    /// arrival wins; with none, a message older than the timeout goes away.
    pub fn update(&mut self, now_ms: u64, incoming: Vec<StatusMessage>)
        ensures
            incoming@.len() > 0 ==> final(self).current == Some(incoming@.last())
                && final(self).current_since == now_ms,
            incoming@.len() == 0 && old(self).current is Some && now_ms
                >= old(self).current_since + MESSAGE_TIMEOUT_MS ==> final(self).current
                is None,
            incoming@.len() == 0 && !(old(self).current is Some && now_ms
                >= old(self).current_since + MESSAGE_TIMEOUT_MS) ==> *final(self) == *old(
                self,
            ),
    {
        let n = incoming.len();
        if n > 0 {
            let last = incoming[n - 1].clone();
            self.current = Some(last);
            self.current_since = now_ms;
        } else {
            match &self.current {
                Some(_) => {
                    if now_ms >= self.current_since
                        && now_ms - self.current_since >= MESSAGE_TIMEOUT_MS {
                        self.current = None;
                    }
                }
                None => {}
            }
        }
    }

    /// The message the bar shows now, if any.
    pub fn current_message(&self) -> (r: Option<&StatusMessage>)
        ensures
            match r {
                Some(m) => self.current == Some(*m),
                None => self.current is None,
            },
    {
        match &self.current {
            Some(m) => Some(m),
            None => None,
        }
    }
}

/// Append an entry to a log, keeping only the newest `MAX_LOG_LINES` lines.
pub fn append_capped(lines: &mut Vec<String>, entry: String)
    ensures
        final(lines)@ == {
            let grown = old(lines)@.push(entry);
            if grown.len() <= MAX_LOG_LINES {
                grown
            } else {
                grown.skip(grown.len() - MAX_LOG_LINES)
            }
        },
{
    let ghost grown = lines@.push(entry);
    lines.push(entry);
    proof {
        assert(lines@ == grown);
        assert(lines@ =~= grown.skip(0));
    }
    while lines.len() > MAX_LOG_LINES
        invariant
            lines@ == grown.skip(grown.len() - lines@.len()),
            lines@.len() <= grown.len(),
            lines@.len() >= MAX_LOG_LINES || lines@.len() == grown.len(),
        decreases lines@.len(),
    {
        let _ = lines.remove(0);
        proof {
            assert(lines@ =~= grown.skip(grown.len() - lines@.len()));
        }
    }
    proof {
        if grown.len() <= MAX_LOG_LINES {
            assert(lines@ =~= grown);
        }
    }
}

} // verus!
