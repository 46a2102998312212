//! The session model: one child process behind a pseudo-terminal.
//!
//! The shared state a session's reader thread and the manager agree on is
//! modelled as plain data: the attached flag, the dirty flag and screen
//! epochs, the shutdown request, and the terminal error. The host process
//! owns the actual PTY, parser and threads and drives them exactly as the
//! decisions below say; `reader_step` is one iteration of the reader
//! thread's loop.

use vstd::prelude::*;

verus! {

/// Size of the reader thread's buffer.
pub const BUF_SIZE: usize = 8192;

/// Scrollback lines the emulator keeps.
pub const SCROLLBACK: usize = 1000;

/// A packed (rows, cols) cell, shared across threads by the host.
pub struct SharedSize {
    pub packed: u32,
}

/// The packed form of a (rows, cols) pair.
pub open spec fn pack_spec(rows: u16, cols: u16) -> u32 {
    ((rows as u32) << 16u32) | (cols as u32)
}

/// The rows half of a packed size.
pub open spec fn rows_of(packed: u32) -> u16 {
    (packed >> 16u32) as u16
}

/// The cols half of a packed size.
pub open spec fn cols_of(packed: u32) -> u16 {
    (packed & 0xFFFFu32) as u16
}

/// Packing then unpacking returns the pair.
pub proof fn lemma_pack_round_trip(rows: u16, cols: u16)
    ensures
        rows_of(pack_spec(rows, cols)) == rows,
        cols_of(pack_spec(rows, cols)) == cols,
{
    assert(((((rows as u32) << 16u32) | (cols as u32)) >> 16u32) as u16 == rows)
        by (bit_vector);
    assert(((((rows as u32) << 16u32) | (cols as u32)) & 0xFFFFu32) as u16 == cols)
        by (bit_vector);
}

impl SharedSize {
    /// The rows this cell holds.
    pub open spec fn rows(self) -> u16 {
        rows_of(self.packed)
    }

    /// The cols this cell holds.
    pub open spec fn cols(self) -> u16 {
        cols_of(self.packed)
    }

    /// Pack a (rows, cols) pair into one 32-bit word.
    pub fn pack_size(rows: u16, cols: u16) -> (r: u32)
        ensures
            r == pack_spec(rows, cols),
            rows_of(r) == rows,
            cols_of(r) == cols,
    {
        proof {
            lemma_pack_round_trip(rows, cols);
        }
        ((rows as u32) << 16u32) | (cols as u32)
    }

    /// A cell holding the given size.
    pub fn new(rows: u16, cols: u16) -> (s: Self)
        ensures
            s.rows() == rows,
            s.cols() == cols,
    {
        SharedSize { packed: Self::pack_size(rows, cols) }
    }

    /// Read the stored size.
    pub fn get(&self) -> (r: (u16, u16))
        ensures
            r.0 == self.rows(),
            r.1 == self.cols(),
    {
        let rows = (self.packed >> 16u32) as u16;
        let cols = (self.packed & 0xFFFFu32) as u16;
        proof {
            assert((self.packed >> 16u32) as u16 == rows_of(self.packed));
            assert((self.packed & 0xFFFFu32) as u16 == cols_of(self.packed));
        }
        (rows, cols)
    }

    /// Store a new size.
    pub fn set(&mut self, rows: u16, cols: u16)
        ensures
            final(self).rows() == rows,
            final(self).cols() == cols,
    {
        self.packed = Self::pack_size(rows, cols);
    }
}

/// What one read from the PTY master returned, as the host observed it.
pub enum ReadOutcome {
    /// End of file: the child exited.
    Eof,
    /// Data arrived; `probe` is the PTY's answer to the size query that
    /// follows a successful read.
    Data { len: usize, probe: SizeProbe },
    /// A read error the host classified as the child being gone.
    ChildGone,
    /// Any other read error, with the OS message.
    OsError { message: String },
}

/// The PTY's answer to a size query.
pub enum SizeProbe {
    Size { rows: u16, cols: u16 },
    ProbeFailed { message: String },
}

/// What the reader thread must do after one iteration.
pub enum ReaderDirective {
    /// The thread exits; the session is dead.
    Exit,
    /// Feed the read bytes to the parser; resize the PTY first when asked.
    Feed { resize: bool },
}

/// One session's shared state.
pub struct Session {
    /// A number the host picks to tie this state to its PTY and threads.
    pub id: u64,
    /// Whether the session is attached (user-visible).
    pub active: bool,
    /// Set when the parser has consumed output the cache has not seen.
    pub dirty: bool,
    /// Set once by `shutdown`; the reader thread exits on seeing it.
    pub shutdown_requested: bool,
    /// The terminal error, set once the session died.
    pub session_error: Option<String>,
    /// How many reads the parser has consumed.
    pub parser_epoch: Ghost<nat>,
    /// The read the cached screen snapshot reflects.
    pub cached_epoch: Ghost<nat>,
    /// Every byte queued for the child, in order; the host writes and drains
    /// this through the PTY writer.
    pub written: Vec<u8>,
    /// What the child was spawned as.
    pub command: String,
    pub args: Vec<String>,
    pub cwd: String,
}

impl Session {
    /// A clean cache reflects the parser's latest read.
    pub open spec fn wf(self) -> bool {
        !self.dirty ==> self.cached_epoch@ == self.parser_epoch@
    }

    /// Whether the session has died.
    pub open spec fn is_dead_spec(self) -> bool {
        self.session_error is Some
    }

    /// The recorded error text, if any.
    pub open spec fn error_text(self) -> Option<Seq<char>> {
        match self.session_error {
            Some(m) => Some(m@),
            None => None,
        }
    }

    /// The session after a shutdown request.
    pub open spec fn after_shutdown(self) -> Session {
        Session { shutdown_requested: true, ..self }
    }

    /// Check if the session has died (its reader recorded an error).
    pub fn is_dead(&self) -> (r: bool)
        ensures
            r == self.is_dead_spec(),
    {
        self.session_error.is_some()
    }

    /// Get the error message if the session died.
    pub fn get_error(&self) -> (r: Option<String>)
        ensures
            match r {
                Some(m) => self.error_text() == Some(m@),
                None => self.error_text() is None,
            },
    {
        match &self.session_error {
            Some(m) => Some(m.clone()),
            None => None,
        }
    }

    /// Request shutdown. Idempotent; the host also kills the child, so the
    /// reader thread observes either the request or the child's end.
    pub fn shutdown(&mut self)
        ensures
            *final(self) == old(self).after_shutdown(),
    {
        self.shutdown_requested = true;
    }

    /// Record a failure (a failed resize or write) as the terminal error.
    pub fn record_failure(&mut self, message: String)
        ensures
            *final(self) == (Session { session_error: Some(message), ..*old(self) }),
            final(self).is_dead_spec(),
    {
        self.session_error = Some(message);
    }

    /// One iteration of the reader thread, given what the read returned.
    /// A seen shutdown request, end of file, a read error, or a failed size
    /// probe each end the thread and leave the session dead; data is fed to
    /// the parser, resizing first when the probe disagrees with the shared
    /// size.
    pub fn reader_step(
        &mut self,
        outcome: ReadOutcome,
        shared_rows: u16,
        shared_cols: u16,
    ) -> (d: ReaderDirective)
        requires
            old(self).wf(),
        ensures
            final(self).wf(),
            final(self).active == old(self).active,
            final(self).shutdown_requested == old(self).shutdown_requested,
            final(self).written == old(self).written,
            final(self).command == old(self).command,
            final(self).args == old(self).args,
            final(self).cwd == old(self).cwd,
            old(self).shutdown_requested ==> d is Exit,
            d is Exit ==> final(self).is_dead_spec(),
            d is Exit ==> final(self).dirty == old(self).dirty && final(self).parser_epoch
                == old(self).parser_epoch && final(self).cached_epoch
                == old(self).cached_epoch,
            old(self).shutdown_requested ==> final(self).error_text() == Some(
                "Process exited"@,
            ),
            !old(self).shutdown_requested ==> match outcome {
                ReadOutcome::Eof => d is Exit && final(self).error_text() == Some(
                    "Process exited"@,
                ),
                ReadOutcome::ChildGone => d is Exit && final(self).error_text() == Some(
                    "Process exited"@,
                ),
                ReadOutcome::OsError { message } => d is Exit && final(self).error_text()
                    == Some("PTY read error: "@ + message@),
                ReadOutcome::Data { len, probe } => match probe {
                    SizeProbe::Size { rows, cols } => {
                        &&& d == (ReaderDirective::Feed {
                            resize: rows != shared_rows || cols != shared_cols,
                        })
                        &&& final(self).dirty
                        &&& final(self).parser_epoch@ == old(self).parser_epoch@ + 1
                        &&& final(self).session_error == old(self).session_error
                    },
                    SizeProbe::ProbeFailed { message } => d is Exit
                        && final(self).error_text()
                        == Some("PTY error: failed to get size: "@ + message@),
                },
            },
    {
        if self.shutdown_requested {
            self.session_error = Some("Process exited".to_owned());
            return ReaderDirective::Exit;
        }
        match outcome {
            ReadOutcome::Eof => {
                self.session_error = Some("Process exited".to_owned());
                ReaderDirective::Exit
            }
            ReadOutcome::ChildGone => {
                self.session_error = Some("Process exited".to_owned());
                ReaderDirective::Exit
            }
            ReadOutcome::OsError { message } => {
                let text = "PTY read error: ".to_owned().concat(message.as_str());
                self.session_error = Some(text);
                ReaderDirective::Exit
            }
            ReadOutcome::Data { len: _, probe } => match probe {
                SizeProbe::ProbeFailed { message } => {
                    let text = "PTY error: failed to get size: ".to_owned().concat(
                        message.as_str(),
                    );
                    self.session_error = Some(text);
                    ReaderDirective::Exit
                }
                SizeProbe::Size { rows, cols } => {
                    let resize = rows != shared_rows || cols != shared_cols;
                    self.parser_epoch = Ghost(self.parser_epoch@ + 1);
                    self.dirty = true;
                    ReaderDirective::Feed { resize }
                }
            },
        }
    }

    /// Take the current screen snapshot: when the parser has new output, the
    /// cache catches up first. Returns the epoch the returned snapshot
    /// reflects.
    pub fn get_screen(&mut self) -> (epoch: Ghost<nat>)
        requires
            old(self).wf(),
        ensures
            final(self).wf(),
            !final(self).dirty,
            final(self).cached_epoch@ == old(self).parser_epoch@,
            epoch@ == final(self).cached_epoch@,
            final(self).parser_epoch == old(self).parser_epoch,
            final(self).active == old(self).active,
            final(self).shutdown_requested == old(self).shutdown_requested,
            final(self).session_error == old(self).session_error,
            final(self).written == old(self).written,
            final(self).command == old(self).command,
            final(self).args == old(self).args,
            final(self).cwd == old(self).cwd,
    {
        if self.dirty {
            self.dirty = false;
            self.cached_epoch = Ghost(self.parser_epoch@);
        }
        Ghost(self.cached_epoch@)
    }
}

/// The answers owed to terminal status queries the emulator cannot handle
/// itself. The host's emulator callback asks here and writes the answer
/// back to the child.
pub struct TerminalCallbacks;

impl TerminalCallbacks {
    pub fn new() -> (r: Self) {
        TerminalCallbacks
    }

    /// The response to an unhandled CSI query: operating-status and
    /// cursor-position reports, primary and secondary device attributes,
    /// and the extended cursor-position report; anything else gets none.
    /// `intermediate` is the sequence's intermediate byte, `c` its final
    /// character, and `param` its first parameter, if any.
    pub fn csi_response(
        &self,
        intermediate: Option<u8>,
        c: char,
        param: Option<u16>,
        cursor_row: u16,
        cursor_col: u16,
    ) -> (r: Option<String>)
        ensures
            intermediate is None && c == 'n' && param == Some(5u16) ==> r is Some
                && (r->0)@ == "\x1b[0n"@,
            intermediate is None && c == 'n' && param == Some(6u16) ==> r is Some
                && (r->0)@ == "\x1b["@ + crate::util::dec_digits((cursor_row + 1) as nat)
                + ";"@ + crate::util::dec_digits((cursor_col + 1) as nat) + "R"@,
            intermediate is None && c == 'c' && (param is None || param == Some(0u16))
                ==> r is Some && (r->0)@ == "\x1b[?62;1;2;6;22c"@,
            intermediate == Some(62u8) && c == 'c' && (param is None || param == Some(
                0u16,
            )) ==> r is Some && (r->0)@ == "\x1b[>0;0;0c"@,
            intermediate == Some(63u8) && c == 'n' && param == Some(6u16) ==> r is Some
                && (r->0)@ == "\x1b[?"@ + crate::util::dec_digits((cursor_row + 1) as nat)
                + ";"@ + crate::util::dec_digits((cursor_col + 1) as nat) + "R"@,
            !((intermediate is None && c == 'n' && param == Some(5u16)) || (intermediate
                is None && c == 'n' && param == Some(6u16)) || (intermediate is None && c
                == 'c' && (param is None || param == Some(0u16))) || (intermediate == Some(
                62u8,
            ) && c == 'c' && (param is None || param == Some(0u16))) || (intermediate
                == Some(63u8) && c == 'n' && param == Some(6u16))) ==> r is None,
    {
        let row_text = crate::util::usize_to_string((cursor_row as usize) + 1);
        let col_text = crate::util::usize_to_string((cursor_col as usize) + 1);
        let p0 = match param {
            Some(p) => p == 0,
            None => false,
        };
        let p5 = match param {
            Some(p) => p == 5,
            None => false,
        };
        let p6 = match param {
            Some(p) => p == 6,
            None => false,
        };
        let p_none = match param {
            Some(_) => false,
            None => true,
        };
        match (intermediate, c) {
            (None, 'n') => {
                if p5 {
                    Some("\x1b[0n".to_owned())
                } else if p6 {
                    let t = "\x1b[".to_owned().concat(row_text.as_str()).concat(
                        ";",
                    ).concat(col_text.as_str()).concat("R");
                    Some(t)
                } else {
                    None
                }
            }
            (None, 'c') => {
                if p_none || p0 {
                    Some("\x1b[?62;1;2;6;22c".to_owned())
                } else {
                    None
                }
            }
            (Some(i), 'c') => {
                if i == 62 && (p_none || p0) {
                    Some("\x1b[>0;0;0c".to_owned())
                } else {
                    None
                }
            }
            (Some(i), 'n') => {
                if i == 63 && p6 {
                    let t = "\x1b[?".to_owned().concat(row_text.as_str()).concat(
                        ";",
                    ).concat(col_text.as_str()).concat("R");
                    Some(t)
                } else {
                    None
                }
            }
            _ => None,
        }
    }
}

/// A clean dirty flag means the cached screen reflects the parser's most
/// recent read.
pub proof fn lemma_clean_cache_is_current(s: Session)
    requires
        s.wf(),
        !s.dirty,
    ensures
        s.cached_epoch@ == s.parser_epoch@,
{
}

/// Requesting shutdown twice has the same effect as once.
pub proof fn lemma_shutdown_idempotent(s: Session)
    ensures
        s.after_shutdown().after_shutdown() == s.after_shutdown(),
{
}

/// A session that is detached: running, not user-visible.
pub struct DetachedSession(pub Session);

/// A session that is attached to the terminal: the user can interact with it.
pub struct AttachedSession(pub Session);

impl DetachedSession {
    /// Mark the session attached again.
    pub fn attach(self) -> (r: AttachedSession)
        ensures
            r.0 == (Session { active: true, ..self.0 }),
    {
        let mut s = self.0;
        s.active = true;
        AttachedSession(s)
    }

    /// The underlying session state.
    pub fn session(&self) -> (r: &Session)
        ensures
            *r == self.0,
    {
        &self.0
    }
}

impl AttachedSession {
    /// A fresh attached session, as the host spawned it: visible, clean,
    /// alive, nothing written yet.
    pub fn new(id: u64, command: String, args: Vec<String>, cwd: String) -> (r: Self)
        ensures
            r.0.id == id,
            r.0.active,
            !r.0.dirty,
            !r.0.shutdown_requested,
            r.0.session_error is None,
            r.0.parser_epoch@ == 0,
            r.0.cached_epoch@ == 0,
            r.0.written@.len() == 0,
            r.0.command == command,
            r.0.args == args,
            r.0.cwd == cwd,
            r.0.wf(),
    {
        AttachedSession(
            Session {
                id,
                active: true,
                dirty: false,
                shutdown_requested: false,
                session_error: None,
                parser_epoch: Ghost(0),
                cached_epoch: Ghost(0),
                written: Vec::new(),
                command,
                args,
                cwd,
            },
        )
    }

    /// Mark the session detached; its reader keeps running.
    pub fn detach(self) -> (r: DetachedSession)
        ensures
            r.0 == (Session { active: false, ..self.0 }),
    {
        let mut s = self.0;
        s.active = false;
        DetachedSession(s)
    }

    /// Queue input bytes for the child. Only an attached session offers this.
    pub fn write_input(&mut self, data: &[u8])
        ensures
            final(self).0 == (Session { written: final(self).0.written, ..old(self).0 }),
            final(self).0.written@ == old(self).0.written@ + data@,
    {
        let n = data.len();
        let mut i: usize = 0;
        while i < n
            invariant
                n == data@.len(),
                i <= n,
                self.0.written@ == old(self).0.written@ + data@.take(i as int),
                self.0 == (Session { written: self.0.written, ..old(self).0 }),
            decreases n - i,
        {
            self.0.written.push(data[i]);
            proof {
                assert(self.0.written@ =~= old(self).0.written@ + data@.take(i + 1));
            }
            i += 1;
        }
        proof {
            assert(self.0.written@ =~= old(self).0.written@ + data@);
        }
    }

    /// The underlying session state.
    pub fn session(&self) -> (r: &Session)
        ensures
            *r == self.0,
    {
        &self.0
    }
}

} // verus!
