//! Status events sent by hooks over the status socket, and the line format
//! they arrive in.
//!
//! A line reads `{"session":"name","event":"stop"}` (or `"notification"`).
//! Parsing mirrors the format exactly: trim the line, require braces, split
//! the inside at commas, split each part once at a colon, trim and unquote
//! both sides; the last `session` and `event` keys win, and both must be
//! present.

use vstd::prelude::*;

use crate::util::chars_to_string;
use crate::util::str_chars;
use crate::util::str_eq;
use crate::util::trim_range;
use crate::util::trim_spec;

verus! {

/// Events received from hooks via the status socket.
pub struct StatusEvent {
    pub session: String,
    pub event: EventKind,
}

#[derive(Debug, Clone, Copy, PartialEq, Eq, Structural)]
pub enum EventKind {
    Stop,
    Notification,
}

/// First index at or after `i` holding `c`.
pub open spec fn find_ch(b: Seq<char>, c: char, i: int) -> Option<int>
    decreases b.len() - i,
{
    if i < 0 || i >= b.len() {
        None
    } else if b[i] == c {
        Some(i)
    } else {
        find_ch(b, c, i + 1)
    }
}

proof fn lemma_find_ch_bounds(b: Seq<char>, c: char, i: int)
    requires
        find_ch(b, c, i) is Some,
    ensures
        i <= find_ch(b, c, i)->0 < b.len(),
        b[find_ch(b, c, i)->0] == c,
    decreases b.len() - i,
{
    if !(0 <= i < b.len()) {
    } else if b[i] == c {
    } else {
        lemma_find_ch_bounds(b, c, i + 1);
    }
}

/// `s` without leading quote characters.
pub open spec fn strip_quotes_front(s: Seq<char>) -> Seq<char>
    decreases s.len(),
{
    if s.len() > 0 && s[0] == '"' {
        strip_quotes_front(s.drop_first())
    } else {
        s
    }
}

/// `s` without trailing quote characters.
pub open spec fn strip_quotes_back(s: Seq<char>) -> Seq<char>
    decreases s.len(),
{
    if s.len() > 0 && s.last() == '"' {
        strip_quotes_back(s.drop_last())
    } else {
        s
    }
}

/// `s` without surrounding quote characters.
pub open spec fn strip_quotes(s: Seq<char>) -> Seq<char> {
    strip_quotes_back(strip_quotes_front(s))
}

/// Split at the first colon: the text before it and after it.
pub open spec fn split_once_colon(p: Seq<char>) -> Option<(Seq<char>, Seq<char>)> {
    match find_ch(p, ':', 0) {
        Some(i) => Some((p.take(i), p.skip(i + 1))),
        None => None,
    }
}

/// The event kind a value names.
pub open spec fn kind_of_value(v: Seq<char>) -> Option<EventKind> {
    if v == "stop"@ {
        Some(EventKind::Stop)
    } else if v == "notification"@ {
        Some(EventKind::Notification)
    } else {
        None
    }
}

/// The parser's state: the session and event seen so far.
pub type ParseState = (Option<Seq<char>>, Option<EventKind>);

/// Absorb one `key:value` part into the state.
pub open spec fn apply_part(st: ParseState, part: Seq<char>) -> ParseState {
    let p = trim_spec(part);
    match split_once_colon(p) {
        None => st,
        Some(kv) => {
            let key = strip_quotes(trim_spec(kv.0));
            let value = strip_quotes(trim_spec(kv.1));
            if key == "session"@ {
                (Some(value), st.1)
            } else if key == "event"@ {
                (st.0, kind_of_value(value))
            } else {
                st
            }
        },
    }
}

/// The comma-separated parts of `s`, in order.
pub open spec fn parts_of(s: Seq<char>) -> Seq<Seq<char>>
    decreases s.len()
    via parts_of_dec
{
    match find_ch(s, ',', 0) {
        None => seq![s],
        Some(i) => seq![s.take(i)] + parts_of(s.skip(i + 1)),
    }
}

#[via_fn]
proof fn parts_of_dec(s: Seq<char>) {
    if find_ch(s, ',', 0) is Some {
        lemma_find_ch_bounds(s, ',', 0);
    }
}

/// Fold the parts into a parse state.
pub open spec fn fold_parts(st: ParseState, parts: Seq<Seq<char>>) -> ParseState
    decreases parts.len(),
{
    if parts.len() == 0 {
        st
    } else {
        fold_parts(apply_part(st, parts[0]), parts.drop_first())
    }
}

/// What a line parses to: the session name and event kind, when the line is
/// a braced object giving both.
pub open spec fn parse_event_spec(line: Seq<char>) -> Option<(Seq<char>, EventKind)> {
    let t = trim_spec(line);
    if t.len() >= 2 && t[0] == '{' && t.last() == '}' {
        let inner = t.subrange(1, t.len() - 1);
        let st = fold_parts((None, None), parts_of(inner));
        match st {
            (Some(session), Some(event)) => Some((session, event)),
            _ => None,
        }
    } else {
        None
    }
}

/// The characters of `v[lo..hi]` as a string.
fn range_string(v: &Vec<char>, lo: usize, hi: usize) -> (r: String)
    requires
        lo <= hi <= v@.len(),
    ensures
        r@ == v@.subrange(lo as int, hi as int),
{
    let mut out: Vec<char> = Vec::new();
    let mut i: usize = lo;
    while i < hi
        invariant
            lo <= i <= hi <= v@.len(),
            out@ == v@.subrange(lo as int, i as int),
        decreases hi - i,
    {
        out.push(v[i]);
        proof {
            assert(out@ =~= v@.subrange(lo as int, i + 1));
        }
        i += 1;
    }
    chars_to_string(&out)
}

/// First `c` at index in `[lo, hi)`, against `find_ch` of the subrange.
fn find_ch_in(v: &Vec<char>, lo: usize, hi: usize, c: char) -> (r: Option<usize>)
    requires
        lo <= hi <= v@.len(),
    ensures
        match r {
            Some(t) => lo <= t < hi && find_ch(v@.subrange(lo as int, hi as int), c, 0)
                == Some(t - lo),
            None => find_ch(v@.subrange(lo as int, hi as int), c, 0) is None,
        },
{
    let ghost sub = v@.subrange(lo as int, hi as int);
    let mut i: usize = lo;
    while i < hi
        invariant
            lo <= i <= hi <= v@.len(),
            sub == v@.subrange(lo as int, hi as int),
            find_ch(sub, c, 0) == find_ch(sub, c, i - lo),
        decreases hi - i,
    {
        proof {
            assert(sub[i - lo] == v@[i as int]);
        }
        if v[i] == c {
            return Some(i);
        }
        i += 1;
    }
    None
}

/// The bounds of `v[lo..hi]` with surrounding quote characters dropped.
fn strip_quotes_range(v: &Vec<char>, lo: usize, hi: usize) -> (r: (usize, usize))
    requires
        lo <= hi <= v@.len(),
    ensures
        lo <= r.0 <= r.1 <= hi,
        v@.subrange(r.0 as int, r.1 as int) == strip_quotes(
            v@.subrange(lo as int, hi as int),
        ),
{
    let mut a: usize = lo;
    while a < hi && v[a] == '"'
        invariant
            lo <= a <= hi <= v@.len(),
            strip_quotes_front(v@.subrange(lo as int, hi as int)) == strip_quotes_front(
                v@.subrange(a as int, hi as int),
            ),
        decreases hi - a,
    {
        proof {
            assert(v@.subrange(a as int, hi as int)[0] == v@[a as int]);
            assert(v@.subrange(a as int, hi as int).drop_first() =~= v@.subrange(
                a + 1,
                hi as int,
            ));
        }
        a += 1;
    }
    proof {
        let sub = v@.subrange(a as int, hi as int);
        if sub.len() > 0 {
            assert(sub[0] == v@[a as int]);
        }
        assert(strip_quotes_front(sub) == sub);
    }
    let mut b: usize = hi;
    while b > a && v[b - 1] == '"'
        invariant
            lo <= a <= b <= hi <= v@.len(),
            strip_quotes_front(v@.subrange(lo as int, hi as int)) == v@.subrange(
                a as int,
                hi as int,
            ),
            strip_quotes_back(v@.subrange(a as int, hi as int)) == strip_quotes_back(
                v@.subrange(a as int, b as int),
            ),
        decreases b,
    {
        proof {
            let sub = v@.subrange(a as int, b as int);
            assert(sub.last() == v@[b - 1]);
            assert(sub.drop_last() =~= v@.subrange(a as int, b - 1));
        }
        b -= 1;
    }
    proof {
        let sub = v@.subrange(a as int, b as int);
        if sub.len() > 0 {
            assert(sub.last() == v@[b - 1]);
        }
        assert(strip_quotes_back(sub) == sub);
    }
    (a, b)
}

/// Absorb one part, `v[a..b]`, into the session/event state, against
/// `apply_part`.
fn apply_part_exec(
    v: &Vec<char>,
    a: usize,
    b: usize,
    session: Option<String>,
    event: Option<EventKind>,
) -> (r: (Option<String>, Option<EventKind>))
    requires
        a <= b <= v@.len(),
    ensures
        state_of(r.0, r.1) == apply_part(
            state_of(session, event),
            v@.subrange(a as int, b as int),
        ),
{
    let ghost part = v@.subrange(a as int, b as int);
    let (ta, tb) = trim_range(v, a, b);
    let ghost p = trim_spec(part);
    proof {
        assert(v@.subrange(ta as int, tb as int) == p);
    }
    match find_ch_in(v, ta, tb, ':') {
        None => {
            proof {
                assert(split_once_colon(p) is None);
            }
            (session, event)
        }
        Some(colon) => {
            proof {
                assert(split_once_colon(p) == Some(
                    (p.take(colon - ta), p.skip(colon - ta + 1)),
                ));
                assert(p.take(colon - ta) =~= v@.subrange(ta as int, colon as int));
                assert(p.skip(colon - ta + 1) =~= v@.subrange(colon + 1, tb as int));
            }
            let (ka0, kb0) = trim_range(v, ta, colon);
            let (ka, kb) = strip_quotes_range(v, ka0, kb0);
            let (va0, vb0) = trim_range(v, colon + 1, tb);
            let (va, vb) = strip_quotes_range(v, va0, vb0);
            let ghost key = strip_quotes(trim_spec(p.take(colon - ta)));
            let ghost value = strip_quotes(trim_spec(p.skip(colon - ta + 1)));
            proof {
                assert(v@.subrange(ka as int, kb as int) == key);
                assert(v@.subrange(va as int, vb as int) == value);
            }
            let key_s = range_string(v, ka, kb);
            if str_eq(key_s.as_str(), "session") {
                let value_s = range_string(v, va, vb);
                (Some(value_s), event)
            } else if str_eq(key_s.as_str(), "event") {
                let value_s = range_string(v, va, vb);
                let kind: Option<EventKind> = if str_eq(value_s.as_str(), "stop") {
                    Some(EventKind::Stop)
                } else if str_eq(value_s.as_str(), "notification") {
                    Some(EventKind::Notification)
                } else {
                    None
                };
                proof {
                    assert(kind == kind_of_value(value));
                }
                (session, kind)
            } else {
                (session, event)
            }
        }
    }
}

/// The spec view of the parser's running state.
pub open spec fn state_of(session: Option<String>, event: Option<EventKind>) -> ParseState {
    (
        match session {
            Some(s) => Some(s@),
            None => None,
        },
        event,
    )
}

impl StatusEvent {
    /// Parse one line from the status socket, against `parse_event_spec`.
    pub fn parse_event(line: &str) -> (r: Option<StatusEvent>)
        ensures
            match r {
                Some(ev) => parse_event_spec(line@) == Some((ev.session@, ev.event)),
                None => parse_event_spec(line@) is None,
            },
    {
        let v = str_chars(line);
        let (lo, hi) = trim_range(&v, 0, v.len());
        let ghost t = trim_spec(line@);
        proof {
            assert(v@.subrange(0, v@.len() as int) =~= line@);
            assert(v@.subrange(lo as int, hi as int) == t);
        }
        if hi - lo < 2 || v[lo] != '{' || v[hi - 1] != '}' {
            proof {
                if t.len() >= 2 && t[0] == '{' && t.last() == '}' {
                    assert(v@[lo as int] == t[0]);
                    assert(v@[hi - 1] == t.last());
                    assert(false);
                }
            }
            return None;
        }
        proof {
            assert(t.len() >= 2);
            assert(t[0] == v@[lo as int]);
            assert(t.last() == v@[hi - 1]);
        }
        let base = lo + 1;
        let stop = hi - 1;
        let ghost inner = t.subrange(1, t.len() - 1);
        proof {
            assert(inner =~= v@.subrange(base as int, stop as int));
        }

        let mut session: Option<String> = None;
        let mut event: Option<EventKind> = None;
        let mut pos: usize = base;
        let mut done = false;
        while !done
            invariant
                base <= pos <= stop <= v@.len(),
                inner == v@.subrange(base as int, stop as int),
                !done ==> fold_parts((None, None), parts_of(inner)) == fold_parts(
                    state_of(session, event),
                    parts_of(v@.subrange(pos as int, stop as int)),
                ),
                done ==> fold_parts((None, None), parts_of(inner)) == state_of(
                    session,
                    event,
                ),
            decreases stop - pos + (if done { 0int } else { 1int }),
        {
            let ghost remaining = v@.subrange(pos as int, stop as int);
            match find_ch_in(&v, pos, stop, ',') {
                None => {
                    proof {
                        assert(find_ch(remaining, ',', 0) is None);
                        assert(parts_of(remaining) == seq![remaining]);
                    }
                    let ghost old_st = state_of(session, event);
                    let next = apply_part_exec(&v, pos, stop, session, event);
                    session = next.0;
                    event = next.1;
                    proof {
                        assert(state_of(session, event) == apply_part(old_st, remaining));
                        assert(seq![remaining][0] == remaining);
                        assert(seq![remaining].drop_first() =~= Seq::<Seq<char>>::empty());
                        assert(fold_parts(old_st, parts_of(remaining)) == fold_parts(
                            apply_part(old_st, remaining),
                            seq![remaining].drop_first(),
                        ));
                        assert(fold_parts(
                            apply_part(old_st, remaining),
                            Seq::<Seq<char>>::empty(),
                        ) == apply_part(old_st, remaining));
                    }
                    done = true;
                }
                Some(comma) => {
                    proof {
                        assert(find_ch(remaining, ',', 0) == Some(comma - pos));
                        assert(parts_of(remaining) == seq![remaining.take(comma - pos)]
                            + parts_of(remaining.skip(comma - pos + 1)));
                        assert(remaining.take(comma - pos) =~= v@.subrange(
                            pos as int,
                            comma as int,
                        ));
                        assert(remaining.skip(comma - pos + 1) =~= v@.subrange(
                            comma + 1,
                            stop as int,
                        ));
                        assert(parts_of(remaining)[0] == remaining.take(comma - pos));
                        assert(parts_of(remaining).drop_first() =~= parts_of(
                            remaining.skip(comma - pos + 1),
                        ));
                    }
                    let ghost old_st = state_of(session, event);
                    let next = apply_part_exec(&v, pos, comma, session, event);
                    session = next.0;
                    event = next.1;
                    proof {
                        assert(state_of(session, event) == apply_part(
                            old_st,
                            remaining.take(comma - pos),
                        ));
                        assert(fold_parts(old_st, parts_of(remaining)) == fold_parts(
                            apply_part(old_st, remaining.take(comma - pos)),
                            parts_of(remaining).drop_first(),
                        ));
                    }
                    pos = comma + 1;
                }
            }
        }

        match (session, event) {
            (Some(s), Some(e)) => Some(StatusEvent { session: s, event: e }),
            _ => None,
        }
    }
}

} // verus!
