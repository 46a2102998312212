//! Mouse-escape-sequence interception.
//!
//! Input read from the host terminal may carry mouse reports in two
//! encodings, possibly several in one buffer and interleaved with ordinary
//! key bytes:
//!
//! - SGR: `ESC [ < btn ; col ; row (M|m)`; a button code whose bits
//!   `0b11000011` equal 64 scrolls up, 65 scrolls down.
//! - Legacy: `ESC [ M btn col row` (six bytes); bits `0b11000011` of the
//!   button equal 96 for up, 97 for down.
//!
//! `scan_input` splits a buffer into the accumulated scroll delta of all
//! mouse reports and the remaining non-mouse bytes, which are what may be
//! forwarded to the child.

use vstd::prelude::*;

verus! {

/// Most scrollback lines the viewer may be offset by.
pub const MAX_SCROLLBACK: usize = 1000;

pub const ESC_BYTE: u8 = 0x1b;

/// First index at or after `i` holding `M` or `m`.
pub open spec fn find_term(b: Seq<u8>, i: int) -> Option<int>
    decreases b.len() - i,
{
    if i < 0 || i >= b.len() {
        None
    } else if b[i] == 77 || b[i] == 109 {
        Some(i)
    } else {
        find_term(b, i + 1)
    }
}

/// First index at or after `i` holding `;`.
pub open spec fn find_semi(b: Seq<u8>, i: int) -> Option<int>
    decreases b.len() - i,
{
    if i < 0 || i >= b.len() {
        None
    } else if b[i] == 59 {
        Some(i)
    } else {
        find_semi(b, i + 1)
    }
}

pub open spec fn all_digits(s: Seq<u8>) -> bool {
    forall|i: int| 0 <= i < s.len() ==> 48 <= #[trigger] s[i] <= 57
}

/// The number written in decimal digits.
pub open spec fn dec_value(s: Seq<u8>) -> int
    decreases s.len(),
{
    if s.len() == 0 {
        0
    } else {
        dec_value(s.drop_last()) * 10 + (s.last() - 48)
    }
}

/// A byte parsed from decimal digits; `None` on empty, non-digit or overflow.
pub open spec fn parse_u8_dec(s: Seq<u8>) -> Option<u8> {
    if s.len() > 0 && all_digits(s) && dec_value(s) <= 255 {
        Some(dec_value(s) as u8)
    } else {
        None
    }
}

/// Scroll contribution of a button code under the given up/down codes.
pub open spec fn button_delta(btn: u8, up: u8, down: u8) -> int {
    if btn & 0xc3 == up {
        1
    } else if btn & 0xc3 == down {
        -1
    } else {
        0
    }
}

/// Whether an SGR mouse report starts at `i`.
pub open spec fn sgr_starts(b: Seq<u8>, i: int) -> bool {
    i + 3 <= b.len() && b[i] == 0x1b && b[i + 1] == 91 && b[i + 2] == 60
}

/// Whether a legacy mouse report starts at `i`.
pub open spec fn legacy_starts(b: Seq<u8>, i: int) -> bool {
    i + 6 <= b.len() && b[i] == 0x1b && b[i + 1] == 91 && b[i + 2] == 77
}

/// Scroll contribution of one SGR report `ESC [ < ... (M|m)`.
pub open spec fn sgr_delta(ev: Seq<u8>) -> int {
    match find_semi(ev, 3) {
        Some(sp) => match parse_u8_dec(ev.subrange(3, sp)) {
            Some(btn) => button_delta(btn, 64, 65),
            None => 0,
        },
        None => 0,
    }
}

/// One pass over a buffer: the summed scroll delta of every mouse report in
/// it, and the bytes that are not part of any mouse report, in order.
pub open spec fn scan_spec(b: Seq<u8>) -> (int, Seq<u8>)
    decreases b.len()
    via scan_spec_dec
{
    if b.len() == 0 {
        (0, b)
    } else if sgr_starts(b, 0) && find_term(b, 3) is Some {
        let t = find_term(b, 3)->0;
        let rest = scan_spec(b.skip(t + 1));
        (sgr_delta(b.take(t + 1)) + rest.0, rest.1)
    } else if legacy_starts(b, 0) {
        let rest = scan_spec(b.skip(6));
        (button_delta(b[3], 96, 97) + rest.0, rest.1)
    } else {
        let rest = scan_spec(b.skip(1));
        (rest.0, seq![b[0]] + rest.1)
    }
}

#[via_fn]
proof fn scan_spec_dec(b: Seq<u8>) {
    if b.len() > 0 && sgr_starts(b, 0) && find_term(b, 3) is Some {
        lemma_find_term_bounds(b, 3);
    }
}

proof fn lemma_find_term_bounds(b: Seq<u8>, i: int)
    requires
        find_term(b, i) is Some,
    ensures
        i <= find_term(b, i)->0 < b.len(),
    decreases b.len() - i,
{
    if !(0 <= i < b.len()) {
    } else if b[i] == 77 || b[i] == 109 {
    } else {
        lemma_find_term_bounds(b, i + 1);
    }
}

fn find_term_from(b: &[u8], start: usize) -> (r: Option<usize>)
    ensures
        match r {
            Some(t) => find_term(b@, start as int) == Some(t as int) && start <= t < b@.len(),
            None => find_term(b@, start as int) is None,
        },
{
    let n = b.len();
    let mut i: usize = start;
    while i < n
        invariant
            n == b@.len(),
            start <= i,
            find_term(b@, start as int) == find_term(b@, i as int),
        decreases n - i,
    {
        let c = b[i];
        if c == 77 || c == 109 {
            return Some(i);
        }
        i += 1;
    }
    None
}

fn find_semi_from(b: &[u8], start: usize) -> (r: Option<usize>)
    ensures
        match r {
            Some(t) => find_semi(b@, start as int) == Some(t as int) && start <= t < b@.len(),
            None => find_semi(b@, start as int) is None,
        },
{
    let n = b.len();
    let mut i: usize = start;
    while i < n
        invariant
            n == b@.len(),
            start <= i,
            find_semi(b@, start as int) == find_semi(b@, i as int),
        decreases n - i,
    {
        let c = b[i];
        if c == 59 {
            return Some(i);
        }
        i += 1;
    }
    None
}

/// Parse a decimal byte from `b[from..to]`, against `parse_u8_dec`.
fn parse_u8_range(b: &[u8], from: usize, to: usize) -> (r: Option<u8>)
    requires
        from <= to <= b@.len(),
    ensures
        r == parse_u8_dec(b@.subrange(from as int, to as int)),
{
    let ghost s = b@.subrange(from as int, to as int);
    if from == to {
        assert(s.len() == 0);
        return None;
    }
    let mut acc: u16 = 0;
    let mut i: usize = from;
    while i < to
        invariant
            from <= i <= to <= b@.len(),
            s == b@.subrange(from as int, to as int),
            all_digits(s.take(i - from)),
            acc == dec_value(s.take(i - from)),
            acc <= 255,
        decreases to - i,
    {
        let c = b[i];
        if c < 48 || c > 57 {
            assert(!all_digits(s)) by {
                assert(s[i - from] == c);
            }
            return None;
        }
        let d: u16 = (c - 48) as u16;
        let next: u32 = (acc as u32) * 10 + (d as u32);
        proof {
            let t0 = s.take(i - from);
            let t1 = s.take(i - from + 1);
            assert(t1.drop_last() =~= t0);
            assert(t1.last() == s[i - from]);
            assert(s[i - from] == c);
            assert(forall|q: int| 0 <= q < t1.len() - 1 ==> t1[q] == t0[q]);
            assert(all_digits(t1)) by {
                assert(forall|q: int|
                    0 <= q < t1.len() - 1 ==> 48 <= #[trigger] t1[q] <= 57);
                assert(48 <= t1[t1.len() - 1] <= 57);
            }
            assert(next == dec_value(t1));
        }
        if next > 255 {
            proof {
                let t1 = s.take(i - from + 1);
                if all_digits(s) {
                    lemma_dec_value_grows(s, i - from + 1);
                    assert(dec_value(s) >= dec_value(t1));
                    assert(dec_value(s) > 255);
                }
            }
            return None;
        }
        acc = next as u16;
        i += 1;
    }
    proof {
        assert(s.take(to - from) =~= s);
    }
    Some(acc as u8)
}

/// A longer digit prefix never yields a smaller value.
proof fn lemma_dec_value_grows(s: Seq<u8>, i: int)
    requires
        0 <= i <= s.len(),
        all_digits(s),
    ensures
        dec_value(s) >= dec_value(s.take(i)),
        dec_value(s) >= 0,
    decreases s.len() - i,
{
    lemma_dec_value_nonneg(s);
    if i < s.len() {
        lemma_dec_value_grows(s, i + 1);
        let t1 = s.take(i + 1);
        assert(t1.drop_last() =~= s.take(i));
        assert(all_digits(t1)) by {
            assert(forall|q: int| 0 <= q < t1.len() ==> t1[q] == s[q]);
        }
        lemma_dec_value_nonneg(s.take(i));
        assert(dec_value(t1) == dec_value(s.take(i)) * 10 + (t1.last() - 48));
        assert(dec_value(s.take(i)) * 10 >= dec_value(s.take(i))) by (nonlinear_arith)
            requires dec_value(s.take(i)) >= 0;
    } else {
        assert(s.take(i) =~= s);
    }
}

proof fn lemma_dec_value_nonneg(s: Seq<u8>)
    requires
        all_digits(s),
    ensures
        dec_value(s) >= 0,
    decreases s.len(),
{
    if s.len() > 0 {
        assert(all_digits(s.drop_last())) by {
            assert(forall|q: int| 0 <= q < s.len() - 1 ==> s.drop_last()[q] == s[q]);
        }
        lemma_dec_value_nonneg(s.drop_last());
        assert(48 <= s.last() <= 57) by {
            assert(s[s.len() - 1] == s.last());
        }
        assert(dec_value(s.drop_last()) * 10 >= 0) by (nonlinear_arith)
            requires dec_value(s.drop_last()) >= 0;
    }
}

/// Split a buffer into the summed scroll delta of its mouse reports and the
/// non-mouse bytes in order.
pub fn scan_input(b: &[u8]) -> (r: (i64, Vec<u8>))
    ensures
        r.0 == scan_spec(b@).0,
        r.1@ == scan_spec(b@).1,
{
    let n = b.len();
    let mut pos: usize = 0;
    let mut delta: i64 = 0;
    let mut out: Vec<u8> = Vec::new();
    proof {
        assert(b@.skip(0) =~= b@);
        assert(out@ + scan_spec(b@).1 =~= scan_spec(b@).1);
    }
    while pos < n
        invariant
            n == b@.len(),
            pos <= n,
            delta + scan_spec(b@.skip(pos as int)).0 == scan_spec(b@).0,
            out@ + scan_spec(b@.skip(pos as int)).1 == scan_spec(b@).1,
            4 * delta <= pos,
            -4 * delta <= pos,
        decreases n - pos,
    {
        let ghost tail = b@.skip(pos as int);
        assert(tail.len() == n - pos);
        let rem = n - pos;
        let is_sgr = rem >= 3 && b[pos] == ESC_BYTE && b[pos + 1] == 91 && b[pos + 2] == 60;
        proof {
            assert(tail[0] == b@[pos as int]);
            if pos + 1 < n {
                assert(tail[1] == b@[pos as int + 1]);
            }
            if pos + 2 < n {
                assert(tail[2] == b@[pos as int + 2]);
            }
            assert(is_sgr == sgr_starts(tail, 0));
        }
        if is_sgr {
            let term = find_term_from(b, pos + 3);
            proof {
                lemma_find_skip(b@, pos as int, pos as int + 3);
            }
            match term {
                Some(t) => {
                    proof {
                        assert(find_term(tail, 3) == Some(t - pos));
                    }
                    let d = sgr_event_delta(b, pos, t);
                    proof {
                        assert(b@.subrange(pos as int, t + 1) =~= tail.take(t + 1 - pos));
                        assert(scan_spec(tail).0 == sgr_delta(tail.take(t + 1 - pos))
                            + scan_spec(tail.skip(t + 1 - pos)).0);
                        assert(scan_spec(tail).1 == scan_spec(tail.skip(t + 1 - pos)).1);
                        assert(tail.skip(t + 1 - pos) =~= b@.skip(t + 1));
                        assert(-1 <= d <= 1);
                    }
                    delta += d;
                    pos = t + 1;
                    continue;
                }
                None => {
                    proof {
                        assert(find_term(tail, 3) is None);
                    }
                }
            }
        }
        let is_legacy = rem >= 6 && b[pos] == ESC_BYTE && b[pos + 1] == 91 && b[pos + 2] == 77;
        proof {
            assert(tail[0] == b@[pos as int]);
            if pos + 1 < n {
                assert(tail[1] == b@[pos as int + 1]);
            }
            if pos + 2 < n {
                assert(tail[2] == b@[pos as int + 2]);
            }
            assert(is_legacy == legacy_starts(tail, 0));
        }
        if is_legacy {
            let btn = b[pos + 3];
            proof {
                assert(tail[3] == btn);
            }
            let d: i64 = if btn & 0xc3 == 96 {
                1
            } else if btn & 0xc3 == 97 {
                -1
            } else {
                0
            };
            proof {
                assert(d == button_delta(btn, 96, 97));
                assert(scan_spec(tail).0 == button_delta(tail[3], 96, 97)
                    + scan_spec(tail.skip(6)).0);
                assert(tail.skip(6) =~= b@.skip(pos + 6));
            }
            delta += d;
            pos += 6;
        } else {
            proof {
                if sgr_starts(tail, 0) {
                    assert(find_term(tail, 3) is None);
                }
                assert(scan_spec(tail).1 == seq![tail[0]] + scan_spec(tail.skip(1)).1);
                assert(tail.skip(1) =~= b@.skip(pos + 1));
            }
            out.push(b[pos]);
            proof {
                assert(out@ + scan_spec(b@.skip(pos + 1)).1 =~= scan_spec(b@).1);
            }
            pos += 1;
        }
    }
    proof {
        assert(b@.skip(n as int) =~= Seq::<u8>::empty());
        assert(scan_spec(b@.skip(n as int)).0 == 0);
        assert(out@ + scan_spec(b@.skip(n as int)).1 =~= out@);
    }
    (delta, out)
}

/// Scroll contribution of the SGR report `b[pos..=t]`, against `sgr_delta`.
fn sgr_event_delta(b: &[u8], pos: usize, t: usize) -> (d: i64)
    requires
        pos + 3 <= t < b@.len(),
    ensures
        d == sgr_delta(b@.subrange(pos as int, t + 1)),
        -1 <= d <= 1,
{
    let ghost ev = b@.subrange(pos as int, t + 1);
    let n = b.len();
    let semi = find_semi_from_until(b, pos + 3, t + 1);
    match semi {
        Some(sp) => {
            proof {
                assert(find_semi(ev, 3) == Some(sp - pos));
            }
            let btn_opt = parse_u8_range(b, pos + 3, sp);
            proof {
                assert(b@.subrange(pos as int + 3, sp as int) =~= ev.subrange(
                    3,
                    sp - pos,
                ));
            }
            match btn_opt {
                Some(btn) => {
                    if btn & 0xc3 == 64 {
                        1
                    } else if btn & 0xc3 == 65 {
                        -1
                    } else {
                        0
                    }
                }
                None => 0,
            }
        }
        None => {
            proof {
                assert(find_semi(ev, 3) is None);
            }
            0
        }
    }
}

/// First `;` at index in `[start, stop)`, against `find_semi` of the event
/// slice ending at `stop`.
fn find_semi_from_until(b: &[u8], start: usize, stop: usize) -> (r: Option<usize>)
    requires
        start <= stop <= b@.len(),
        start >= 3,
    ensures
        match r {
            Some(t) => start <= t < stop && find_semi(
                b@.subrange(start as int - 3, stop as int),
                3,
            ) == Some(t - (start - 3)),
            None => find_semi(b@.subrange(start as int - 3, stop as int), 3) is None,
        },
{
    let ghost ev = b@.subrange(start as int - 3, stop as int);
    let base = start - 3;
    let mut i: usize = start;
    while i < stop
        invariant
            base == start - 3,
            start <= i,
            i <= stop <= b@.len(),
            ev == b@.subrange(base as int, stop as int),
            find_semi(ev, 3) == find_semi(ev, i - base),
        decreases stop - i,
    {
        let c = b[i];
        proof {
            assert(ev[i - base] == c);
        }
        if c == 59 {
            return Some(i);
        }
        i += 1;
    }
    None
}

/// `find_term` from a later start agrees when the skipped bytes cannot hold a
/// terminator; relates absolute and slice-relative searches.
proof fn lemma_find_skip(b: Seq<u8>, pos: int, from: int)
    requires
        0 <= pos <= from <= b.len(),
    ensures
        find_term(b.skip(pos), from - pos) == match find_term(b, from) {
            Some(t) => Some(t - pos),
            None => None::<int>,
        },
    decreases b.len() - from,
{
    let tail = b.skip(pos);
    if from >= b.len() {
    } else {
        assert(tail[from - pos] == b[from]);
        if b[from] == 77 || b[from] == 109 {
        } else {
            lemma_find_skip(b, pos, from + 1);
        }
    }
}

/// The scroll offset after applying a delta, clamped to the scrollback range.
pub open spec fn scrolled(offset: int, delta: int) -> int {
    if delta > 0 {
        if offset + delta >= MAX_SCROLLBACK {
            MAX_SCROLLBACK as int
        } else {
            offset + delta
        }
    } else {
        if offset + delta <= 0 {
            0
        } else {
            offset + delta
        }
    }
}

/// Apply a scroll delta to an offset, clamped to `[0, MAX_SCROLLBACK]`.
pub fn apply_scroll(offset: usize, delta: i64) -> (r: usize)
    requires
        offset <= MAX_SCROLLBACK,
    ensures
        r == scrolled(offset as int, delta as int),
        r <= MAX_SCROLLBACK,
{
    if delta > 0 {
        let dd: u64 = delta as u64;
        if dd >= (MAX_SCROLLBACK - offset) as u64 {
            MAX_SCROLLBACK
        } else {
            offset + (dd as usize)
        }
    } else if delta <= -(MAX_SCROLLBACK as i64) {
        0
    } else {
        let neg: usize = (-delta) as usize;
        if neg >= offset {
            0
        } else {
            offset - neg
        }
    }
}

/// Whether the whole buffer consists of mouse reports (of either kind).
pub open spec fn all_mouse(b: Seq<u8>) -> bool {
    b.len() > 0 && scan_spec(b).1.len() == 0
}

/// True when the buffer is entirely mouse reports and may be dropped.
pub fn is_mouse_event(bytes: &[u8]) -> (r: bool)
    ensures
        r == all_mouse(bytes@),
{
    if bytes.len() == 0 {
        return false;
    }
    let (_, rest) = scan_input(bytes);
    rest.len() == 0
}

/// The summed scroll delta of the buffer's mouse reports, or `None` when it
/// is zero.
pub fn parse_scroll_event(bytes: &[u8]) -> (r: Option<i64>)
    ensures
        match r {
            Some(d) => d == scan_spec(bytes@).0 && d != 0,
            None => scan_spec(bytes@).0 == 0,
        },
{
    let (delta, _) = scan_input(bytes);
    if delta != 0 {
        Some(delta)
    } else {
        None
    }
}

} // verus!
