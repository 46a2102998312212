//! The shell-pane multiplexer: an ordered list of attached shell sessions
//! with one focused pane.
//!
//! Whenever the list is not empty, the focused index lies inside it; adding
//! a pane focuses it, closing clamps the index, and reaping dead panes keeps
//! the order of the living.

use vstd::prelude::*;

use crate::session::AttachedSession;

verus! {

/// A pane whose session has not died.
pub open spec fn pane_alive(p: AttachedSession) -> bool {
    p.0.session_error is None
}

/// The living panes of a list, in order.
pub open spec fn alive_of(s: Seq<AttachedSession>) -> Seq<AttachedSession> {
    s.filter(|p: AttachedSession| pane_alive(p))
}

/// The dead panes of a list, in order.
pub open spec fn dead_of(s: Seq<AttachedSession>) -> Seq<AttachedSession> {
    s.filter(|p: AttachedSession| !pane_alive(p))
}

/// Shell panes of one session, side by side, with a focused pane.
pub struct TerminalMultiplexer {
    pub panes: Vec<AttachedSession>,
    pub active_pane: usize,
}

impl TerminalMultiplexer {
    /// The focused index lies inside the list whenever it is not empty.
    pub open spec fn wf(self) -> bool {
        self.panes@.len() > 0 ==> self.active_pane < self.panes@.len()
    }

    /// An empty multiplexer.
    pub fn new() -> (m: Self)
        ensures
            m.panes@.len() == 0,
            m.active_pane == 0,
            m.wf(),
    {
        TerminalMultiplexer { panes: Vec::new(), active_pane: 0 }
    }

    /// Add a new pane and focus it.
    pub fn add_pane(&mut self, session: AttachedSession)
        ensures
            final(self).panes@ == old(self).panes@.push(session),
            final(self).active_pane == final(self).panes@.len() - 1,
            final(self).wf(),
    {
        self.panes.push(session);
        self.active_pane = self.panes.len() - 1;
    }

    /// Close the focused pane and return it; the focus is clamped to the
    /// remaining panes.
    pub fn close_active_pane(&mut self) -> (r: Option<AttachedSession>)
        requires
            old(self).wf(),
        ensures
            final(self).wf(),
            match r {
                None => old(self).panes@.len() == 0 && *final(self) == *old(self),
                Some(s) => {
                    &&& old(self).panes@.len() > 0
                    &&& s == old(self).panes@[old(self).active_pane as int]
                    &&& final(self).panes@ == old(self).panes@.remove(
                        old(self).active_pane as int,
                    )
                    &&& final(self).active_pane == (if old(self).active_pane
                        >= final(self).panes@.len() && final(self).panes@.len() > 0 {
                        final(self).panes@.len() - 1
                    } else {
                        old(self).active_pane as int
                    })
                },
            },
    {
        if self.panes.len() == 0 {
            return None;
        }
        let session = self.panes.remove(self.active_pane);
        if self.active_pane >= self.panes.len() && self.panes.len() > 0 {
            self.active_pane = self.panes.len() - 1;
        }
        Some(session)
    }

    /// Focus the pane to the left, wrapping around.
    pub fn focus_left(&mut self)
        requires
            old(self).wf(),
        ensures
            final(self).panes == old(self).panes,
            final(self).wf(),
            old(self).panes@.len() == 0 ==> final(self).active_pane == old(
                self,
            ).active_pane,
            old(self).panes@.len() > 0 ==> final(self).active_pane as int == (if old(
                self,
            ).active_pane == 0 {
                old(self).panes@.len() - 1
            } else {
                old(self).active_pane - 1
            }),
    {
        if self.panes.len() == 0 {
            return;
        }
        if self.active_pane == 0 {
            self.active_pane = self.panes.len() - 1;
        } else {
            self.active_pane = self.active_pane - 1;
        }
    }

    /// Focus the pane to the right, wrapping around; this is the cycle
    /// operation.
    pub fn focus_right(&mut self)
        requires
            old(self).wf(),
        ensures
            final(self).panes == old(self).panes,
            final(self).wf(),
            old(self).panes@.len() == 0 ==> final(self).active_pane == old(
                self,
            ).active_pane,
            old(self).panes@.len() > 0 ==> final(self).active_pane as int == (if old(
                self,
            ).active_pane + 1 == old(self).panes@.len() {
                0int
            } else {
                old(self).active_pane + 1
            }),
    {
        if self.panes.len() == 0 {
            return;
        }
        if self.active_pane + 1 >= self.panes.len() {
            self.active_pane = 0;
        } else {
            self.active_pane = self.active_pane + 1;
        }
    }

    /// The focused pane, for routing input.
    pub fn active_pane_mut(&mut self) -> (r: Option<&mut AttachedSession>)
        requires
            old(self).wf(),
        ensures
            match r {
                None => old(self).panes@.len() == 0 && *final(self) == *old(self),
                Some(p) => {
                    &&& old(self).panes@.len() > 0
                    &&& *p == old(self).panes@[old(self).active_pane as int]
                    &&& final(self).panes@ == old(self).panes@.update(
                        old(self).active_pane as int,
                        *final(p),
                    )
                    &&& final(self).active_pane == old(self).active_pane
                    &&& final(self).wf()
                },
            },
    {
        if self.panes.len() == 0 {
            return None;
        }
        Some(&mut self.panes[self.active_pane])
    }

    /// Whether the multiplexer has no panes.
    pub fn is_empty(&self) -> (r: bool)
        ensures
            r == (self.panes@.len() == 0),
    {
        self.panes.len() == 0
    }

    /// Remove dead panes and return them for cleanup; living panes keep
    /// their order and the focus is clamped.
    pub fn remove_dead_panes(&mut self) -> (dead: Vec<AttachedSession>)
        requires
            old(self).wf(),
        ensures
            final(self).wf(),
            final(self).panes@ == alive_of(old(self).panes@),
            dead@ == dead_of(old(self).panes@),
    {
        let ghost orig = self.panes@;
        let mut alive: Vec<AttachedSession> = Vec::new();
        let mut dead: Vec<AttachedSession> = Vec::new();
        proof {
            reveal(Seq::filter);
            assert(orig.take(0) =~= Seq::<AttachedSession>::empty());
            assert(alive_of(orig.take(0)) =~= Seq::<AttachedSession>::empty());
            assert(dead_of(orig.take(0)) =~= Seq::<AttachedSession>::empty());
        }
        let ghost mut j: int = 0;
        while self.panes.len() > 0
            invariant
                0 <= j <= orig.len(),
                self.panes@ == orig.skip(j),
                alive@ == alive_of(orig.take(j)),
                dead@ == dead_of(orig.take(j)),
            decreases self.panes@.len(),
        {
            let p = self.panes.remove(0);
            proof {
                assert(orig.skip(j)[0] == orig[j]);
                assert(orig.skip(j).remove(0) =~= orig.skip(j + 1));
            }
            let ghost t1 = orig.take(j + 1);
            proof {
                assert(t1.drop_last() =~= orig.take(j));
                assert(t1.last() == orig[j]);
            }
            if p.session().is_dead() {
                dead.push(p);
                proof {
                    reveal(Seq::filter);
                    assert(dead@ =~= dead_of(t1));
                    assert(alive@ =~= alive_of(t1));
                }
            } else {
                alive.push(p);
                proof {
                    reveal(Seq::filter);
                    assert(alive@ =~= alive_of(t1));
                    assert(dead@ =~= dead_of(t1));
                }
            }
            proof {
                j = j + 1;
            }
        }
        proof {
            assert(orig.take(j) =~= orig);
        }
        self.panes = alive;
        if self.panes.len() == 0 {
            self.active_pane = 0;
        } else if self.active_pane >= self.panes.len() {
            self.active_pane = self.panes.len() - 1;
        }
        dead
    }
}

/// The equal pane width when `count` panes share `width` columns with one
/// divider column between neighbours.
pub open spec fn pane_width(width: u16, count: int) -> int {
    if count <= 0 {
        0
    } else if width >= count - 1 {
        (width - (count - 1)) / count
    } else {
        0
    }
}

/// The column pane `k` starts at: each pane sits one divider right of the
/// previous one, clamped to the coordinate range.
pub open spec fn pane_x(x: u16, w: int, k: nat) -> int
    decreases k,
{
    if k == 0 {
        x as int
    } else {
        let prev = pane_x(x, w, (k - 1) as nat);
        if prev + w + 1 > u16::MAX {
            u16::MAX as int
        } else {
            prev + w + 1
        }
    }
}

/// Side-by-side pane rectangles: equal widths, one divider column between
/// neighbours. Returns each pane's column and width.
pub fn pane_layout(x: u16, width: u16, count: usize) -> (r: Vec<(u16, u16)>)
    ensures
        r@.len() == count,
        forall|k: int|
            0 <= k < count ==> (#[trigger] r@[k]).1 == pane_width(width, count as int)
                && r@[k].0 == pane_x(x, pane_width(width, count as int), k as nat),
{
    let mut out: Vec<(u16, u16)> = Vec::new();
    if count == 0 {
        return out;
    }
    let dividers = count - 1;
    let avail: usize = if (width as usize) > dividers {
        (width as usize) - dividers
    } else {
        0
    };
    let w_usize = avail / count;
    let w: u16 = w_usize as u16;
    proof {
        assert(w == pane_width(width, count as int));
    }
    let mut cur: u16 = x;
    let mut k: usize = 0;
    while k < count
        invariant
            k <= count,
            out@.len() == k,
            w == pane_width(width, count as int),
            cur as int == pane_x(x, w as int, k as nat),
            forall|m: int|
                0 <= m < k ==> (#[trigger] out@[m]).1 == w as int && out@[m].0 == pane_x(
                    x,
                    w as int,
                    m as nat,
                ),
        decreases count - k,
    {
        out.push((cur, w));
        let step: u32 = (cur as u32) + (w as u32) + 1;
        if step > 65535 {
            cur = 65535;
        } else {
            cur = step as u16;
        }
        k += 1;
    }
    out
}

/// A multiplexer with panes keeps its focus inside them.
pub proof fn lemma_focus_in_range(m: TerminalMultiplexer)
    requires
        m.wf(),
        m.panes@.len() > 0,
    ensures
        m.active_pane < m.panes@.len(),
{
}

impl Default for TerminalMultiplexer {
    /// An empty multiplexer.
    fn default() -> (m: Self)
        ensures
            m.panes@.len() == 0,
            m.active_pane == 0,
            m.wf(),
    {
        TerminalMultiplexer::new()
    }
}

} // verus!
