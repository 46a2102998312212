//! The persistence format: history and configuration as JSON text.
//!
//! The writers emit one canonical form; the readers accept exactly that
//! form and say so: whenever a reader returns a value, the input it read is
//! precisely the writing of that value. Together with the writers' exact
//! output, loading what was saved can only return the saved value.

use vstd::prelude::*;

use vstd::string::StrSliceExecFns;

use crate::config::Config;
use crate::config::MostRecentSession;
use crate::history::EntryKey;
use crate::history::RecentSession;
use crate::history::SessionHistory;
use crate::history::keys_of;
use crate::util::chars_to_string;
use crate::util::str_chars;

verus! {

/// A string character in its escaped form: quotes and backslashes get a
/// backslash.
pub open spec fn esc_char(c: char) -> Seq<char> {
    if c == '"' || c == '\\' {
        seq!['\\', c]
    } else {
        seq![c]
    }
}

/// A whole string in escaped form.
pub open spec fn esc(s: Seq<char>) -> Seq<char>
    decreases s.len(),
{
    if s.len() == 0 {
        Seq::empty()
    } else {
        esc(s.drop_last()) + esc_char(s.last())
    }
}

/// A string as written: quoted and escaped.
pub open spec fn quoted(s: Seq<char>) -> Seq<char> {
    seq!['"'] + esc(s) + seq!['"']
}

/// One history entry as written.
pub open spec fn enc_entry(k: EntryKey) -> Seq<char> {
    "{\"name\":"@ + quoted(k.0) + ",\"project_path\":"@ + quoted(k.1) + "}"@
}

/// The comma-separated entries of one repository.
pub open spec fn enc_entry_items(ks: Seq<EntryKey>) -> Seq<char>
    decreases ks.len(),
{
    if ks.len() == 0 {
        Seq::empty()
    } else if ks.len() == 1 {
        enc_entry(ks[0])
    } else {
        enc_entry_items(ks.drop_last()) + ","@ + enc_entry(ks.last())
    }
}

/// One repository row as written.
pub open spec fn enc_row(repo: Seq<char>, ks: Seq<EntryKey>) -> Seq<char> {
    quoted(repo) + ":["@ + enc_entry_items(ks) + "]"@
}

/// The comma-separated repository rows.
pub open spec fn enc_rows(rows: Seq<(Seq<char>, Seq<EntryKey>)>) -> Seq<char>
    decreases rows.len(),
{
    if rows.len() == 0 {
        Seq::empty()
    } else if rows.len() == 1 {
        enc_row(rows[0].0, rows[0].1)
    } else {
        enc_rows(rows.drop_last()) + ","@ + enc_row(rows.last().0, rows.last().1)
    }
}

/// A whole history as written.
pub open spec fn enc_history(rows: Seq<(Seq<char>, Seq<EntryKey>)>) -> Seq<char> {
    "{"@ + enc_rows(rows) + "}"@
}

/// The rows a history holds, at the view level.
pub open spec fn history_rows(h: SessionHistory) -> Seq<(Seq<char>, Seq<EntryKey>)> {
    h.recent_sessions@.map_values(
        |p: (String, Vec<RecentSession>)| (p.0@, keys_of(p.1@)),
    )
}

/// Reading a quoted string from the front of `b`: the string it holds and
/// how many characters it spans.
pub open spec fn take_quoted(b: Seq<char>) -> Option<(Seq<char>, int)> {
    if b.len() > 0 && b[0] == '"' {
        take_quoted_body(b, 1, Seq::empty())
    } else {
        None
    }
}

/// The scan behind `take_quoted`: read until the closing quote, undoing
/// escapes.
pub open spec fn take_quoted_body(b: Seq<char>, i: int, acc: Seq<char>) -> Option<
    (Seq<char>, int),
>
    decreases b.len() - i,
{
    if i < 0 || i >= b.len() {
        None
    } else if b[i] == '"' {
        Some((acc, i + 1))
    } else if b[i] == '\\' {
        if i + 1 < b.len() && (b[i + 1] == '"' || b[i + 1] == '\\') {
            take_quoted_body(b, i + 2, acc.push(b[i + 1]))
        } else {
            None
        }
    } else {
        take_quoted_body(b, i + 1, acc.push(b[i]))
    }
}

/// Escaping splits over concatenation.
proof fn lemma_esc_distributes(a: Seq<char>, b: Seq<char>)
    ensures
        esc(a + b) == esc(a) + esc(b),
    decreases b.len(),
{
    if b.len() == 0 {
        assert(a + b =~= a);
        assert(esc(b) =~= Seq::<char>::empty());
        assert(esc(a) + esc(b) =~= esc(a));
    } else {
        lemma_esc_distributes(a, b.drop_last());
        assert((a + b).drop_last() =~= a + b.drop_last());
        assert((a + b).last() == b.last());
        assert(esc(a + b) == esc(a + b.drop_last()) + esc_char(b.last()));
        assert(esc(a) + esc(b) =~= esc(a) + esc(b.drop_last()) + esc_char(b.last()));
        assert(esc(a + b) =~= esc(a) + esc(b));
    }
}

/// Escaping peels its first character.
proof fn lemma_esc_front(s: Seq<char>)
    requires
        s.len() > 0,
    ensures
        esc(s) == esc_char(s[0]) + esc(s.drop_first()),
{
    assert(s =~= seq![s[0]] + s.drop_first());
    lemma_esc_distributes(seq![s[0]], s.drop_first());
    assert(esc(seq![s[0]]) == esc(seq![s[0]].drop_last()) + esc_char(seq![s[0]].last()));
    assert(seq![s[0]].drop_last() =~= Seq::<char>::empty());
    assert(esc(seq![s[0]]) =~= esc_char(s[0]));
}

proof fn lemma_take_quoted_body_round_trip(b: Seq<char>, i: int, acc: Seq<char>, s: Seq<char>, rest: Seq<char>)
    requires
        0 <= i <= b.len(),
        b.subrange(i, b.len() as int) == esc(s) + seq!['"'] + rest,
    ensures
        take_quoted_body(b, i, acc) == Some(
            (acc + s, i + esc(s).len() + 1),
        ),
    decreases s.len(),
{
    let tail = b.subrange(i, b.len() as int);
    assert(tail.len() == b.len() - i);
    assert(tail.len() == esc(s).len() + 1 + rest.len());
    assert(i < b.len());
    if s.len() == 0 {
        assert(esc(s) =~= Seq::<char>::empty());
        assert(tail[0] == '"');
        assert(b[i] == tail[0]);
        assert(take_quoted_body(b, i, acc) == Some((acc, i + 1)));
        assert(acc + s =~= acc);
    } else {
        let c = s[0];
        lemma_esc_front(s);
        let s2 = s.drop_first();
        if c == '"' || c == '\\' {
            assert(esc_char(c) == seq!['\\', c]);
            assert(esc(s).len() >= 2);
            assert(tail.len() >= 2);
            assert(i + 1 < b.len());
            assert(tail[0] == '\\');
            assert(tail[1] == c);
            assert(b[i] == tail[0]);
            assert(b[i + 1] == tail[1]);
            assert(i + 2 <= b.len());
            assert(b.subrange(i + 2, b.len() as int) =~= esc(s2) + seq!['"'] + rest) by {
                assert(forall|q: int|
                    0 <= q < tail.len() - 2 ==> #[trigger] b.subrange(
                        i + 2,
                        b.len() as int,
                    )[q] == tail[q + 2]);
            }
            lemma_take_quoted_body_round_trip(b, i + 2, acc.push(c), s2, rest);
            assert(acc.push(c) + s2 =~= acc + s);
        } else {
            assert(esc_char(c) == seq![c]);
            assert(tail[0] == c);
            assert(b[i] == c);
            assert(b.subrange(i + 1, b.len() as int) =~= esc(s2) + seq!['"'] + rest) by {
                assert(forall|q: int|
                    0 <= q < tail.len() - 1 ==> #[trigger] b.subrange(
                        i + 1,
                        b.len() as int,
                    )[q] == tail[q + 1]);
            }
            lemma_take_quoted_body_round_trip(b, i + 1, acc.push(c), s2, rest);
            assert(acc.push(c) + s2 =~= acc + s);
        }
    }
}

/// The written form of a string reads back to exactly that string, whatever
/// follows it: writing and reading one string are inverses.
pub proof fn lemma_quoted_round_trip(s: Seq<char>, rest: Seq<char>)
    ensures
        take_quoted(quoted(s) + rest) == Some((s, quoted(s).len() as int)),
{
    let b = quoted(s) + rest;
    assert(b[0] == '"');
    assert(b.subrange(1, b.len() as int) =~= esc(s) + seq!['"'] + rest);
    lemma_take_quoted_body_round_trip(b, 1, Seq::empty(), s, rest);
    assert(Seq::empty() + s =~= s);
}

/// Equal concatenations with equal-length first parts have equal parts.
proof fn lemma_concat_cancel(a: Seq<char>, r: Seq<char>, b: Seq<char>, t: Seq<char>)
    requires
        a + r == b + t,
        a.len() == b.len(),
    ensures
        a == b,
        r == t,
{
    assert(a =~= b) by {
        assert(forall|q: int| 0 <= q < a.len() ==> a[q] == (a + r)[q]);
        assert(forall|q: int| 0 <= q < b.len() ==> b[q] == (b + t)[q]);
    }
    assert((a + r).len() == a.len() + r.len());
    assert((b + t).len() == b.len() + t.len());
    assert((a + r).len() == (b + t).len());
    assert(r.len() == t.len());
    assert(r =~= t) by {
        assert forall|q: int| 0 <= q < r.len() implies r[q] == t[q] by {
            assert((a + r)[a.len() + q] == r[q]);
            assert((b + t)[b.len() + q] == t[q]);
        }
    }
}

/// A written string determines itself and what follows it.
proof fn lemma_quoted_prefix(x: Seq<char>, r: Seq<char>, y: Seq<char>, t: Seq<char>)
    requires
        quoted(x) + r == quoted(y) + t,
    ensures
        x == y,
        r == t,
{
    lemma_quoted_round_trip(x, r);
    lemma_quoted_round_trip(y, t);
    assert(take_quoted(quoted(x) + r) == Some((x, quoted(x).len() as int)));
    assert(take_quoted(quoted(y) + t) == Some((y, quoted(y).len() as int)));
    assert(x == y);
    lemma_concat_cancel(quoted(x), r, quoted(y), t);
}

/// The lengths and first characters of the fixed pieces of the history
/// format.
proof fn lemma_history_literals()
    ensures
        "{\"name\":"@.len() == 8,
        "{\"name\":"@[0] == '{',
        ",\"project_path\":"@.len() == 16,
        "}"@.len() == 1,
        "}"@[0] == '}',
        ":["@.len() == 2,
        "]"@.len() == 1,
        "]"@[0] == ']',
        ","@.len() == 1,
        ","@[0] == ',',
        "{"@.len() == 1,
{
    reveal_strlit("{\"name\":");
    reveal_strlit(",\"project_path\":");
    reveal_strlit("}");
    reveal_strlit(":[");
    reveal_strlit("]");
    reveal_strlit(",");
    reveal_strlit("{");
}

/// A written entry determines its key and what follows it.
proof fn lemma_enc_entry_prefix(k1: EntryKey, r: Seq<char>, k2: EntryKey, t: Seq<char>)
    requires
        enc_entry(k1) + r == enc_entry(k2) + t,
    ensures
        k1 == k2,
        r == t,
{
    lemma_history_literals();
    let l1 = "{\"name\":"@;
    let l2 = ",\"project_path\":"@;
    let l3 = "}"@;
    assert(enc_entry(k1) + r =~= l1 + (quoted(k1.0) + (l2 + (quoted(k1.1) + (l3 + r)))));
    assert(enc_entry(k2) + t =~= l1 + (quoted(k2.0) + (l2 + (quoted(k2.1) + (l3 + t)))));
    lemma_concat_cancel(
        l1,
        quoted(k1.0) + (l2 + (quoted(k1.1) + (l3 + r))),
        l1,
        quoted(k2.0) + (l2 + (quoted(k2.1) + (l3 + t))),
    );
    lemma_quoted_prefix(
        k1.0,
        l2 + (quoted(k1.1) + (l3 + r)),
        k2.0,
        l2 + (quoted(k2.1) + (l3 + t)),
    );
    lemma_concat_cancel(
        l2,
        quoted(k1.1) + (l3 + r),
        l2,
        quoted(k2.1) + (l3 + t),
    );
    lemma_quoted_prefix(k1.1, l3 + r, k2.1, l3 + t);
    lemma_concat_cancel(l3, r, l3, t);
    assert(k1 == k2);
}

/// The entries after the first, each preceded by its comma.
spec fn enc_items_tail(ks: Seq<EntryKey>) -> Seq<char>
    decreases ks.len(),
{
    if ks.len() == 0 {
        Seq::empty()
    } else {
        ","@ + enc_entry(ks[0]) + enc_items_tail(ks.drop_first())
    }
}

/// The comma-led tail is a comma and the items of the rest.
proof fn lemma_items_tail_form(s: Seq<EntryKey>)
    requires
        s.len() > 0,
    ensures
        enc_items_tail(s) == ","@ + enc_entry_items(s),
    decreases s.len(),
{
    if s.len() == 1 {
        assert(s.drop_first() =~= Seq::<EntryKey>::empty());
        assert(enc_items_tail(s) =~= ","@ + enc_entry(s[0]));
        assert(enc_entry_items(s) == enc_entry(s[0]));
    } else {
        lemma_items_front(s);
        assert(enc_items_tail(s) == ","@ + enc_entry(s[0]) + enc_items_tail(
            s.drop_first(),
        ));
        assert(enc_items_tail(s) =~= ","@ + (enc_entry(s[0]) + enc_items_tail(
            s.drop_first(),
        )));
    }
}

/// Items can be peeled from the front: the first entry, then the rest with
/// their commas.
proof fn lemma_items_front(ks: Seq<EntryKey>)
    requires
        ks.len() > 0,
    ensures
        enc_entry_items(ks) == enc_entry(ks[0]) + enc_items_tail(ks.drop_first()),
    decreases ks.len(),
{
    if ks.len() == 1 {
        assert(ks.drop_first() =~= Seq::<EntryKey>::empty());
        assert(enc_entry_items(ks) =~= enc_entry(ks[0]) + enc_items_tail(ks.drop_first()));
    } else {
        let head = ks.drop_last();
        lemma_items_front(head);
        assert(head[0] == ks[0]);
        assert(enc_entry_items(ks) == enc_entry_items(head) + ","@ + enc_entry(ks.last()));
        let mid = head.drop_first();
        assert(mid =~= ks.drop_first().drop_last());
        lemma_items_tail_snoc(ks.drop_first());
        assert(enc_items_tail(ks.drop_first()) == enc_items_tail(mid) + ","@ + enc_entry(
            ks.drop_first().last(),
        ));
        assert(ks.drop_first().last() == ks.last());
        assert(enc_entry_items(ks) =~= enc_entry(ks[0]) + enc_items_tail(ks.drop_first()));
    }
}

/// The comma-led tail can be peeled from the back.
proof fn lemma_items_tail_snoc(s: Seq<EntryKey>)
    requires
        s.len() > 0,
    ensures
        enc_items_tail(s) == enc_items_tail(s.drop_last()) + ","@ + enc_entry(s.last()),
    decreases s.len(),
{
    if s.len() == 1 {
        assert(s.drop_last() =~= Seq::<EntryKey>::empty());
        assert(s.drop_first() =~= Seq::<EntryKey>::empty());
        assert(enc_items_tail(s) =~= enc_items_tail(s.drop_last()) + ","@ + enc_entry(
            s.last(),
        ));
    } else {
        lemma_items_tail_snoc(s.drop_first());
        assert(s.drop_first().drop_last() =~= s.drop_last().drop_first());
        assert(s.drop_first().last() == s.last());
        assert(s.drop_last()[0] == s[0]);
        assert(enc_items_tail(s.drop_last()) == ","@ + enc_entry(s[0]) + enc_items_tail(
            s.drop_last().drop_first(),
        ));
        assert(enc_items_tail(s) =~= enc_items_tail(s.drop_last()) + ","@ + enc_entry(
            s.last(),
        ));
    }
}

/// A written, bracket-closed entry list determines its entries and what
/// follows the bracket.
#[verifier::rlimit(100)]
#[verifier::spinoff_prover]
proof fn lemma_items_bracket_unique(
    ks1: Seq<EntryKey>,
    r: Seq<char>,
    ks2: Seq<EntryKey>,
    t: Seq<char>,
)
    requires
        enc_entry_items(ks1) + "]"@ + r == enc_entry_items(ks2) + "]"@ + t,
    ensures
        ks1 == ks2,
        r == t,
    decreases ks1.len(),
{
    lemma_history_literals();
    let lhs = enc_entry_items(ks1) + "]"@ + r;
    let rhs = enc_entry_items(ks2) + "]"@ + t;
    if ks1.len() == 0 && ks2.len() == 0 {
        assert(enc_entry_items(ks1) =~= Seq::<char>::empty());
        assert(enc_entry_items(ks2) =~= Seq::<char>::empty());
        assert("]"@ + r =~= lhs);
        assert("]"@ + t =~= rhs);
        lemma_concat_cancel("]"@, r, "]"@, t);
        assert(ks1 =~= ks2);
    } else if ks1.len() == 0 {
        assert(lhs[0] == ']');
        lemma_items_front(ks2);
        assert(rhs[0] == '{') by {
            assert(enc_entry(ks2[0])[0] == '{');
            assert(enc_entry_items(ks2)[0] == enc_entry(ks2[0])[0]);
        }
        assert(false);
    } else if ks2.len() == 0 {
        assert(rhs[0] == ']');
        lemma_items_front(ks1);
        assert(lhs[0] == '{') by {
            assert(enc_entry(ks1[0])[0] == '{');
            assert(enc_entry_items(ks1)[0] == enc_entry(ks1[0])[0]);
        }
        assert(false);
    } else {
        lemma_items_front(ks1);
        lemma_items_front(ks2);
        assert(lhs =~= enc_entry(ks1[0]) + (enc_items_tail(ks1.drop_first()) + "]"@ + r));
        assert(rhs =~= enc_entry(ks2[0]) + (enc_items_tail(ks2.drop_first()) + "]"@ + t));
        lemma_enc_entry_prefix(
            ks1[0],
            enc_items_tail(ks1.drop_first()) + "]"@ + r,
            ks2[0],
            enc_items_tail(ks2.drop_first()) + "]"@ + t,
        );
        let s1 = ks1.drop_first();
        let s2 = ks2.drop_first();
        if s1.len() == 0 && s2.len() == 0 {
            assert(ks1 =~= seq![ks1[0]]);
            assert(ks2 =~= seq![ks2[0]]);
            assert(enc_items_tail(s1) =~= Seq::<char>::empty());
            assert(enc_items_tail(s2) =~= Seq::<char>::empty());
            assert("]"@ + r =~= enc_items_tail(s1) + "]"@ + r);
            assert("]"@ + t =~= enc_items_tail(s2) + "]"@ + t);
            lemma_concat_cancel("]"@, r, "]"@, t);
        } else if s1.len() == 0 {
            lemma_items_tail_form(s2);
            assert((enc_items_tail(s1) + "]"@ + r)[0] == ']') by {
                assert(enc_items_tail(s1) =~= Seq::<char>::empty());
                assert(enc_items_tail(s1) + "]"@ + r =~= "]"@ + r);
            }
            assert((enc_items_tail(s2) + "]"@ + t)[0] == ',') by {
                assert(enc_items_tail(s2)[0] == ',');
            }
            assert(false);
        } else if s2.len() == 0 {
            lemma_items_tail_form(s1);
            assert((enc_items_tail(s2) + "]"@ + t)[0] == ']') by {
                assert(enc_items_tail(s2) =~= Seq::<char>::empty());
                assert(enc_items_tail(s2) + "]"@ + t =~= "]"@ + t);
            }
            assert((enc_items_tail(s1) + "]"@ + r)[0] == ',') by {
                assert(enc_items_tail(s1)[0] == ',');
            }
            assert(false);
        } else {
            lemma_items_tail_form(s1);
            lemma_items_tail_form(s2);
            assert(enc_items_tail(s1) + "]"@ + r =~= ","@ + (enc_entry_items(s1) + "]"@
                + r));
            assert(enc_items_tail(s2) + "]"@ + t =~= ","@ + (enc_entry_items(s2) + "]"@
                + t));
            lemma_concat_cancel(
                ","@,
                enc_entry_items(s1) + "]"@ + r,
                ","@,
                enc_entry_items(s2) + "]"@ + t,
            );
            lemma_items_bracket_unique(s1, r, s2, t);
            assert(ks1 =~= seq![ks1[0]] + s1);
            assert(ks2 =~= seq![ks2[0]] + s2);
            assert(ks1 =~= ks2);
        }
    }
}

/// The rows after the first, each preceded by its comma.
spec fn enc_rows_tail(rows: Seq<(Seq<char>, Seq<EntryKey>)>) -> Seq<char>
    decreases rows.len(),
{
    if rows.len() == 0 {
        Seq::empty()
    } else {
        ","@ + enc_row(rows[0].0, rows[0].1) + enc_rows_tail(rows.drop_first())
    }
}

/// The comma-led row tail is a comma and the rows of the rest.
proof fn lemma_rows_tail_form(s: Seq<(Seq<char>, Seq<EntryKey>)>)
    requires
        s.len() > 0,
    ensures
        enc_rows_tail(s) == ","@ + enc_rows(s),
    decreases s.len(),
{
    if s.len() == 1 {
        assert(s.drop_first() =~= Seq::<(Seq<char>, Seq<EntryKey>)>::empty());
        assert(enc_rows_tail(s) =~= ","@ + enc_row(s[0].0, s[0].1));
        assert(enc_rows(s) == enc_row(s[0].0, s[0].1));
    } else {
        lemma_rows_front(s);
        assert(enc_rows_tail(s) == ","@ + enc_row(s[0].0, s[0].1) + enc_rows_tail(
            s.drop_first(),
        ));
        assert(enc_rows_tail(s) =~= ","@ + (enc_row(s[0].0, s[0].1) + enc_rows_tail(
            s.drop_first(),
        )));
    }
}

/// Rows can be peeled from the front.
proof fn lemma_rows_front(rows: Seq<(Seq<char>, Seq<EntryKey>)>)
    requires
        rows.len() > 0,
    ensures
        enc_rows(rows) == enc_row(rows[0].0, rows[0].1) + enc_rows_tail(rows.drop_first()),
    decreases rows.len(),
{
    if rows.len() == 1 {
        assert(rows.drop_first() =~= Seq::<(Seq<char>, Seq<EntryKey>)>::empty());
        assert(enc_rows(rows) =~= enc_row(rows[0].0, rows[0].1) + enc_rows_tail(
            rows.drop_first(),
        ));
    } else {
        let head = rows.drop_last();
        lemma_rows_front(head);
        assert(head[0] == rows[0]);
        assert(enc_rows(rows) == enc_rows(head) + ","@ + enc_row(
            rows.last().0,
            rows.last().1,
        ));
        let mid = head.drop_first();
        assert(mid =~= rows.drop_first().drop_last());
        lemma_rows_tail_snoc(rows.drop_first());
        assert(enc_rows_tail(rows.drop_first()) == enc_rows_tail(mid) + ","@ + enc_row(
            rows.drop_first().last().0,
            rows.drop_first().last().1,
        ));
        assert(rows.drop_first().last() == rows.last());
        assert(enc_rows(rows) =~= enc_row(rows[0].0, rows[0].1) + enc_rows_tail(
            rows.drop_first(),
        ));
    }
}

/// The comma-led row tail can be peeled from the back.
proof fn lemma_rows_tail_snoc(s: Seq<(Seq<char>, Seq<EntryKey>)>)
    requires
        s.len() > 0,
    ensures
        enc_rows_tail(s) == enc_rows_tail(s.drop_last()) + ","@ + enc_row(
            s.last().0,
            s.last().1,
        ),
    decreases s.len(),
{
    if s.len() == 1 {
        assert(s.drop_last() =~= Seq::<(Seq<char>, Seq<EntryKey>)>::empty());
        assert(s.drop_first() =~= Seq::<(Seq<char>, Seq<EntryKey>)>::empty());
        assert(enc_rows_tail(s) =~= enc_rows_tail(s.drop_last()) + ","@ + enc_row(
            s.last().0,
            s.last().1,
        ));
    } else {
        lemma_rows_tail_snoc(s.drop_first());
        assert(s.drop_first().drop_last() =~= s.drop_last().drop_first());
        assert(s.drop_first().last() == s.last());
        assert(s.drop_last()[0] == s[0]);
        assert(enc_rows_tail(s.drop_last()) == ","@ + enc_row(s[0].0, s[0].1)
            + enc_rows_tail(s.drop_last().drop_first()));
        assert(enc_rows_tail(s) =~= enc_rows_tail(s.drop_last()) + ","@ + enc_row(
            s.last().0,
            s.last().1,
        ));
    }
}

/// A written row determines its repository, entries, and what follows.
proof fn lemma_enc_row_prefix(
    repo1: Seq<char>,
    ks1: Seq<EntryKey>,
    r: Seq<char>,
    repo2: Seq<char>,
    ks2: Seq<EntryKey>,
    t: Seq<char>,
)
    requires
        enc_row(repo1, ks1) + r == enc_row(repo2, ks2) + t,
    ensures
        repo1 == repo2,
        ks1 == ks2,
        r == t,
{
    lemma_history_literals();
    assert(enc_row(repo1, ks1) + r =~= quoted(repo1) + (":["@ + (enc_entry_items(ks1)
        + "]"@ + r)));
    assert(enc_row(repo2, ks2) + t =~= quoted(repo2) + (":["@ + (enc_entry_items(ks2)
        + "]"@ + t)));
    lemma_quoted_prefix(
        repo1,
        ":["@ + (enc_entry_items(ks1) + "]"@ + r),
        repo2,
        ":["@ + (enc_entry_items(ks2) + "]"@ + t),
    );
    lemma_concat_cancel(
        ":["@,
        enc_entry_items(ks1) + "]"@ + r,
        ":["@,
        enc_entry_items(ks2) + "]"@ + t,
    );
    lemma_items_bracket_unique(ks1, r, ks2, t);
}

/// A written, brace-closed row list determines its rows and what follows.
#[verifier::rlimit(100)]
#[verifier::spinoff_prover]
proof fn lemma_rows_brace_unique(
    rows1: Seq<(Seq<char>, Seq<EntryKey>)>,
    r: Seq<char>,
    rows2: Seq<(Seq<char>, Seq<EntryKey>)>,
    t: Seq<char>,
)
    requires
        enc_rows(rows1) + "}"@ + r == enc_rows(rows2) + "}"@ + t,
    ensures
        rows1 == rows2,
        r == t,
    decreases rows1.len(),
{
    lemma_history_literals();
    let lhs = enc_rows(rows1) + "}"@ + r;
    let rhs = enc_rows(rows2) + "}"@ + t;
    if rows1.len() == 0 && rows2.len() == 0 {
        assert(enc_rows(rows1) =~= Seq::<char>::empty());
        assert(enc_rows(rows2) =~= Seq::<char>::empty());
        assert("}"@ + r =~= lhs);
        assert("}"@ + t =~= rhs);
        lemma_concat_cancel("}"@, r, "}"@, t);
        assert(rows1 =~= rows2);
    } else if rows1.len() == 0 {
        assert(lhs[0] == '}');
        lemma_rows_front(rows2);
        assert(rhs[0] == '"') by {
            assert(enc_row(rows2[0].0, rows2[0].1)[0] == '"');
            assert(enc_rows(rows2)[0] == enc_row(rows2[0].0, rows2[0].1)[0]);
        }
        assert(false);
    } else if rows2.len() == 0 {
        assert(rhs[0] == '}');
        lemma_rows_front(rows1);
        assert(lhs[0] == '"') by {
            assert(enc_row(rows1[0].0, rows1[0].1)[0] == '"');
            assert(enc_rows(rows1)[0] == enc_row(rows1[0].0, rows1[0].1)[0]);
        }
        assert(false);
    } else {
        lemma_rows_front(rows1);
        lemma_rows_front(rows2);
        assert(lhs =~= enc_row(rows1[0].0, rows1[0].1) + (enc_rows_tail(rows1.drop_first())
            + "}"@ + r));
        assert(rhs =~= enc_row(rows2[0].0, rows2[0].1) + (enc_rows_tail(rows2.drop_first())
            + "}"@ + t));
        lemma_enc_row_prefix(
            rows1[0].0,
            rows1[0].1,
            enc_rows_tail(rows1.drop_first()) + "}"@ + r,
            rows2[0].0,
            rows2[0].1,
            enc_rows_tail(rows2.drop_first()) + "}"@ + t,
        );
        let s1 = rows1.drop_first();
        let s2 = rows2.drop_first();
        if s1.len() == 0 && s2.len() == 0 {
            assert(rows1 =~= seq![rows1[0]]);
            assert(rows2 =~= seq![rows2[0]]);
            assert(enc_rows_tail(s1) =~= Seq::<char>::empty());
            assert(enc_rows_tail(s2) =~= Seq::<char>::empty());
            assert("}"@ + r =~= enc_rows_tail(s1) + "}"@ + r);
            assert("}"@ + t =~= enc_rows_tail(s2) + "}"@ + t);
            lemma_concat_cancel("}"@, r, "}"@, t);
            assert(rows1[0] == rows2[0]);
        } else if s1.len() == 0 {
            lemma_rows_tail_form(s2);
            assert((enc_rows_tail(s1) + "}"@ + r)[0] == '}') by {
                assert(enc_rows_tail(s1) =~= Seq::<char>::empty());
                assert(enc_rows_tail(s1) + "}"@ + r =~= "}"@ + r);
            }
            assert((enc_rows_tail(s2) + "}"@ + t)[0] == ',') by {
                assert(enc_rows_tail(s2)[0] == ',');
            }
            assert(false);
        } else if s2.len() == 0 {
            lemma_rows_tail_form(s1);
            assert((enc_rows_tail(s2) + "}"@ + t)[0] == '}') by {
                assert(enc_rows_tail(s2) =~= Seq::<char>::empty());
                assert(enc_rows_tail(s2) + "}"@ + t =~= "}"@ + t);
            }
            assert((enc_rows_tail(s1) + "}"@ + r)[0] == ',') by {
                assert(enc_rows_tail(s1)[0] == ',');
            }
            assert(false);
        } else {
            lemma_rows_tail_form(s1);
            lemma_rows_tail_form(s2);
            assert(enc_rows_tail(s1) + "}"@ + r =~= ","@ + (enc_rows(s1) + "}"@ + r));
            assert(enc_rows_tail(s2) + "}"@ + t =~= ","@ + (enc_rows(s2) + "}"@ + t));
            lemma_concat_cancel(
                ","@,
                enc_rows(s1) + "}"@ + r,
                ","@,
                enc_rows(s2) + "}"@ + t,
            );
            lemma_rows_brace_unique(s1, r, s2, t);
            assert(rows1 =~= seq![rows1[0]] + s1);
            assert(rows2 =~= seq![rows2[0]] + s2);
            assert(rows1 =~= rows2);
        }
    }
}

/// The written form of a history determines it: two histories with the same
/// saving hold the same rows. With the readers' contracts, loading a saved
/// history can only return the history that was saved.
pub proof fn lemma_enc_history_injective(
    a: Seq<(Seq<char>, Seq<EntryKey>)>,
    b: Seq<(Seq<char>, Seq<EntryKey>)>,
)
    requires
        enc_history(a) == enc_history(b),
    ensures
        a == b,
{
    lemma_history_literals();
    assert(enc_history(a) =~= "{"@ + (enc_rows(a) + "}"@ + Seq::<char>::empty()));
    assert(enc_history(b) =~= "{"@ + (enc_rows(b) + "}"@ + Seq::<char>::empty()));
    lemma_concat_cancel(
        "{"@,
        enc_rows(a) + "}"@ + Seq::<char>::empty(),
        "{"@,
        enc_rows(b) + "}"@ + Seq::<char>::empty(),
    );
    lemma_rows_brace_unique(a, Seq::empty(), b, Seq::empty());
}

/// The lengths and first characters of the fixed pieces of the
/// configuration format.
proof fn lemma_config_literals()
    ensures
        "{\"claude_args\":["@.len() == 16,
        ":{\"name\":"@.len() == 9,
        ",\"path\":"@.len() == 8,
        ",\"workflows_path\":"@.len() == 18,
        ",\"recent_sessions\":{"@.len() == 20,
{
    reveal_strlit("{\"claude_args\":[");
    reveal_strlit(":{\"name\":");
    reveal_strlit(",\"path\":");
    reveal_strlit(",\"workflows_path\":");
    reveal_strlit(",\"recent_sessions\":{");
}

/// The argument strings after the first, each preceded by its comma.
spec fn enc_str_tail(ss: Seq<Seq<char>>) -> Seq<char>
    decreases ss.len(),
{
    if ss.len() == 0 {
        Seq::empty()
    } else {
        ","@ + quoted(ss[0]) + enc_str_tail(ss.drop_first())
    }
}

/// The comma-led argument tail is a comma and the items of the rest.
proof fn lemma_str_tail_form(s: Seq<Seq<char>>)
    requires
        s.len() > 0,
    ensures
        enc_str_tail(s) == ","@ + enc_str_items(s),
    decreases s.len(),
{
    if s.len() == 1 {
        assert(s.drop_first() =~= Seq::<Seq<char>>::empty());
        assert(enc_str_tail(s) =~= ","@ + quoted(s[0]));
        assert(enc_str_items(s) == quoted(s[0]));
    } else {
        lemma_str_front(s);
        assert(enc_str_tail(s) == ","@ + quoted(s[0]) + enc_str_tail(s.drop_first()));
        assert(enc_str_tail(s) =~= ","@ + (quoted(s[0]) + enc_str_tail(s.drop_first())));
    }
}

/// Argument items can be peeled from the front.
proof fn lemma_str_front(ss: Seq<Seq<char>>)
    requires
        ss.len() > 0,
    ensures
        enc_str_items(ss) == quoted(ss[0]) + enc_str_tail(ss.drop_first()),
    decreases ss.len(),
{
    if ss.len() == 1 {
        assert(ss.drop_first() =~= Seq::<Seq<char>>::empty());
        assert(enc_str_items(ss) =~= quoted(ss[0]) + enc_str_tail(ss.drop_first()));
    } else {
        let head = ss.drop_last();
        lemma_str_front(head);
        assert(head[0] == ss[0]);
        assert(enc_str_items(ss) == enc_str_items(head) + ","@ + quoted(ss.last()));
        let mid = head.drop_first();
        assert(mid =~= ss.drop_first().drop_last());
        lemma_str_tail_snoc(ss.drop_first());
        assert(enc_str_tail(ss.drop_first()) == enc_str_tail(mid) + ","@ + quoted(
            ss.drop_first().last(),
        ));
        assert(ss.drop_first().last() == ss.last());
        assert(enc_str_items(ss) =~= quoted(ss[0]) + enc_str_tail(ss.drop_first()));
    }
}

/// The comma-led argument tail can be peeled from the back.
proof fn lemma_str_tail_snoc(s: Seq<Seq<char>>)
    requires
        s.len() > 0,
    ensures
        enc_str_tail(s) == enc_str_tail(s.drop_last()) + ","@ + quoted(s.last()),
    decreases s.len(),
{
    if s.len() == 1 {
        assert(s.drop_last() =~= Seq::<Seq<char>>::empty());
        assert(s.drop_first() =~= Seq::<Seq<char>>::empty());
        assert(enc_str_tail(s) =~= enc_str_tail(s.drop_last()) + ","@ + quoted(s.last()));
    } else {
        lemma_str_tail_snoc(s.drop_first());
        assert(s.drop_first().drop_last() =~= s.drop_last().drop_first());
        assert(s.drop_first().last() == s.last());
        assert(s.drop_last()[0] == s[0]);
        assert(enc_str_tail(s.drop_last()) == ","@ + quoted(s[0]) + enc_str_tail(
            s.drop_last().drop_first(),
        ));
        assert(enc_str_tail(s) =~= enc_str_tail(s.drop_last()) + ","@ + quoted(s.last()));
    }
}

/// A written, bracket-closed argument list determines its strings and what
/// follows.
#[verifier::rlimit(100)]
#[verifier::spinoff_prover]
proof fn lemma_str_bracket_unique(ss1: Seq<Seq<char>>, r: Seq<char>, ss2: Seq<Seq<char>>, t: Seq<char>)
    requires
        enc_str_items(ss1) + "]"@ + r == enc_str_items(ss2) + "]"@ + t,
    ensures
        ss1 == ss2,
        r == t,
    decreases ss1.len(),
{
    lemma_history_literals();
    let lhs = enc_str_items(ss1) + "]"@ + r;
    let rhs = enc_str_items(ss2) + "]"@ + t;
    if ss1.len() == 0 && ss2.len() == 0 {
        assert(enc_str_items(ss1) =~= Seq::<char>::empty());
        assert(enc_str_items(ss2) =~= Seq::<char>::empty());
        assert("]"@ + r =~= lhs);
        assert("]"@ + t =~= rhs);
        lemma_concat_cancel("]"@, r, "]"@, t);
        assert(ss1 =~= ss2);
    } else if ss1.len() == 0 {
        assert(lhs[0] == ']');
        lemma_str_front(ss2);
        assert(rhs[0] == '"') by {
            assert(quoted(ss2[0])[0] == '"');
            assert(enc_str_items(ss2)[0] == quoted(ss2[0])[0]);
        }
        assert(false);
    } else if ss2.len() == 0 {
        assert(rhs[0] == ']');
        lemma_str_front(ss1);
        assert(lhs[0] == '"') by {
            assert(quoted(ss1[0])[0] == '"');
            assert(enc_str_items(ss1)[0] == quoted(ss1[0])[0]);
        }
        assert(false);
    } else {
        lemma_str_front(ss1);
        lemma_str_front(ss2);
        assert(lhs =~= quoted(ss1[0]) + (enc_str_tail(ss1.drop_first()) + "]"@ + r));
        assert(rhs =~= quoted(ss2[0]) + (enc_str_tail(ss2.drop_first()) + "]"@ + t));
        lemma_quoted_prefix(
            ss1[0],
            enc_str_tail(ss1.drop_first()) + "]"@ + r,
            ss2[0],
            enc_str_tail(ss2.drop_first()) + "]"@ + t,
        );
        let s1 = ss1.drop_first();
        let s2 = ss2.drop_first();
        if s1.len() == 0 && s2.len() == 0 {
            assert(ss1 =~= seq![ss1[0]]);
            assert(ss2 =~= seq![ss2[0]]);
            assert(enc_str_tail(s1) =~= Seq::<char>::empty());
            assert(enc_str_tail(s2) =~= Seq::<char>::empty());
            assert("]"@ + r =~= enc_str_tail(s1) + "]"@ + r);
            assert("]"@ + t =~= enc_str_tail(s2) + "]"@ + t);
            lemma_concat_cancel("]"@, r, "]"@, t);
        } else if s1.len() == 0 {
            lemma_str_tail_form(s2);
            assert((enc_str_tail(s1) + "]"@ + r)[0] == ']') by {
                assert(enc_str_tail(s1) =~= Seq::<char>::empty());
                assert(enc_str_tail(s1) + "]"@ + r =~= "]"@ + r);
            }
            assert((enc_str_tail(s2) + "]"@ + t)[0] == ',') by {
                assert(enc_str_tail(s2)[0] == ',');
            }
            assert(false);
        } else if s2.len() == 0 {
            lemma_str_tail_form(s1);
            assert((enc_str_tail(s2) + "]"@ + t)[0] == ']') by {
                assert(enc_str_tail(s2) =~= Seq::<char>::empty());
                assert(enc_str_tail(s2) + "]"@ + t =~= "]"@ + t);
            }
            assert((enc_str_tail(s1) + "]"@ + r)[0] == ',') by {
                assert(enc_str_tail(s1)[0] == ',');
            }
            assert(false);
        } else {
            lemma_str_tail_form(s1);
            lemma_str_tail_form(s2);
            assert(enc_str_tail(s1) + "]"@ + r =~= ","@ + (enc_str_items(s1) + "]"@ + r));
            assert(enc_str_tail(s2) + "]"@ + t =~= ","@ + (enc_str_items(s2) + "]"@ + t));
            lemma_concat_cancel(
                ","@,
                enc_str_items(s1) + "]"@ + r,
                ","@,
                enc_str_items(s2) + "]"@ + t,
            );
            lemma_str_bracket_unique(s1, r, s2, t);
            assert(ss1 =~= seq![ss1[0]] + s1);
            assert(ss2 =~= seq![ss2[0]] + s2);
            assert(ss1 =~= ss2);
        }
    }
}

/// A written remembered-session row determines its fields and what follows.
proof fn lemma_enc_rec_prefix(
    a1: Seq<char>,
    n1: Seq<char>,
    p1: Seq<char>,
    r: Seq<char>,
    a2: Seq<char>,
    n2: Seq<char>,
    p2: Seq<char>,
    t: Seq<char>,
)
    requires
        enc_rec(a1, n1, p1) + r == enc_rec(a2, n2, p2) + t,
    ensures
        a1 == a2,
        n1 == n2,
        p1 == p2,
        r == t,
{
    lemma_history_literals();
    lemma_config_literals();
    let l1 = ":{\"name\":"@;
    let l2 = ",\"path\":"@;
    let l3 = "}"@;
    assert(enc_rec(a1, n1, p1) + r =~= quoted(a1) + (l1 + (quoted(n1) + (l2 + (quoted(p1)
        + (l3 + r))))));
    assert(enc_rec(a2, n2, p2) + t =~= quoted(a2) + (l1 + (quoted(n2) + (l2 + (quoted(p2)
        + (l3 + t))))));
    lemma_quoted_prefix(
        a1,
        l1 + (quoted(n1) + (l2 + (quoted(p1) + (l3 + r)))),
        a2,
        l1 + (quoted(n2) + (l2 + (quoted(p2) + (l3 + t)))),
    );
    lemma_concat_cancel(
        l1,
        quoted(n1) + (l2 + (quoted(p1) + (l3 + r))),
        l1,
        quoted(n2) + (l2 + (quoted(p2) + (l3 + t))),
    );
    lemma_quoted_prefix(n1, l2 + (quoted(p1) + (l3 + r)), n2, l2 + (quoted(p2) + (l3 + t)));
    lemma_concat_cancel(l2, quoted(p1) + (l3 + r), l2, quoted(p2) + (l3 + t));
    lemma_quoted_prefix(p1, l3 + r, p2, l3 + t);
    lemma_concat_cancel(l3, r, l3, t);
}

/// The remembered-session rows after the first, each preceded by its comma.
spec fn enc_rec_tail(rows: Seq<(Seq<char>, (Seq<char>, Seq<char>))>) -> Seq<char>
    decreases rows.len(),
{
    if rows.len() == 0 {
        Seq::empty()
    } else {
        ","@ + enc_rec(rows[0].0, rows[0].1.0, rows[0].1.1) + enc_rec_tail(
            rows.drop_first(),
        )
    }
}

/// The comma-led remembered-session tail is a comma and the rows of the
/// rest.
proof fn lemma_rec_tail_form(s: Seq<(Seq<char>, (Seq<char>, Seq<char>))>)
    requires
        s.len() > 0,
    ensures
        enc_rec_tail(s) == ","@ + enc_rec_rows(s),
    decreases s.len(),
{
    if s.len() == 1 {
        assert(s.drop_first() =~= Seq::<(Seq<char>, (Seq<char>, Seq<char>))>::empty());
        assert(enc_rec_tail(s) =~= ","@ + enc_rec(s[0].0, s[0].1.0, s[0].1.1));
        assert(enc_rec_rows(s) == enc_rec(s[0].0, s[0].1.0, s[0].1.1));
    } else {
        lemma_rec_front(s);
        assert(enc_rec_tail(s) == ","@ + enc_rec(s[0].0, s[0].1.0, s[0].1.1)
            + enc_rec_tail(s.drop_first()));
        assert(enc_rec_tail(s) =~= ","@ + (enc_rec(s[0].0, s[0].1.0, s[0].1.1)
            + enc_rec_tail(s.drop_first())));
    }
}

/// Remembered-session rows can be peeled from the front.
proof fn lemma_rec_front(rows: Seq<(Seq<char>, (Seq<char>, Seq<char>))>)
    requires
        rows.len() > 0,
    ensures
        enc_rec_rows(rows) == enc_rec(rows[0].0, rows[0].1.0, rows[0].1.1) + enc_rec_tail(
            rows.drop_first(),
        ),
    decreases rows.len(),
{
    if rows.len() == 1 {
        assert(rows.drop_first() =~= Seq::<(Seq<char>, (Seq<char>, Seq<char>))>::empty());
        assert(enc_rec_rows(rows) =~= enc_rec(rows[0].0, rows[0].1.0, rows[0].1.1)
            + enc_rec_tail(rows.drop_first()));
    } else {
        let head = rows.drop_last();
        lemma_rec_front(head);
        assert(head[0] == rows[0]);
        assert(enc_rec_rows(rows) == enc_rec_rows(head) + ","@ + enc_rec(
            rows.last().0,
            rows.last().1.0,
            rows.last().1.1,
        ));
        let mid = head.drop_first();
        assert(mid =~= rows.drop_first().drop_last());
        lemma_rec_tail_snoc(rows.drop_first());
        assert(enc_rec_tail(rows.drop_first()) == enc_rec_tail(mid) + ","@ + enc_rec(
            rows.drop_first().last().0,
            rows.drop_first().last().1.0,
            rows.drop_first().last().1.1,
        ));
        assert(rows.drop_first().last() == rows.last());
        assert(enc_rec_rows(rows) =~= enc_rec(rows[0].0, rows[0].1.0, rows[0].1.1)
            + enc_rec_tail(rows.drop_first()));
    }
}

/// The comma-led remembered-session tail can be peeled from the back.
proof fn lemma_rec_tail_snoc(s: Seq<(Seq<char>, (Seq<char>, Seq<char>))>)
    requires
        s.len() > 0,
    ensures
        enc_rec_tail(s) == enc_rec_tail(s.drop_last()) + ","@ + enc_rec(
            s.last().0,
            s.last().1.0,
            s.last().1.1,
        ),
    decreases s.len(),
{
    if s.len() == 1 {
        assert(s.drop_last() =~= Seq::<(Seq<char>, (Seq<char>, Seq<char>))>::empty());
        assert(s.drop_first() =~= Seq::<(Seq<char>, (Seq<char>, Seq<char>))>::empty());
        assert(enc_rec_tail(s) =~= enc_rec_tail(s.drop_last()) + ","@ + enc_rec(
            s.last().0,
            s.last().1.0,
            s.last().1.1,
        ));
    } else {
        lemma_rec_tail_snoc(s.drop_first());
        assert(s.drop_first().drop_last() =~= s.drop_last().drop_first());
        assert(s.drop_first().last() == s.last());
        assert(s.drop_last()[0] == s[0]);
        assert(enc_rec_tail(s.drop_last()) == ","@ + enc_rec(s[0].0, s[0].1.0, s[0].1.1)
            + enc_rec_tail(s.drop_last().drop_first()));
        assert(enc_rec_tail(s) =~= enc_rec_tail(s.drop_last()) + ","@ + enc_rec(
            s.last().0,
            s.last().1.0,
            s.last().1.1,
        ));
    }
}

/// A written, brace-closed remembered-session list determines its rows and
/// what follows.
#[verifier::rlimit(100)]
#[verifier::spinoff_prover]
proof fn lemma_rec_brace_unique(
    rows1: Seq<(Seq<char>, (Seq<char>, Seq<char>))>,
    r: Seq<char>,
    rows2: Seq<(Seq<char>, (Seq<char>, Seq<char>))>,
    t: Seq<char>,
)
    requires
        enc_rec_rows(rows1) + "}"@ + r == enc_rec_rows(rows2) + "}"@ + t,
    ensures
        rows1 == rows2,
        r == t,
    decreases rows1.len(),
{
    lemma_history_literals();
    let lhs = enc_rec_rows(rows1) + "}"@ + r;
    let rhs = enc_rec_rows(rows2) + "}"@ + t;
    if rows1.len() == 0 && rows2.len() == 0 {
        assert(enc_rec_rows(rows1) =~= Seq::<char>::empty());
        assert(enc_rec_rows(rows2) =~= Seq::<char>::empty());
        assert("}"@ + r =~= lhs);
        assert("}"@ + t =~= rhs);
        lemma_concat_cancel("}"@, r, "}"@, t);
        assert(rows1 =~= rows2);
    } else if rows1.len() == 0 {
        assert(lhs[0] == '}');
        lemma_rec_front(rows2);
        assert(rhs[0] == '"') by {
            assert(enc_rec(rows2[0].0, rows2[0].1.0, rows2[0].1.1)[0] == '"');
            assert(enc_rec_rows(rows2)[0] == enc_rec(
                rows2[0].0,
                rows2[0].1.0,
                rows2[0].1.1,
            )[0]);
        }
        assert(false);
    } else if rows2.len() == 0 {
        assert(rhs[0] == '}');
        lemma_rec_front(rows1);
        assert(lhs[0] == '"') by {
            assert(enc_rec(rows1[0].0, rows1[0].1.0, rows1[0].1.1)[0] == '"');
            assert(enc_rec_rows(rows1)[0] == enc_rec(
                rows1[0].0,
                rows1[0].1.0,
                rows1[0].1.1,
            )[0]);
        }
        assert(false);
    } else {
        lemma_rec_front(rows1);
        lemma_rec_front(rows2);
        assert(lhs =~= enc_rec(rows1[0].0, rows1[0].1.0, rows1[0].1.1) + (enc_rec_tail(
            rows1.drop_first(),
        ) + "}"@ + r));
        assert(rhs =~= enc_rec(rows2[0].0, rows2[0].1.0, rows2[0].1.1) + (enc_rec_tail(
            rows2.drop_first(),
        ) + "}"@ + t));
        lemma_enc_rec_prefix(
            rows1[0].0,
            rows1[0].1.0,
            rows1[0].1.1,
            enc_rec_tail(rows1.drop_first()) + "}"@ + r,
            rows2[0].0,
            rows2[0].1.0,
            rows2[0].1.1,
            enc_rec_tail(rows2.drop_first()) + "}"@ + t,
        );
        let s1 = rows1.drop_first();
        let s2 = rows2.drop_first();
        if s1.len() == 0 && s2.len() == 0 {
            assert(rows1 =~= seq![rows1[0]]);
            assert(rows2 =~= seq![rows2[0]]);
            assert(enc_rec_tail(s1) =~= Seq::<char>::empty());
            assert(enc_rec_tail(s2) =~= Seq::<char>::empty());
            assert("}"@ + r =~= enc_rec_tail(s1) + "}"@ + r);
            assert("}"@ + t =~= enc_rec_tail(s2) + "}"@ + t);
            lemma_concat_cancel("}"@, r, "}"@, t);
            assert(rows1[0].1 == rows2[0].1);
        } else if s1.len() == 0 {
            lemma_rec_tail_form(s2);
            assert((enc_rec_tail(s1) + "}"@ + r)[0] == '}') by {
                assert(enc_rec_tail(s1) =~= Seq::<char>::empty());
                assert(enc_rec_tail(s1) + "}"@ + r =~= "}"@ + r);
            }
            assert((enc_rec_tail(s2) + "}"@ + t)[0] == ',') by {
                assert(enc_rec_tail(s2)[0] == ',');
            }
            assert(false);
        } else if s2.len() == 0 {
            lemma_rec_tail_form(s1);
            assert((enc_rec_tail(s2) + "}"@ + t)[0] == '}') by {
                assert(enc_rec_tail(s2) =~= Seq::<char>::empty());
                assert(enc_rec_tail(s2) + "}"@ + t =~= "}"@ + t);
            }
            assert((enc_rec_tail(s1) + "}"@ + r)[0] == ',') by {
                assert(enc_rec_tail(s1)[0] == ',');
            }
            assert(false);
        } else {
            lemma_rec_tail_form(s1);
            lemma_rec_tail_form(s2);
            assert(enc_rec_tail(s1) + "}"@ + r =~= ","@ + (enc_rec_rows(s1) + "}"@ + r));
            assert(enc_rec_tail(s2) + "}"@ + t =~= ","@ + (enc_rec_rows(s2) + "}"@ + t));
            lemma_concat_cancel(
                ","@,
                enc_rec_rows(s1) + "}"@ + r,
                ","@,
                enc_rec_rows(s2) + "}"@ + t,
            );
            lemma_rec_brace_unique(s1, r, s2, t);
            assert(rows1 =~= seq![rows1[0]] + s1);
            assert(rows2 =~= seq![rows2[0]] + s2);
            assert(rows1 =~= rows2);
        }
    }
}

/// The written form of a configuration determines it. With the readers'
/// contracts, loading a saved configuration can only return the
/// configuration that was saved.
#[verifier::rlimit(100)]
#[verifier::spinoff_prover]
pub proof fn lemma_enc_config_injective(
    args1: Seq<Seq<char>>,
    w1: Seq<char>,
    rows1: Seq<(Seq<char>, (Seq<char>, Seq<char>))>,
    args2: Seq<Seq<char>>,
    w2: Seq<char>,
    rows2: Seq<(Seq<char>, (Seq<char>, Seq<char>))>,
)
    requires
        enc_config(args1, w1, rows1) == enc_config(args2, w2, rows2),
    ensures
        args1 == args2,
        w1 == w2,
        rows1 == rows2,
{
    lemma_history_literals();
    lemma_config_literals();
    let la = "{\"claude_args\":["@;
    let lw = ",\"workflows_path\":"@;
    let lr = ",\"recent_sessions\":{"@;
    let tail1 = lw + (quoted(w1) + (lr + (enc_rec_rows(rows1) + "}"@ + ("}"@
        + Seq::<char>::empty()))));
    let tail2 = lw + (quoted(w2) + (lr + (enc_rec_rows(rows2) + "}"@ + ("}"@
        + Seq::<char>::empty()))));
    assert(enc_config(args1, w1, rows1) =~= la + (enc_str_items(args1) + "]"@ + tail1));
    assert(enc_config(args2, w2, rows2) =~= la + (enc_str_items(args2) + "]"@ + tail2));
    lemma_concat_cancel(
        la,
        enc_str_items(args1) + "]"@ + tail1,
        la,
        enc_str_items(args2) + "]"@ + tail2,
    );
    lemma_str_bracket_unique(args1, tail1, args2, tail2);
    lemma_concat_cancel(
        lw,
        quoted(w1) + (lr + (enc_rec_rows(rows1) + "}"@ + ("}"@ + Seq::<char>::empty()))),
        lw,
        quoted(w2) + (lr + (enc_rec_rows(rows2) + "}"@ + ("}"@ + Seq::<char>::empty()))),
    );
    lemma_quoted_prefix(
        w1,
        lr + (enc_rec_rows(rows1) + "}"@ + ("}"@ + Seq::<char>::empty())),
        w2,
        lr + (enc_rec_rows(rows2) + "}"@ + ("}"@ + Seq::<char>::empty())),
    );
    lemma_concat_cancel(
        lr,
        enc_rec_rows(rows1) + "}"@ + ("}"@ + Seq::<char>::empty()),
        lr,
        enc_rec_rows(rows2) + "}"@ + ("}"@ + Seq::<char>::empty()),
    );
    lemma_rec_brace_unique(
        rows1,
        "}"@ + Seq::<char>::empty(),
        rows2,
        "}"@ + Seq::<char>::empty(),
    );
}

/// Two strings with the same written form are the same string.
pub proof fn lemma_quoted_injective(a: Seq<char>, b: Seq<char>)
    requires
        quoted(a) == quoted(b),
    ensures
        a == b,
{
    lemma_quoted_round_trip(a, Seq::empty());
    lemma_quoted_round_trip(b, Seq::empty());
    assert(quoted(a) + Seq::<char>::empty() =~= quoted(a));
    assert(quoted(b) + Seq::<char>::empty() =~= quoted(b));
}

/// Append a string in quoted, escaped form.
fn emit_quoted(out: &mut Vec<char>, s: &str)
    ensures
        final(out)@ == old(out)@ + quoted(s@),
{
    let ghost start = out@;
    out.push('"');
    let chars = str_chars(s);
    let n = chars.len();
    let mut i: usize = 0;
    proof {
        assert(esc(s@.take(0)) =~= Seq::<char>::empty());
        assert(out@ =~= start + seq!['"'] + esc(s@.take(0)));
    }
    while i < n
        invariant
            n == chars@.len(),
            chars@ == s@,
            i <= n,
            out@ == start + seq!['"'] + esc(s@.take(i as int)),
        decreases n - i,
    {
        let c = chars[i];
        let ghost t1 = s@.take(i + 1);
        proof {
            assert(t1.drop_last() =~= s@.take(i as int));
            assert(t1.last() == s@[i as int]);
        }
        if c == '"' || c == '\\' {
            out.push('\\');
            out.push(c);
        } else {
            out.push(c);
        }
        proof {
            assert(out@ =~= start + seq!['"'] + esc(t1));
        }
        i += 1;
    }
    out.push('"');
    proof {
        assert(s@.take(n as int) =~= s@);
        assert(out@ =~= start + quoted(s@));
    }
}

/// Append a literal.
fn emit_lit(out: &mut Vec<char>, lit: &str)
    ensures
        final(out)@ == old(out)@ + lit@,
{
    let ghost start = out@;
    let chars = str_chars(lit);
    let n = chars.len();
    let mut i: usize = 0;
    while i < n
        invariant
            n == chars@.len(),
            chars@ == lit@,
            i <= n,
            out@ == start + lit@.take(i as int),
        decreases n - i,
    {
        out.push(chars[i]);
        proof {
            assert(out@ =~= start + lit@.take(i + 1));
        }
        i += 1;
    }
    proof {
        assert(lit@.take(n as int) =~= lit@);
    }
}

/// Write a history in the persistence format.
pub fn encode_history(h: &SessionHistory) -> (r: String)
    ensures
        r@ == enc_history(history_rows(*h)),
{
    let mut out: Vec<char> = Vec::new();
    emit_lit(&mut out, "{");
    proof {
        assert(enc_rows(history_rows(*h).take(0)) =~= Seq::<char>::empty());
        assert(out@ =~= "{"@ + enc_rows(history_rows(*h).take(0)));
    }
    let n = h.recent_sessions.len();
    let mut i: usize = 0;
    while i < n
        invariant
            n == h.recent_sessions@.len(),
            i <= n,
            out@ == "{"@ + enc_rows(history_rows(*h).take(i as int)),
        decreases n - i,
    {
        let ghost rows = history_rows(*h);
        let ghost t1 = rows.take(i + 1);
        proof {
            assert(t1.drop_last() =~= rows.take(i as int));
            assert(t1.last() == rows[i as int]);
        }
        if i > 0 {
            emit_lit(&mut out, ",");
        }
        let row = &h.recent_sessions[i];
        emit_quoted(&mut out, row.0.as_str());
        emit_lit(&mut out, ":[");
        let ghost ks = keys_of(row.1@);
        let en = row.1.len();
        let mut j: usize = 0;
        proof {
            assert(enc_entry_items(ks.take(0)) =~= Seq::<char>::empty());
        }
        let ghost row_start = out@;
        while j < en
            invariant
                en == row.1@.len(),
                j <= en,
                ks == keys_of(row.1@),
                out@ == row_start + enc_entry_items(ks.take(j as int)),
            decreases en - j,
        {
            let ghost kt1 = ks.take(j + 1);
            proof {
                assert(kt1.drop_last() =~= ks.take(j as int));
                assert(kt1.last() == ks[j as int]);
                assert(ks[j as int] == row.1@[j as int].key());
            }
            if j > 0 {
                emit_lit(&mut out, ",");
            }
            let e = &row.1[j];
            emit_lit(&mut out, "{\"name\":");
            emit_quoted(&mut out, e.name.as_str());
            emit_lit(&mut out, ",\"project_path\":");
            emit_quoted(&mut out, e.project_path.as_str());
            emit_lit(&mut out, "}");
            proof {
                assert(out@ =~= row_start + enc_entry_items(kt1));
            }
            j += 1;
        }
        emit_lit(&mut out, "]");
        proof {
            assert(ks.take(en as int) =~= ks);
            assert(rows[i as int].0 == row.0@);
            assert(rows[i as int].1 == ks);
            if i == 0 {
                assert(t1.len() == 1);
                assert(enc_rows(t1) == enc_row(t1[0].0, t1[0].1));
            } else {
                assert(enc_rows(t1) == enc_rows(t1.drop_last()) + ","@ + enc_row(
                    t1.last().0,
                    t1.last().1,
                ));
            }
            assert(out@ =~= "{"@ + enc_rows(t1));
        }
        i += 1;
    }
    emit_lit(&mut out, "}");
    proof {
        assert(history_rows(*h).take(n as int) =~= history_rows(*h));
        assert(out@ =~= enc_history(history_rows(*h)));
    }
    chars_to_string(&out)
}

/// The comma-separated quoted strings of an argument list.
pub open spec fn enc_str_items(ss: Seq<Seq<char>>) -> Seq<char>
    decreases ss.len(),
{
    if ss.len() == 0 {
        Seq::empty()
    } else if ss.len() == 1 {
        quoted(ss[0])
    } else {
        enc_str_items(ss.drop_last()) + ","@ + quoted(ss.last())
    }
}

/// One remembered-session row of the configuration as written.
pub open spec fn enc_rec(startup: Seq<char>, name: Seq<char>, path: Seq<char>) -> Seq<char> {
    quoted(startup) + ":{\"name\":"@ + quoted(name) + ",\"path\":"@ + quoted(path) + "}"@
}

/// The comma-separated remembered-session rows.
pub open spec fn enc_rec_rows(rows: Seq<(Seq<char>, (Seq<char>, Seq<char>))>) -> Seq<char>
    decreases rows.len(),
{
    if rows.len() == 0 {
        Seq::empty()
    } else if rows.len() == 1 {
        enc_rec(rows[0].0, rows[0].1.0, rows[0].1.1)
    } else {
        enc_rec_rows(rows.drop_last()) + ","@ + enc_rec(
            rows.last().0,
            rows.last().1.0,
            rows.last().1.1,
        )
    }
}

/// A whole configuration as written.
pub open spec fn enc_config(
    args: Seq<Seq<char>>,
    workflows: Seq<char>,
    rows: Seq<(Seq<char>, (Seq<char>, Seq<char>))>,
) -> Seq<char> {
    "{\"claude_args\":["@ + enc_str_items(args) + "]"@ + ",\"workflows_path\":"@ + quoted(
        workflows,
    ) + ",\"recent_sessions\":{"@ + enc_rec_rows(rows) + "}"@ + "}"@
}

/// The argument views a configuration holds.
pub open spec fn config_args(c: Config) -> Seq<Seq<char>> {
    c.claude_args@.map_values(|s: String| s@)
}

/// The remembered-session rows a configuration holds, at the view level.
pub open spec fn config_rows(c: Config) -> Seq<(Seq<char>, (Seq<char>, Seq<char>))> {
    c.recent_sessions@.map_values(
        |p: (String, MostRecentSession)| (p.0@, (p.1.name@, p.1.path@)),
    )
}

/// Write a configuration in the persistence format.
pub fn encode_config(c: &Config) -> (r: String)
    ensures
        r@ == enc_config(config_args(*c), c.workflows_path@, config_rows(*c)),
{
    let mut out: Vec<char> = Vec::new();
    emit_lit(&mut out, "{\"claude_args\":[");
    let ghost args = config_args(*c);
    let an = c.claude_args.len();
    let mut i: usize = 0;
    proof {
        assert(enc_str_items(args.take(0)) =~= Seq::<char>::empty());
        assert(out@ =~= "{\"claude_args\":["@ + enc_str_items(args.take(0)));
    }
    while i < an
        invariant
            an == c.claude_args@.len(),
            i <= an,
            args == config_args(*c),
            out@ == "{\"claude_args\":["@ + enc_str_items(args.take(i as int)),
        decreases an - i,
    {
        let ghost t1 = args.take(i + 1);
        proof {
            assert(t1.drop_last() =~= args.take(i as int));
            assert(t1.last() == args[i as int]);
        }
        if i > 0 {
            emit_lit(&mut out, ",");
        }
        emit_quoted(&mut out, c.claude_args[i].as_str());
        proof {
            if i == 0 {
                assert(enc_str_items(t1) == quoted(t1[0]));
            } else {
                assert(enc_str_items(t1) == enc_str_items(t1.drop_last()) + ","@
                    + quoted(t1.last()));
            }
            assert(out@ =~= "{\"claude_args\":["@ + enc_str_items(t1));
        }
        i += 1;
    }
    proof {
        assert(args.take(an as int) =~= args);
    }
    emit_lit(&mut out, "]");
    emit_lit(&mut out, ",\"workflows_path\":");
    emit_quoted(&mut out, c.workflows_path.as_str());
    emit_lit(&mut out, ",\"recent_sessions\":{");
    let ghost rows = config_rows(*c);
    let ghost mid = out@;
    let rn = c.recent_sessions.len();
    let mut j: usize = 0;
    proof {
        assert(enc_rec_rows(rows.take(0)) =~= Seq::<char>::empty());
        assert(out@ =~= mid + enc_rec_rows(rows.take(0)));
    }
    while j < rn
        invariant
            rn == c.recent_sessions@.len(),
            j <= rn,
            rows == config_rows(*c),
            out@ == mid + enc_rec_rows(rows.take(j as int)),
        decreases rn - j,
    {
        let ghost t1 = rows.take(j + 1);
        proof {
            assert(t1.drop_last() =~= rows.take(j as int));
            assert(t1.last() == rows[j as int]);
        }
        if j > 0 {
            emit_lit(&mut out, ",");
        }
        let row = &c.recent_sessions[j];
        emit_quoted(&mut out, row.0.as_str());
        emit_lit(&mut out, ":{\"name\":");
        emit_quoted(&mut out, row.1.name.as_str());
        emit_lit(&mut out, ",\"path\":");
        emit_quoted(&mut out, row.1.path.as_str());
        emit_lit(&mut out, "}");
        proof {
            if j == 0 {
                assert(enc_rec_rows(t1) == enc_rec(t1[0].0, t1[0].1.0, t1[0].1.1));
            } else {
                assert(enc_rec_rows(t1) == enc_rec_rows(t1.drop_last()) + ","@ + enc_rec(
                    t1.last().0,
                    t1.last().1.0,
                    t1.last().1.1,
                ));
            }
            assert(out@ =~= mid + enc_rec_rows(t1));
        }
        j += 1;
    }
    proof {
        assert(rows.take(rn as int) =~= rows);
    }
    emit_lit(&mut out, "}");
    emit_lit(&mut out, "}");
    proof {
        assert(out@ =~= enc_config(config_args(*c), c.workflows_path@, config_rows(*c)));
    }
    chars_to_string(&out)
}

/// Read one remembered-session row of the configuration.
#[verifier::rlimit(100)]
#[verifier::spinoff_prover]
fn parse_rec_row(v: &Vec<char>, pos: usize) -> (r: Option<(String, MostRecentSession, usize)>)
    requires
        pos <= v@.len(),
    ensures
        match r {
            Some(p) => pos < p.2 <= v@.len() && v@.subrange(pos as int, p.2 as int)
                == enc_rec(p.0@, p.1.name@, p.1.path@),
            None => true,
        },
        forall|a2: Seq<char>, n2: Seq<char>, p2: Seq<char>, rest: Seq<char>|
            v@.skip(pos as int) == #[trigger] (enc_rec(a2, n2, p2) + rest) ==> r is Some,
{
    let ghost tail = v@.skip(pos as int);
    proof {
        lemma_history_literals();
        lemma_config_literals();
    }
    let (startup, a) = match parse_quoted(v, pos) {
        Some(p) => p,
        None => {
            proof {
                assert forall|a2: Seq<char>, n2: Seq<char>, p2: Seq<char>, rest: Seq<char>|
                    tail == #[trigger] (enc_rec(a2, n2, p2) + rest) implies false by {
                    assert(tail =~= quoted(a2) + (":{\"name\":"@ + (quoted(n2) + (
                    ",\"path\":"@ + (quoted(p2) + ("}"@ + rest))))));
                    lemma_quoted_round_trip(
                        a2,
                        ":{\"name\":"@ + (quoted(n2) + (",\"path\":"@ + (quoted(p2) + (
                        "}"@ + rest)))),
                    );
                }
            }
            return None;
        }
    };
    let b = match expect_lit(v, a, ":{\"name\":") {
        Some(p) => p,
        None => {
            proof {
                assert forall|a2: Seq<char>, n2: Seq<char>, p2: Seq<char>, rest: Seq<char>|
                    tail == #[trigger] (enc_rec(a2, n2, p2) + rest) implies false by {
                    assert(tail =~= quoted(a2) + (":{\"name\":"@ + (quoted(n2) + (
                    ",\"path\":"@ + (quoted(p2) + ("}"@ + rest))))));
                    lemma_quoted_round_trip(
                        a2,
                        ":{\"name\":"@ + (quoted(n2) + (",\"path\":"@ + (quoted(p2) + (
                        "}"@ + rest)))),
                    );
                    assert(a == pos + quoted(a2).len());
                    assert(a + 9 <= v@.len());
                    assert(v@.subrange(a as int, a + 9) =~= ":{\"name\":"@) by {
                        assert(forall|q: int|
                            0 <= q < 9 ==> #[trigger] v@.subrange(a as int, a + 9)[q]
                                == tail[quoted(a2).len() + q]);
                    }
                }
            }
            return None;
        }
    };
    let (name, c) = match parse_quoted(v, b) {
        Some(p) => p,
        None => {
            proof {
                assert forall|a2: Seq<char>, n2: Seq<char>, p2: Seq<char>, rest: Seq<char>|
                    tail == #[trigger] (enc_rec(a2, n2, p2) + rest) implies false by {
                    assert(tail =~= quoted(a2) + (":{\"name\":"@ + (quoted(n2) + (
                    ",\"path\":"@ + (quoted(p2) + ("}"@ + rest))))));
                    lemma_quoted_round_trip(
                        a2,
                        ":{\"name\":"@ + (quoted(n2) + (",\"path\":"@ + (quoted(p2) + (
                        "}"@ + rest)))),
                    );
                    assert(a == pos + quoted(a2).len());
                    assert(v@.skip(b as int) =~= quoted(n2) + (",\"path\":"@ + (quoted(
                        p2,
                    ) + ("}"@ + rest)))) by {
                        assert(forall|q: int|
                            0 <= q < v@.len() - b ==> #[trigger] v@.skip(b as int)[q]
                                == tail[quoted(a2).len() + 9 + q]);
                    }
                    lemma_quoted_round_trip(
                        n2,
                        ",\"path\":"@ + (quoted(p2) + ("}"@ + rest)),
                    );
                }
            }
            return None;
        }
    };
    let d = match expect_lit(v, c, ",\"path\":") {
        Some(p) => p,
        None => {
            proof {
                assert forall|a2: Seq<char>, n2: Seq<char>, p2: Seq<char>, rest: Seq<char>|
                    tail == #[trigger] (enc_rec(a2, n2, p2) + rest) implies false by {
                    assert(tail =~= quoted(a2) + (":{\"name\":"@ + (quoted(n2) + (
                    ",\"path\":"@ + (quoted(p2) + ("}"@ + rest))))));
                    lemma_quoted_round_trip(
                        a2,
                        ":{\"name\":"@ + (quoted(n2) + (",\"path\":"@ + (quoted(p2) + (
                        "}"@ + rest)))),
                    );
                    assert(a == pos + quoted(a2).len());
                    assert(v@.skip(b as int) =~= quoted(n2) + (",\"path\":"@ + (quoted(
                        p2,
                    ) + ("}"@ + rest)))) by {
                        assert(forall|q: int|
                            0 <= q < v@.len() - b ==> #[trigger] v@.skip(b as int)[q]
                                == tail[quoted(a2).len() + 9 + q]);
                    }
                    lemma_quoted_round_trip(
                        n2,
                        ",\"path\":"@ + (quoted(p2) + ("}"@ + rest)),
                    );
                    assert(name@ == n2 && c == b + quoted(n2).len());
                    assert(c + 8 <= v@.len());
                    assert(v@.subrange(c as int, c + 8) =~= ",\"path\":"@) by {
                        assert(forall|q: int|
                            0 <= q < 8 ==> #[trigger] v@.subrange(c as int, c + 8)[q]
                                == v@.skip(b as int)[quoted(n2).len() + q]);
                    }
                }
            }
            return None;
        }
    };
    let (path, e) = match parse_quoted(v, d) {
        Some(p) => p,
        None => {
            proof {
                assert forall|a2: Seq<char>, n2: Seq<char>, p2: Seq<char>, rest: Seq<char>|
                    tail == #[trigger] (enc_rec(a2, n2, p2) + rest) implies false by {
                    assert(tail =~= quoted(a2) + (":{\"name\":"@ + (quoted(n2) + (
                    ",\"path\":"@ + (quoted(p2) + ("}"@ + rest))))));
                    lemma_quoted_round_trip(
                        a2,
                        ":{\"name\":"@ + (quoted(n2) + (",\"path\":"@ + (quoted(p2) + (
                        "}"@ + rest)))),
                    );
                    assert(a == pos + quoted(a2).len());
                    assert(v@.skip(b as int) =~= quoted(n2) + (",\"path\":"@ + (quoted(
                        p2,
                    ) + ("}"@ + rest)))) by {
                        assert(forall|q: int|
                            0 <= q < v@.len() - b ==> #[trigger] v@.skip(b as int)[q]
                                == tail[quoted(a2).len() + 9 + q]);
                    }
                    lemma_quoted_round_trip(
                        n2,
                        ",\"path\":"@ + (quoted(p2) + ("}"@ + rest)),
                    );
                    assert(name@ == n2 && c == b + quoted(n2).len());
                    assert(v@.skip(d as int) =~= quoted(p2) + ("}"@ + rest)) by {
                        assert(forall|q: int|
                            0 <= q < v@.len() - d ==> #[trigger] v@.skip(d as int)[q]
                                == v@.skip(b as int)[quoted(n2).len() + 8 + q]);
                    }
                    lemma_quoted_round_trip(p2, "}"@ + rest);
                }
            }
            return None;
        }
    };
    let f = match expect_lit(v, e, "}") {
        Some(p) => p,
        None => {
            proof {
                assert forall|a2: Seq<char>, n2: Seq<char>, p2: Seq<char>, rest: Seq<char>|
                    tail == #[trigger] (enc_rec(a2, n2, p2) + rest) implies false by {
                    assert(tail =~= quoted(a2) + (":{\"name\":"@ + (quoted(n2) + (
                    ",\"path\":"@ + (quoted(p2) + ("}"@ + rest))))));
                    lemma_quoted_round_trip(
                        a2,
                        ":{\"name\":"@ + (quoted(n2) + (",\"path\":"@ + (quoted(p2) + (
                        "}"@ + rest)))),
                    );
                    assert(a == pos + quoted(a2).len());
                    assert(v@.skip(b as int) =~= quoted(n2) + (",\"path\":"@ + (quoted(
                        p2,
                    ) + ("}"@ + rest)))) by {
                        assert(forall|q: int|
                            0 <= q < v@.len() - b ==> #[trigger] v@.skip(b as int)[q]
                                == tail[quoted(a2).len() + 9 + q]);
                    }
                    lemma_quoted_round_trip(
                        n2,
                        ",\"path\":"@ + (quoted(p2) + ("}"@ + rest)),
                    );
                    assert(name@ == n2 && c == b + quoted(n2).len());
                    assert(v@.skip(d as int) =~= quoted(p2) + ("}"@ + rest)) by {
                        assert(forall|q: int|
                            0 <= q < v@.len() - d ==> #[trigger] v@.skip(d as int)[q]
                                == v@.skip(b as int)[quoted(n2).len() + 8 + q]);
                    }
                    lemma_quoted_round_trip(p2, "}"@ + rest);
                    assert(path@ == p2 && e == d + quoted(p2).len());
                    assert(e + 1 <= v@.len());
                    assert(v@.subrange(e as int, e + 1) =~= "}"@) by {
                        assert(v@.subrange(e as int, e + 1)[0] == v@.skip(d as int)[
                            quoted(p2).len() as int]);
                    }
                }
            }
            return None;
        }
    };
    proof {
        assert(v@.subrange(pos as int, f as int) =~= v@.subrange(pos as int, a as int)
            + v@.subrange(a as int, b as int) + v@.subrange(b as int, c as int)
            + v@.subrange(c as int, d as int) + v@.subrange(d as int, e as int)
            + v@.subrange(e as int, f as int));
        assert(v@.subrange(pos as int, f as int) =~= enc_rec(startup@, name@, path@));
    }
    Some((startup, MostRecentSession { name, path }, f))
}

/// Read a configuration written by `encode_config`. Whenever one comes
/// back, the whole input is exactly its writing, and it is well formed.
#[verifier::rlimit(100)]
#[verifier::spinoff_prover]
/// What follows the argument list's bracket in a written configuration.
pub open spec fn cfg_tail(w: Seq<char>, rows: Seq<(Seq<char>, (Seq<char>, Seq<char>))>) -> Seq<
    char,
> {
    ",\"workflows_path\":"@ + (quoted(w) + (",\"recent_sessions\":{"@ + (enc_rec_rows(
        rows,
    ) + ("}"@ + ("}"@ + Seq::<char>::empty())))))
}

/// Row-level well-formedness of a configuration: unique startup paths.
pub open spec fn cfg_rows_wf(rows: Seq<(Seq<char>, (Seq<char>, Seq<char>))>) -> bool {
    forall|i: int, j: int|
        0 <= i < j < rows.len() ==> (#[trigger] rows[i]).0 != (#[trigger] rows[j]).0
}

/// A configuration is well formed exactly when its rows are.
proof fn lemma_cfg_rows_wf_equiv(c: Config)
    ensures
        c.wf() <==> cfg_rows_wf(config_rows(c)),
{
    let rows = config_rows(c);
    if c.wf() {
        assert forall|i: int, j: int|
            0 <= i < j < rows.len() implies (#[trigger] rows[i]).0 != (
        #[trigger] rows[j]).0 by {
            assert(rows[i].0 == c.recent_sessions@[i].0@);
            assert(rows[j].0 == c.recent_sessions@[j].0@);
        }
    }
    if cfg_rows_wf(rows) {
        assert forall|i: int, j: int|
            0 <= i < j < c.recent_sessions@.len() implies (
        #[trigger] c.recent_sessions@[i]).0@ != (#[trigger] c.recent_sessions@[j]).0@ by {
            assert(rows[i].0 == c.recent_sessions@[i].0@);
            assert(rows[j].0 == c.recent_sessions@[j].0@);
        }
    }
}

/// Witness decomposition for a written configuration document.
proof fn lemma_config_witness(
    sv: Seq<char>,
    args: Seq<Seq<char>>,
    w: Seq<char>,
    rows: Seq<(Seq<char>, (Seq<char>, Seq<char>))>,
)
    requires
        sv == enc_config(args, w, rows),
    ensures
        sv.len() >= 16,
        sv.subrange(0, 16) == "{\"claude_args\":["@,
        sv.skip(16) == enc_str_items(args) + ("]"@ + cfg_tail(w, rows)),
{
    lemma_history_literals();
    lemma_config_literals();
    assert(sv =~= "{\"claude_args\":["@ + (enc_str_items(args) + ("]"@ + cfg_tail(
        w,
        rows,
    ))));
    assert(sv.subrange(0, 16) =~= "{\"claude_args\":["@);
    assert(sv.skip(16) =~= enc_str_items(args) + ("]"@ + cfg_tail(w, rows)));
}

/// The alignment of parsed arguments with a witness configuration.
proof fn lemma_cfg_args_align(
    sv: Seq<char>,
    pos: int,
    parsed: Seq<Seq<char>>,
    args: Seq<Seq<char>>,
    w: Seq<char>,
    rows: Seq<(Seq<char>, (Seq<char>, Seq<char>))>,
)
    requires
        sv == enc_config(args, w, rows),
        16 <= pos <= sv.len(),
        sv.subrange(16, pos) == enc_str_items(parsed),
    ensures
        parsed.len() <= args.len(),
        parsed == args.take(parsed.len() as int),
        parsed.len() == args.len() ==> sv.skip(pos) == "]"@ + cfg_tail(w, rows),
        parsed.len() < args.len() && parsed.len() == 0 ==> sv.skip(pos) == quoted(
            args[0],
        ) + (enc_str_tail(args.skip(1)) + ("]"@ + cfg_tail(w, rows))),
        parsed.len() < args.len() && parsed.len() > 0 ==> sv.skip(pos) == ","@ + (quoted(
            args[parsed.len() as int],
        ) + (enc_str_tail(args.skip(parsed.len() as int + 1)) + ("]"@ + cfg_tail(
            w,
            rows,
        )))),
{
    lemma_config_witness(sv, args, w, rows);
    assert(sv.skip(16) =~= sv.subrange(16, pos) + sv.skip(pos));
    assert(enc_str_items(parsed) + sv.skip(pos) == enc_str_items(args) + ("]"@
        + cfg_tail(w, rows)));
    lemma_str_align(parsed, args, sv.skip(pos), cfg_tail(w, rows));
}

/// After a complete argument list, the rest of a witness configuration is
/// its tail.
proof fn lemma_cfg_after_args(
    sv: Seq<char>,
    abpos: int,
    args_view: Seq<Seq<char>>,
    args: Seq<Seq<char>>,
    w: Seq<char>,
    rows: Seq<(Seq<char>, (Seq<char>, Seq<char>))>,
)
    requires
        sv == enc_config(args, w, rows),
        16 <= abpos <= sv.len(),
        sv.subrange(16, abpos) == enc_str_items(args_view) + "]"@,
    ensures
        args_view == args,
        sv.skip(abpos) == cfg_tail(w, rows),
{
    lemma_history_literals();
    lemma_config_literals();
    lemma_config_witness(sv, args, w, rows);
    assert(sv.skip(16) =~= sv.subrange(16, abpos) + sv.skip(abpos));
    assert(enc_str_items(args_view) + ("]"@ + sv.skip(abpos)) =~= sv.subrange(16, abpos)
        + sv.skip(abpos));
    assert(enc_str_items(args_view) + ("]"@ + sv.skip(abpos)) == enc_str_items(args) + (
    "]"@ + cfg_tail(w, rows)));
    lemma_str_align(args_view, args, "]"@ + sv.skip(abpos), cfg_tail(w, rows));
    if args_view.len() < args.len() {
        if args_view.len() == 0 {
            assert(("]"@ + sv.skip(abpos))[0] == '"') by {
                assert(quoted(args[0])[0] == '"');
            }
            assert(false);
        } else {
            assert(("]"@ + sv.skip(abpos))[0] == ',');
            assert(false);
        }
    }
    assert("]"@ + sv.skip(abpos) == "]"@ + cfg_tail(w, rows));
    lemma_concat_cancel("]"@, sv.skip(abpos), "]"@, cfg_tail(w, rows));
}

/// The alignment of the parsed remembered sessions with a witness
/// configuration, given the consumed sections before them.
proof fn lemma_cfg_rec_section(
    sv: Seq<char>,
    abpos: int,
    a2: int,
    b2: int,
    c2: int,
    args_view: Seq<Seq<char>>,
    wq: Seq<char>,
    args: Seq<Seq<char>>,
    w: Seq<char>,
    rows: Seq<(Seq<char>, (Seq<char>, Seq<char>))>,
)
    requires
        sv == enc_config(args, w, rows),
        16 <= abpos <= a2 <= b2 <= c2 <= sv.len(),
        sv.subrange(16, abpos) == enc_str_items(args_view) + "]"@,
        a2 == abpos + 18,
        take_quoted(sv.skip(a2)) == Some((wq, b2 - a2)),
        c2 == b2 + 20,
    ensures
        args_view == args,
        wq == w,
        b2 == a2 + quoted(w).len(),
        sv.skip(c2) == enc_rec_rows(rows) + ("}"@ + ("}"@ + Seq::<char>::empty())),
{
    lemma_history_literals();
    lemma_config_literals();
    lemma_cfg_after_args(sv, abpos, args_view, args, w, rows);
    let x1 = quoted(w) + (",\"recent_sessions\":{"@ + (enc_rec_rows(rows) + ("}"@ + (
    "}"@ + Seq::<char>::empty()))));
    assert(sv.skip(abpos) =~= sv.subrange(abpos, a2) + sv.skip(a2));
    assert(sv.subrange(abpos, a2).len() == 18);
    lemma_concat_cancel(
        sv.subrange(abpos, a2),
        sv.skip(a2),
        ",\"workflows_path\":"@,
        x1,
    );
    assert(sv.skip(a2) == x1);
    lemma_quoted_round_trip(
        w,
        ",\"recent_sessions\":{"@ + (enc_rec_rows(rows) + ("}"@ + ("}"@
            + Seq::<char>::empty()))),
    );
    assert(wq == w && b2 - a2 == quoted(w).len());
    let x2 = enc_rec_rows(rows) + ("}"@ + ("}"@ + Seq::<char>::empty()));
    assert(x1 =~= (quoted(w) + ",\"recent_sessions\":{"@) + x2);
    assert(sv.skip(a2) =~= sv.subrange(a2, c2) + sv.skip(c2));
    assert(sv.subrange(a2, c2).len() == (quoted(w) + ",\"recent_sessions\":{"@).len());
    lemma_concat_cancel(
        sv.subrange(a2, c2),
        sv.skip(c2),
        quoted(w) + ",\"recent_sessions\":{"@,
        x2,
    );
}

/// Read a configuration written by `encode_config`. A configuration comes
/// back exactly when the input is the writing of a well-formed one — and
/// then the input is exactly the writing of the result.
#[verifier::rlimit(100)]
#[verifier::spinoff_prover]
pub fn decode_config(s: &str) -> (r: Option<Config>)
    ensures
        match r {
            Some(c) => s@ == enc_config(config_args(c), c.workflows_path@, config_rows(c))
                && c.wf(),
            None => true,
        },
        (exists|
            args2: Seq<Seq<char>>,
            w2: Seq<char>,
            rows2: Seq<(Seq<char>, (Seq<char>, Seq<char>))>,
        |
            cfg_rows_wf(rows2) && s@ == #[trigger] enc_config(args2, w2, rows2)) ==> r
            is Some,
{
    let v = str_chars(s);
    let n = v.len();
    proof {
        lemma_history_literals();
        lemma_config_literals();
    }
    let start = match expect_lit(&v, 0, "{\"claude_args\":[") {
        Some(p) => p,
        None => {
            proof {
                assert forall|
                    args2: Seq<Seq<char>>,
                    w2: Seq<char>,
                    rows2: Seq<(Seq<char>, (Seq<char>, Seq<char>))>,
                |
                    cfg_rows_wf(rows2) && s@ == #[trigger] enc_config(
                        args2,
                        w2,
                        rows2,
                    ) implies false by {
                    lemma_config_witness(s@, args2, w2, rows2);
                }
            }
            return None;
        }
    };
    let mut args: Vec<String> = Vec::new();
    let mut pos = start;
    let mut args_done = false;
    match expect_lit(&v, pos, "]") {
        Some(e) => {
            pos = e;
            args_done = true;
            proof {
                assert(args@.map_values(|s2: String| s2@) =~= Seq::<Seq<char>>::empty());
                assert(enc_str_items(args@.map_values(|s2: String| s2@))
                    =~= Seq::<char>::empty());
                assert(v@.subrange(start as int, e as int) =~= enc_str_items(
                    args@.map_values(|s2: String| s2@),
                ) + "]"@);
            }
        }
        None => {}
    }
    while !args_done
        invariant
            pos <= n,
            n == v@.len(),
            v@ == s@,
            start == 16,
            start <= pos,
            !args_done ==> v@.subrange(start as int, pos as int) == enc_str_items(
                args@.map_values(|s2: String| s2@),
            ),
            !args_done ==> (args@.len() > 0 || pos == start),
            !args_done ==> !(pos + 1 <= n && v@.subrange(pos as int, pos + 1) == "]"@),
            args_done ==> v@.subrange(start as int, pos as int) == enc_str_items(
                args@.map_values(|s2: String| s2@),
            ) + "]"@,
        decreases n - pos + (if args_done { 0int } else { 1int }),
    {
        proof {
            lemma_history_literals();
            lemma_config_literals();
        }
        let ghost before = args@.map_values(|s2: String| s2@);
        let mut ipos = pos;
        if args.len() > 0 {
            match expect_lit(&v, pos, ",") {
                Some(p) => {
                    ipos = p;
                }
                None => {
                    proof {
                        assert forall|
                            args2: Seq<Seq<char>>,
                            w2: Seq<char>,
                            rows2: Seq<(Seq<char>, (Seq<char>, Seq<char>))>,
                        |
                            cfg_rows_wf(rows2) && s@ == #[trigger] enc_config(
                                args2,
                                w2,
                                rows2,
                            ) implies false by {
                            lemma_config_witness(s@, args2, w2, rows2);
                            lemma_cfg_args_align(s@, pos as int, before, args2, w2, rows2);
                            assert(s@.skip(pos as int).len() == n - pos);
                            if before.len() == args2.len() {
                                assert(s@.skip(pos as int) == "]"@ + cfg_tail(w2, rows2));
                                assert(n - pos >= 1);
                                assert(v@.subrange(pos as int, pos + 1) =~= "]"@) by {
                                    assert(v@.subrange(pos as int, pos + 1)[0]
                                        == s@.skip(pos as int)[0]);
                                }
                            } else {
                                assert(s@.skip(pos as int) == ","@ + (quoted(
                                    args2[before.len() as int],
                                ) + (enc_str_tail(args2.skip(before.len() as int + 1)) + (
                                "]"@ + cfg_tail(w2, rows2)))));
                                assert(n - pos >= 1);
                                assert(v@.subrange(pos as int, pos + 1) =~= ","@) by {
                                    assert(v@.subrange(pos as int, pos + 1)[0]
                                        == s@.skip(pos as int)[0]);
                                }
                            }
                        }
                    }
                    return None;
                }
            }
        }
        let (arg, e) = match parse_quoted(&v, ipos) {
            Some(p) => p,
            None => {
                proof {
                    assert forall|
                        args2: Seq<Seq<char>>,
                        w2: Seq<char>,
                        rows2: Seq<(Seq<char>, (Seq<char>, Seq<char>))>,
                    |
                        cfg_rows_wf(rows2) && s@ == #[trigger] enc_config(
                            args2,
                            w2,
                            rows2,
                        ) implies false by {
                        lemma_cfg_args_align(s@, pos as int, before, args2, w2, rows2);
                        if before.len() == args2.len() {
                            assert(v@.subrange(pos as int, pos + 1) =~= "]"@) by {
                                assert(v@.subrange(pos as int, pos + 1)[0] == s@.skip(
                                    pos as int,
                                )[0]);
                            }
                            assert(false);
                        }
                        if before.len() == 0 {
                            assert(ipos == pos);
                            assert(s@.skip(ipos as int) == quoted(args2[0]) + (
                            enc_str_tail(args2.skip(1)) + ("]"@ + cfg_tail(w2, rows2))));
                            lemma_quoted_round_trip(
                                args2[0],
                                enc_str_tail(args2.skip(1)) + ("]"@ + cfg_tail(
                                    w2,
                                    rows2,
                                )),
                            );
                        } else {
                            assert(v@.subrange(pos as int, ipos as int) == ","@);
                            assert(ipos == pos + 1);
                            assert(s@.skip(pos as int) == ","@ + (quoted(
                                args2[before.len() as int],
                            ) + (enc_str_tail(args2.skip(before.len() as int + 1)) + (
                            "]"@ + cfg_tail(w2, rows2)))));
                            assert(s@.skip(pos as int) =~= s@.subrange(
                                pos as int,
                                ipos as int,
                            ) + s@.skip(ipos as int));
                            lemma_concat_cancel(
                                s@.subrange(pos as int, ipos as int),
                                s@.skip(ipos as int),
                                ","@,
                                quoted(args2[before.len() as int]) + (enc_str_tail(
                                    args2.skip(before.len() as int + 1),
                                ) + ("]"@ + cfg_tail(w2, rows2))),
                            );
                            lemma_quoted_round_trip(
                                args2[before.len() as int],
                                enc_str_tail(args2.skip(before.len() as int + 1)) + (
                                "]"@ + cfg_tail(w2, rows2)),
                            );
                        }
                    }
                }
                return None;
            }
        };
        let ghost av = arg@;
        args.push(arg);
        proof {
            let now = args@.map_values(|s2: String| s2@);
            assert(now.drop_last() =~= before);
            assert(now.last() == av);
            if before.len() == 0 {
                assert(now.len() == 1);
                assert(now[0] == av);
                assert(enc_str_items(now) == quoted(av));
            } else {
                assert(enc_str_items(now) == enc_str_items(before) + ","@ + quoted(av));
            }
            assert(v@.subrange(start as int, e as int) =~= enc_str_items(now));
        }
        pos = e;
        match expect_lit(&v, pos, "]") {
            Some(e2) => {
                proof {
                    assert(v@.subrange(start as int, e2 as int) =~= enc_str_items(
                        args@.map_values(|s2: String| s2@),
                    ) + "]"@);
                }
                pos = e2;
                args_done = true;
            }
            None => {}
        }
    }
    let ghost abpos = pos as int;
    let ghost args_view = args@.map_values(|s2: String| s2@);
    let a2 = match expect_lit(&v, pos, ",\"workflows_path\":") {
        Some(p) => p,
        None => {
            proof {
                assert forall|
                    args2: Seq<Seq<char>>,
                    w2: Seq<char>,
                    rows2: Seq<(Seq<char>, (Seq<char>, Seq<char>))>,
                |
                    cfg_rows_wf(rows2) && s@ == #[trigger] enc_config(
                        args2,
                        w2,
                        rows2,
                    ) implies false by {
                    lemma_cfg_after_args(s@, abpos, args_view, args2, w2, rows2);
                    assert(pos + 18 <= n) by {
                        assert(cfg_tail(w2, rows2).len() >= 18);
                    }
                    assert(v@.subrange(pos as int, pos + 18)
                        =~= ",\"workflows_path\":"@) by {
                        assert(forall|q: int|
                            0 <= q < 18 ==> #[trigger] v@.subrange(pos as int, pos
                                + 18)[q] == s@.skip(pos as int)[q]);
                    }
                }
            }
            return None;
        }
    };
    let (workflows, b2) = match parse_quoted(&v, a2) {
        Some(p) => p,
        None => {
            proof {
                assert forall|
                    args2: Seq<Seq<char>>,
                    w2: Seq<char>,
                    rows2: Seq<(Seq<char>, (Seq<char>, Seq<char>))>,
                |
                    cfg_rows_wf(rows2) && s@ == #[trigger] enc_config(
                        args2,
                        w2,
                        rows2,
                    ) implies false by {
                    lemma_cfg_after_args(s@, abpos, args_view, args2, w2, rows2);
                    let tail = cfg_tail(w2, rows2);
                    assert(s@.skip(a2 as int) =~= quoted(w2) + (
                    ",\"recent_sessions\":{"@ + (enc_rec_rows(rows2) + ("}"@ + ("}"@
                        + Seq::<char>::empty()))))) by {
                        assert(forall|q: int|
                            0 <= q < n - a2 ==> #[trigger] s@.skip(a2 as int)[q]
                                == tail[18 + q]);
                    }
                    lemma_quoted_round_trip(
                        w2,
                        ",\"recent_sessions\":{"@ + (enc_rec_rows(rows2) + ("}"@ + (
                        "}"@ + Seq::<char>::empty()))),
                    );
                }
            }
            return None;
        }
    };
    let c2 = match expect_lit(&v, b2, ",\"recent_sessions\":{") {
        Some(p) => p,
        None => {
            proof {
                assert forall|
                    args2: Seq<Seq<char>>,
                    w2: Seq<char>,
                    rows2: Seq<(Seq<char>, (Seq<char>, Seq<char>))>,
                |
                    cfg_rows_wf(rows2) && s@ == #[trigger] enc_config(
                        args2,
                        w2,
                        rows2,
                    ) implies false by {
                    lemma_cfg_after_args(s@, abpos, args_view, args2, w2, rows2);
                    let tail = cfg_tail(w2, rows2);
                    assert(s@.skip(a2 as int) =~= quoted(w2) + (
                    ",\"recent_sessions\":{"@ + (enc_rec_rows(rows2) + ("}"@ + ("}"@
                        + Seq::<char>::empty()))))) by {
                        assert(forall|q: int|
                            0 <= q < n - a2 ==> #[trigger] s@.skip(a2 as int)[q]
                                == tail[18 + q]);
                    }
                    lemma_quoted_round_trip(
                        w2,
                        ",\"recent_sessions\":{"@ + (enc_rec_rows(rows2) + ("}"@ + (
                        "}"@ + Seq::<char>::empty()))),
                    );
                    assert(workflows@ == w2 && b2 == a2 + quoted(w2).len());
                    assert(b2 + 20 <= n);
                    assert(v@.subrange(b2 as int, b2 + 20)
                        =~= ",\"recent_sessions\":{"@) by {
                        assert(forall|q: int|
                            0 <= q < 20 ==> #[trigger] v@.subrange(b2 as int, b2
                                + 20)[q] == s@.skip(a2 as int)[quoted(w2).len() + q]);
                    }
                }
            }
            return None;
        }
    };
    let mut recents: Vec<(String, MostRecentSession)> = Vec::new();
    let mut rpos = c2;
    let mut rows_done = false;
    let ghost rec_view_of = |rv: Seq<(String, MostRecentSession)>|
        rv.map_values(|p2: (String, MostRecentSession)| (p2.0@, (p2.1.name@, p2.1.path@)));
    match expect_lit(&v, rpos, "}") {
        Some(e) => {
            rpos = e;
            rows_done = true;
            proof {
                let rows = recents@.map_values(
                    |p2: (String, MostRecentSession)| (p2.0@, (p2.1.name@, p2.1.path@)),
                );
                assert(rows =~= Seq::<(Seq<char>, (Seq<char>, Seq<char>))>::empty());
                assert(enc_rec_rows(rows) =~= Seq::<char>::empty());
                assert(v@.subrange(c2 as int, e as int) =~= enc_rec_rows(rows) + "}"@);
            }
        }
        None => {}
    }
    while !rows_done
        invariant
            rpos <= n,
            n == v@.len(),
            v@ == s@,
            start == 16,
            16 <= abpos <= a2 <= b2 <= c2 <= n,
            args_view == args@.map_values(|s2: String| s2@),
            v@.subrange(16, abpos) == enc_str_items(args_view) + "]"@,
            a2 == abpos + 18,
            take_quoted(v@.skip(a2 as int)) == Some((workflows@, b2 - a2)),
            c2 == b2 + 20,
            c2 <= rpos,
            !rows_done ==> v@.subrange(c2 as int, rpos as int) == enc_rec_rows(
                recents@.map_values(
                    |p2: (String, MostRecentSession)| (p2.0@, (p2.1.name@, p2.1.path@)),
                ),
            ),
            !rows_done ==> (recents@.len() > 0 || rpos == c2),
            !rows_done ==> !(rpos + 1 <= n && v@.subrange(rpos as int, rpos + 1)
                == "}"@),
            rows_done ==> v@.subrange(c2 as int, rpos as int) == enc_rec_rows(
                recents@.map_values(
                    |p2: (String, MostRecentSession)| (p2.0@, (p2.1.name@, p2.1.path@)),
                ),
            ) + "}"@,
        decreases n - rpos + (if rows_done { 0int } else { 1int }),
    {
        proof {
            lemma_history_literals();
            lemma_config_literals();
        }
        let ghost before = recents@.map_values(
            |p2: (String, MostRecentSession)| (p2.0@, (p2.1.name@, p2.1.path@)),
        );
        let mut ipos = rpos;
        if recents.len() > 0 {
            match expect_lit(&v, rpos, ",") {
                Some(p) => {
                    ipos = p;
                }
                None => {
                    proof {
                        assert forall|
                            args2: Seq<Seq<char>>,
                            w2: Seq<char>,
                            rows2: Seq<(Seq<char>, (Seq<char>, Seq<char>))>,
                        |
                            cfg_rows_wf(rows2) && s@ == #[trigger] enc_config(
                                args2,
                                w2,
                                rows2,
                            ) implies false by {
                            lemma_cfg_rec_section(
                                s@, abpos, a2 as int, b2 as int, c2 as int, args_view,
                                workflows@, args2, w2, rows2,
                            );
                            assert(s@.skip(c2 as int) =~= v@.subrange(
                                c2 as int,
                                rpos as int,
                            ) + v@.skip(rpos as int));
                            lemma_rec_align(
                                before,
                                rows2,
                                v@.skip(rpos as int),
                                "}"@ + Seq::<char>::empty(),
                            );
                            if before.len() == rows2.len() {
                                assert(v@.subrange(rpos as int, rpos + 1) =~= "}"@) by {
                                    assert(v@.subrange(rpos as int, rpos + 1)[0]
                                        == v@.skip(rpos as int)[0]);
                                }
                            } else {
                                assert(v@.skip(rpos as int)[0] == ',');
                                assert(rpos + 1 <= n);
                                assert(v@.subrange(rpos as int, rpos + 1) =~= ","@) by {
                                    assert(v@.subrange(rpos as int, rpos + 1)[0]
                                        == v@.skip(rpos as int)[0]);
                                }
                            }
                        }
                    }
                    return None;
                }
            }
        }
        let (startup, rec, e) = match parse_rec_row(&v, ipos) {
            Some(p) => p,
            None => {
                proof {
                    assert forall|
                        args2: Seq<Seq<char>>,
                        w2: Seq<char>,
                        rows2: Seq<(Seq<char>, (Seq<char>, Seq<char>))>,
                    |
                        cfg_rows_wf(rows2) && s@ == #[trigger] enc_config(
                            args2,
                            w2,
                            rows2,
                        ) implies false by {
                        lemma_cfg_rec_section(
                            s@, abpos, a2 as int, b2 as int, c2 as int, args_view,
                            workflows@, args2, w2, rows2,
                        );
                        assert(s@.skip(c2 as int) =~= v@.subrange(c2 as int, rpos as int)
                            + v@.skip(rpos as int));
                        lemma_rec_align(
                            before,
                            rows2,
                            v@.skip(rpos as int),
                            "}"@ + Seq::<char>::empty(),
                        );
                        if before.len() == rows2.len() {
                            assert(v@.subrange(rpos as int, rpos + 1) =~= "}"@) by {
                                assert(v@.subrange(rpos as int, rpos + 1)[0] == v@.skip(
                                    rpos as int,
                                )[0]);
                            }
                            assert(false);
                        }
                        if before.len() == 0 {
                            assert(ipos == rpos);
                            assert(v@.skip(ipos as int) == enc_rec(
                                rows2[0].0,
                                rows2[0].1.0,
                                rows2[0].1.1,
                            ) + (enc_rec_tail(rows2.skip(1)) + ("}"@ + ("}"@
                                + Seq::<char>::empty()))));
                        } else {
                            assert(v@.subrange(rpos as int, ipos as int) == ","@);
                            assert(ipos == rpos + 1);
                            assert(v@.skip(ipos as int) =~= enc_rec(
                                rows2[before.len() as int].0,
                                rows2[before.len() as int].1.0,
                                rows2[before.len() as int].1.1,
                            ) + (enc_rec_tail(rows2.skip(before.len() as int + 1)) + (
                            "}"@ + ("}"@ + Seq::<char>::empty())))) by {
                                assert(forall|q: int|
                                    0 <= q < n - ipos ==> #[trigger] v@.skip(
                                        ipos as int,
                                    )[q] == v@.skip(rpos as int)[q + 1]);
                            }
                        }
                    }
                }
                return None;
            }
        };
        let ghost rv = (startup@, (rec.name@, rec.path@));
        recents.push((startup, rec));
        proof {
            let now = recents@.map_values(
                |p2: (String, MostRecentSession)| (p2.0@, (p2.1.name@, p2.1.path@)),
            );
            assert(now.drop_last() =~= before);
            assert(now.last() == rv);
            if before.len() == 0 {
                assert(now.len() == 1);
                assert(now[0] == rv);
                assert(enc_rec_rows(now) == enc_rec(now[0].0, now[0].1.0, now[0].1.1));
            } else {
                assert(enc_rec_rows(now) == enc_rec_rows(before) + ","@ + enc_rec(
                    now.last().0,
                    now.last().1.0,
                    now.last().1.1,
                ));
            }
            assert(v@.subrange(c2 as int, e as int) =~= enc_rec_rows(now));
        }
        rpos = e;
        match expect_lit(&v, rpos, "}") {
            Some(e2) => {
                proof {
                    assert(v@.subrange(c2 as int, e2 as int) =~= enc_rec_rows(
                        recents@.map_values(
                            |p2: (String, MostRecentSession)| (
                                p2.0@,
                                (p2.1.name@, p2.1.path@),
                            ),
                        ),
                    ) + "}"@);
                }
                rpos = e2;
                rows_done = true;
            }
            None => {}
        }
    }
    let ghost rec_view = recents@.map_values(
        |p2: (String, MostRecentSession)| (p2.0@, (p2.1.name@, p2.1.path@)),
    );
    let end = match expect_lit(&v, rpos, "}") {
        Some(p) => p,
        None => {
            proof {
                assert forall|
                    args2: Seq<Seq<char>>,
                    w2: Seq<char>,
                    rows2: Seq<(Seq<char>, (Seq<char>, Seq<char>))>,
                |
                    cfg_rows_wf(rows2) && s@ == #[trigger] enc_config(
                        args2,
                        w2,
                        rows2,
                    ) implies false by {
                    lemma_cfg_rec_section(
                        s@, abpos, a2 as int, b2 as int, c2 as int, args_view,
                        workflows@, args2, w2, rows2,
                    );
                    assert(s@.skip(c2 as int) =~= v@.subrange(c2 as int, rpos as int)
                        + v@.skip(rpos as int));
                    assert(enc_rec_rows(rec_view) + "}"@ + v@.skip(rpos as int)
                        =~= enc_rec_rows(rec_view) + ("}"@ + v@.skip(rpos as int)));
                    lemma_rec_align(
                        rec_view,
                        rows2,
                        "}"@ + v@.skip(rpos as int),
                        "}"@ + Seq::<char>::empty(),
                    );
                    if rec_view.len() < rows2.len() {
                        if rec_view.len() == 0 {
                            assert(("}"@ + v@.skip(rpos as int))[0] == '"') by {
                                assert(enc_rec(rows2[0].0, rows2[0].1.0, rows2[0].1.1)[0]
                                    == '"');
                            }
                        } else {
                            assert(("}"@ + v@.skip(rpos as int))[0] == ',');
                        }
                        assert(false);
                    }
                    assert("}"@ + v@.skip(rpos as int) == "}"@ + ("}"@
                        + Seq::<char>::empty()));
                    lemma_concat_cancel(
                        "}"@,
                        v@.skip(rpos as int),
                        "}"@,
                        "}"@ + Seq::<char>::empty(),
                    );
                    assert(rpos + 1 <= n);
                    assert(v@.subrange(rpos as int, rpos + 1) =~= "}"@) by {
                        assert(v@.subrange(rpos as int, rpos + 1)[0] == v@.skip(
                            rpos as int,
                        )[0]);
                    }
                }
            }
            return None;
        }
    };
    if end != n {
        proof {
            assert forall|
                args2: Seq<Seq<char>>,
                w2: Seq<char>,
                rows2: Seq<(Seq<char>, (Seq<char>, Seq<char>))>,
            |
                cfg_rows_wf(rows2) && s@ == #[trigger] enc_config(
                    args2,
                    w2,
                    rows2,
                ) implies false by {
                lemma_cfg_rec_section(
                    s@, abpos, a2 as int, b2 as int, c2 as int, args_view, workflows@,
                    args2, w2, rows2,
                );
                assert(s@.skip(c2 as int) =~= v@.subrange(c2 as int, rpos as int)
                    + v@.skip(rpos as int));
                assert(enc_rec_rows(rec_view) + "}"@ + v@.skip(rpos as int)
                    =~= enc_rec_rows(rec_view) + ("}"@ + v@.skip(rpos as int)));
                lemma_rec_align(
                    rec_view,
                    rows2,
                    "}"@ + v@.skip(rpos as int),
                    "}"@ + Seq::<char>::empty(),
                );
                if rec_view.len() < rows2.len() {
                    if rec_view.len() == 0 {
                        assert(("}"@ + v@.skip(rpos as int))[0] == '"') by {
                            assert(enc_rec(rows2[0].0, rows2[0].1.0, rows2[0].1.1)[0]
                                == '"');
                        }
                    } else {
                        assert(("}"@ + v@.skip(rpos as int))[0] == ',');
                    }
                    assert(false);
                }
                assert("}"@ + v@.skip(rpos as int) == "}"@ + ("}"@
                    + Seq::<char>::empty()));
                lemma_concat_cancel(
                    "}"@,
                    v@.skip(rpos as int),
                    "}"@,
                    "}"@ + Seq::<char>::empty(),
                );
                assert(v@.skip(rpos as int).len() == 1);
            }
        }
        return None;
    }
    let config = Config { claude_args: args, workflows_path: workflows, recent_sessions: recents };
    proof {
        assert(config_args(config) == config.claude_args@.map_values(|s2: String| s2@));
        assert(config_rows(config) == config.recent_sessions@.map_values(
            |p2: (String, MostRecentSession)| (p2.0@, (p2.1.name@, p2.1.path@)),
        ));
        assert(s@ =~= v@.subrange(0, n as int));
        assert(s@ =~= v@.subrange(0, start as int) + v@.subrange(start as int, abpos)
            + v@.subrange(abpos, a2 as int) + v@.subrange(a2 as int, b2 as int)
            + v@.subrange(b2 as int, c2 as int) + v@.subrange(c2 as int, rpos as int)
            + v@.subrange(rpos as int, end as int));
        assert(s@ =~= enc_config(config_args(config), config.workflows_path@, config_rows(
            config,
        )));
    }
    if !config.check_wf() {
        proof {
            assert forall|
                args2: Seq<Seq<char>>,
                w2: Seq<char>,
                rows2: Seq<(Seq<char>, (Seq<char>, Seq<char>))>,
            |
                cfg_rows_wf(rows2) && s@ == #[trigger] enc_config(
                    args2,
                    w2,
                    rows2,
                ) implies false by {
                lemma_enc_config_injective(
                    config_args(config),
                    config.workflows_path@,
                    config_rows(config),
                    args2,
                    w2,
                    rows2,
                );
                lemma_cfg_rows_wf_equiv(config);
            }
        }
        return None;
    }
    Some(config)
}

/// A sequence equal at the head whose tail is a prefix of the other's tail
/// is a prefix itself.
proof fn lemma_cons_take<A>(done: Seq<A>, all: Seq<A>)
    requires
        1 <= done.len() <= all.len(),
        done[0] == all[0],
        done.skip(1) == all.skip(1).take(done.len() - 1),
    ensures
        done == all.take(done.len() as int),
{
    assert forall|q: int| 0 <= q < done.len() implies done[q] == all.take(
        done.len() as int,
    )[q] by {
        if q > 0 {
            assert(done[q] == done.skip(1)[q - 1]);
            assert(all.skip(1).take(done.len() - 1)[q - 1] == all.skip(1)[q - 1]);
            assert(all.skip(1)[q - 1] == all[q]);
        }
    }
    assert(done =~= all.take(done.len() as int));
}

/// A parsed prefix of an argument list aligns with the written list.
#[verifier::rlimit(100)]
#[verifier::spinoff_prover]
proof fn lemma_str_align(
    done: Seq<Seq<char>>,
    all: Seq<Seq<char>>,
    text: Seq<char>,
    tail2: Seq<char>,
)
    requires
        enc_str_items(done) + text == enc_str_items(all) + ("]"@ + tail2),
    ensures
        done.len() <= all.len(),
        done == all.take(done.len() as int),
        done.len() == all.len() ==> text == "]"@ + tail2,
        done.len() < all.len() && done.len() == 0 ==> text == quoted(all[0]) + (
        enc_str_tail(all.skip(1)) + ("]"@ + tail2)),
        done.len() < all.len() && done.len() > 0 ==> text == ","@ + (quoted(
            all[done.len() as int],
        ) + (enc_str_tail(all.skip(done.len() as int + 1)) + ("]"@ + tail2))),
    decreases done.len(),
{
    lemma_history_literals();
    if done.len() == 0 {
        assert(enc_str_items(done) =~= Seq::<char>::empty());
        assert(done =~= all.take(0));
        assert(text =~= enc_str_items(all) + ("]"@ + tail2));
        if all.len() > 0 {
            lemma_str_front(all);
            assert(text =~= quoted(all[0]) + (enc_str_tail(all.skip(1)) + ("]"@
                + tail2)));
        } else {
            assert(enc_str_items(all) =~= Seq::<char>::empty());
            assert(text =~= "]"@ + tail2);
        }
    } else {
        let lhs = enc_str_items(done) + text;
        if all.len() == 0 {
            lemma_str_front(done);
            assert(lhs[0] == '"') by {
                assert(quoted(done[0])[0] == '"');
                assert(enc_str_items(done)[0] == quoted(done[0])[0]);
            }
            assert(enc_str_items(all) =~= Seq::<char>::empty());
            assert((enc_str_items(all) + ("]"@ + tail2))[0] == ']');
            assert(false);
        }
        lemma_str_front(done);
        lemma_str_front(all);
        assert(lhs =~= quoted(done[0]) + (enc_str_tail(done.skip(1)) + text));
        assert(enc_str_items(all) + ("]"@ + tail2) =~= quoted(all[0]) + (enc_str_tail(
            all.skip(1),
        ) + ("]"@ + tail2)));
        lemma_quoted_prefix(
            done[0],
            enc_str_tail(done.skip(1)) + text,
            all[0],
            enc_str_tail(all.skip(1)) + ("]"@ + tail2),
        );
        let d1 = done.skip(1);
        let a1 = all.skip(1);
        if d1.len() == 0 {
            assert(enc_str_tail(d1) =~= Seq::<char>::empty());
            assert(text =~= enc_str_tail(a1) + ("]"@ + tail2));
            if a1.len() == 0 {
                assert(enc_str_tail(a1) =~= Seq::<char>::empty());
                assert(text =~= "]"@ + tail2);
                assert(done =~= all.take(done.len() as int));
            } else {
                lemma_str_tail_form(a1);
                lemma_str_front(a1);
                assert(text =~= ","@ + (quoted(a1[0]) + (enc_str_tail(a1.skip(1)) + (
                "]"@ + tail2))));
                assert(a1[0] == all[1]);
                assert(a1.skip(1) =~= all.skip(2));
                assert(done =~= all.take(done.len() as int));
            }
        } else {
            if a1.len() == 0 {
                lemma_str_tail_form(d1);
                assert((enc_str_tail(d1) + text)[0] == ',') by {
                    assert(enc_str_tail(d1)[0] == ',');
                }
                assert(enc_str_tail(a1) =~= Seq::<char>::empty());
                assert((enc_str_tail(a1) + ("]"@ + tail2))[0] == ']');
                assert(false);
            }
            lemma_str_tail_form(d1);
            lemma_str_tail_form(a1);
            assert(enc_str_tail(d1) + text =~= ","@ + (enc_str_items(d1) + text));
            assert(enc_str_tail(a1) + ("]"@ + tail2) =~= ","@ + (enc_str_items(a1) + (
            "]"@ + tail2)));
            lemma_concat_cancel(
                ","@,
                enc_str_items(d1) + text,
                ","@,
                enc_str_items(a1) + ("]"@ + tail2),
            );
            lemma_str_align(d1, a1, text, tail2);
            assert(done =~= seq![done[0]] + d1);
            assert(done == all.take(done.len() as int)) by {
                assert(d1 =~= a1.take(d1.len() as int));
                assert forall|q: int| 0 <= q < done.len() implies done[q] == all.take(
                    done.len() as int,
                )[q] by {
                    if q == 0 {
                    } else {
                        assert(done[q] == d1[q - 1]);
                        assert(d1[q - 1] == a1[q - 1]);
                        assert(a1[q - 1] == all[q]);
                    }
                }
                assert(done =~= all.take(done.len() as int));
            }
            if d1.len() < a1.len() {
                assert(a1[d1.len() as int] == all[done.len() as int]);
                assert(a1.skip(d1.len() as int + 1) =~= all.skip(done.len() as int + 1));
            }
        }
    }
}

/// Peeling the equal first remembered-session row off an alignment
/// equation.
#[verifier::rlimit(100)]
#[verifier::spinoff_prover]
proof fn lemma_rec_peel(
    done: Seq<(Seq<char>, (Seq<char>, Seq<char>))>,
    all: Seq<(Seq<char>, (Seq<char>, Seq<char>))>,
    text: Seq<char>,
    tail2: Seq<char>,
)
    requires
        done.len() >= 1,
        all.len() >= 1,
        enc_rec_rows(done) + text == enc_rec_rows(all) + ("}"@ + tail2),
    ensures
        done[0] == all[0],
        enc_rec_tail(done.skip(1)) + text == enc_rec_tail(all.skip(1)) + ("}"@ + tail2),
{
    let lhs = enc_rec_rows(done) + text;
    lemma_rec_front(done);
    lemma_rec_front(all);
    assert(lhs =~= enc_rec(done[0].0, done[0].1.0, done[0].1.1) + (enc_rec_tail(
        done.skip(1),
    ) + text));
    assert(enc_rec_rows(all) + ("}"@ + tail2) =~= enc_rec(all[0].0, all[0].1.0, all[0].1.1)
        + (enc_rec_tail(all.skip(1)) + ("}"@ + tail2)));
    lemma_enc_rec_prefix(
        done[0].0,
        done[0].1.0,
        done[0].1.1,
        enc_rec_tail(done.skip(1)) + text,
        all[0].0,
        all[0].1.0,
        all[0].1.1,
        enc_rec_tail(all.skip(1)) + ("}"@ + tail2),
    );
}

/// A parsed prefix of a remembered-session list aligns with the written
/// list.
#[verifier::rlimit(100)]
#[verifier::spinoff_prover]
proof fn lemma_rec_align(
    done: Seq<(Seq<char>, (Seq<char>, Seq<char>))>,
    all: Seq<(Seq<char>, (Seq<char>, Seq<char>))>,
    text: Seq<char>,
    tail2: Seq<char>,
)
    requires
        enc_rec_rows(done) + text == enc_rec_rows(all) + ("}"@ + tail2),
    ensures
        done.len() <= all.len(),
        done == all.take(done.len() as int),
        done.len() == all.len() ==> text == "}"@ + tail2,
        done.len() < all.len() && done.len() == 0 ==> text == enc_rec(
            all[0].0,
            all[0].1.0,
            all[0].1.1,
        ) + (enc_rec_tail(all.skip(1)) + ("}"@ + tail2)),
        done.len() < all.len() && done.len() > 0 ==> text == ","@ + (enc_rec(
            all[done.len() as int].0,
            all[done.len() as int].1.0,
            all[done.len() as int].1.1,
        ) + (enc_rec_tail(all.skip(done.len() as int + 1)) + ("}"@ + tail2))),
    decreases done.len(),
{
    lemma_history_literals();
    if done.len() == 0 {
        assert(enc_rec_rows(done) =~= Seq::<char>::empty());
        assert(done =~= all.take(0));
        assert(text =~= enc_rec_rows(all) + ("}"@ + tail2));
        if all.len() > 0 {
            lemma_rec_front(all);
            assert(text =~= enc_rec(all[0].0, all[0].1.0, all[0].1.1) + (enc_rec_tail(
                all.skip(1),
            ) + ("}"@ + tail2)));
        } else {
            assert(enc_rec_rows(all) =~= Seq::<char>::empty());
            assert(text =~= "}"@ + tail2);
        }
    } else {
        let lhs = enc_rec_rows(done) + text;
        if all.len() == 0 {
            lemma_rec_front(done);
            assert(lhs[0] == '"') by {
                assert(enc_rec(done[0].0, done[0].1.0, done[0].1.1)[0] == '"');
                assert(enc_rec_rows(done)[0] == enc_rec(
                    done[0].0,
                    done[0].1.0,
                    done[0].1.1,
                )[0]);
            }
            assert(enc_rec_rows(all) =~= Seq::<char>::empty());
            assert((enc_rec_rows(all) + ("}"@ + tail2))[0] == '}');
            assert(false);
        }
        lemma_rec_peel(done, all, text, tail2);
        let d1 = done.skip(1);
        let a1 = all.skip(1);
        assert(done[0] == all[0]);
        if d1.len() == 0 {
            assert(enc_rec_tail(d1) =~= Seq::<char>::empty());
            assert(text =~= enc_rec_tail(a1) + ("}"@ + tail2));
            if a1.len() == 0 {
                assert(enc_rec_tail(a1) =~= Seq::<char>::empty());
                assert(text =~= "}"@ + tail2);
                assert(done =~= all.take(done.len() as int));
            } else {
                lemma_rec_tail_form(a1);
                lemma_rec_front(a1);
                assert(text =~= ","@ + (enc_rec(a1[0].0, a1[0].1.0, a1[0].1.1) + (
                enc_rec_tail(a1.skip(1)) + ("}"@ + tail2))));
                assert(a1[0] == all[1]);
                assert(a1.skip(1) =~= all.skip(2));
                assert(done =~= all.take(done.len() as int));
            }
        } else {
            if a1.len() == 0 {
                lemma_rec_tail_form(d1);
                assert((enc_rec_tail(d1) + text)[0] == ',') by {
                    assert(enc_rec_tail(d1)[0] == ',');
                }
                assert(enc_rec_tail(a1) =~= Seq::<char>::empty());
                assert((enc_rec_tail(a1) + ("}"@ + tail2))[0] == '}');
                assert(false);
            }
            lemma_rec_tail_form(d1);
            lemma_rec_tail_form(a1);
            assert(enc_rec_tail(d1) + text =~= ","@ + (enc_rec_rows(d1) + text));
            assert(enc_rec_tail(a1) + ("}"@ + tail2) =~= ","@ + (enc_rec_rows(a1) + (
            "}"@ + tail2)));
            lemma_concat_cancel(
                ","@,
                enc_rec_rows(d1) + text,
                ","@,
                enc_rec_rows(a1) + ("}"@ + tail2),
            );
            lemma_rec_align(d1, a1, text, tail2);
            lemma_cons_take(done, all);
            if d1.len() < a1.len() {
                assert(a1[d1.len() as int] == all[done.len() as int]);
                assert(a1.skip(d1.len() as int + 1) =~= all.skip(done.len() as int + 1));
            }
        }
    }
}

/// Read a quoted, escaped string. When it returns, the consumed characters
/// are exactly the writing of the returned string.
#[verifier::rlimit(100)]
#[verifier::spinoff_prover]
fn parse_quoted(v: &Vec<char>, pos: usize) -> (r: Option<(String, usize)>)
    requires
        pos <= v@.len(),
    ensures
        match r {
            Some(p) => pos < p.1 <= v@.len() && v@.subrange(pos as int, p.1 as int)
                == quoted(p.0@),
            None => true,
        },
        match take_quoted(v@.skip(pos as int)) {
            Some(x) => r is Some && (r->0).0@ == x.0 && (r->0).1 == pos + x.1,
            None => r is None,
        },
{
    let ghost tail = v@.skip(pos as int);
    let n = v.len();
    if pos >= n || v[pos] != '"' {
        proof {
            if tail.len() > 0 {
                assert(tail[0] == v@[pos as int]);
            }
            assert(take_quoted(tail) is None);
        }
        return None;
    }
    proof {
        assert(tail[0] == v@[pos as int]);
        assert(take_quoted(tail) == take_quoted_body(tail, 1, Seq::empty()));
    }
    let mut i: usize = pos + 1;
    let mut val: Vec<char> = Vec::new();
    proof {
        assert(esc(val@) =~= Seq::<char>::empty());
        assert(v@.subrange(pos as int, i as int) =~= seq!['"'] + esc(val@));
    }
    while i < n
        invariant
            n == v@.len(),
            pos < i <= n,
            tail == v@.skip(pos as int),
            v@.subrange(pos as int, i as int) == seq!['"'] + esc(val@),
            take_quoted(tail) == take_quoted_body(tail, i - pos, val@),
        decreases n - i,
    {
        let c = v[i];
        proof {
            assert(tail[i - pos] == v@[i as int]);
        }
        if c == '"' {
            let s = chars_to_string(&val);
            proof {
                assert(v@.subrange(pos as int, i + 1) =~= seq!['"'] + esc(val@)
                    + seq!['"']);
                assert(v@.subrange(pos as int, i + 1) =~= quoted(s@));
                assert(take_quoted_body(tail, i - pos, val@) == Some(
                    (val@, i - pos + 1),
                ));
            }
            return Some((s, i + 1));
        }
        if c == '\\' {
            if i + 1 >= n {
                proof {
                    assert(take_quoted_body(tail, i - pos, val@) is None);
                }
                return None;
            }
            let d = v[i + 1];
            proof {
                assert(tail[i - pos + 1] == v@[i + 1]);
            }
            if d != '"' && d != '\\' {
                proof {
                    assert(take_quoted_body(tail, i - pos, val@) is None);
                }
                return None;
            }
            let ghost before = val@;
            val.push(d);
            proof {
                assert(v@[i as int] == '\\');
                assert(v@[i + 1] == d);
                assert(val@.drop_last() =~= before);
                assert(val@.last() == d);
                assert(esc_char(d) == seq!['\\', d]);
                assert(esc(val@) =~= esc(before) + seq!['\\', d]);
                assert(v@.subrange(pos as int, i + 2) =~= v@.subrange(pos as int, i as int)
                    + seq![v@[i as int]] + seq![v@[i + 1]]);
                assert(v@.subrange(pos as int, i + 2) =~= seq!['"'] + esc(val@));
                assert(take_quoted_body(tail, i - pos, before) == take_quoted_body(
                    tail,
                    i - pos + 2,
                    before.push(d),
                ));
            }
            i += 2;
        } else {
            let ghost before = val@;
            val.push(c);
            proof {
                assert(val@.drop_last() =~= before);
                assert(esc(val@) =~= esc(before) + seq![c]);
                assert(v@.subrange(pos as int, i + 1) =~= seq!['"'] + esc(val@));
                assert(take_quoted_body(tail, i - pos, before) == take_quoted_body(
                    tail,
                    i - pos + 1,
                    before.push(c),
                ));
            }
            i += 1;
        }
    }
    proof {
        assert(i - pos >= tail.len());
        assert(take_quoted_body(tail, i - pos, val@) is None);
    }
    None
}

/// Read an exact literal: it succeeds exactly when the literal is next.
fn expect_lit(v: &Vec<char>, pos: usize, lit: &str) -> (r: Option<usize>)
    requires
        pos <= v@.len(),
    ensures
        match r {
            Some(end) => end == pos + lit@.len() && end <= v@.len() && v@.subrange(
                pos as int,
                end as int,
            ) == lit@,
            None => !(pos + lit@.len() <= v@.len() && v@.subrange(
                pos as int,
                pos + lit@.len(),
            ) == lit@),
        },
{
    let chars = str_chars(lit);
    let n = chars.len();
    let vn = v.len();
    if n > vn - pos {
        return None;
    }
    let ghost expected = v@.subrange(pos as int, pos + lit@.len());
    let mut i: usize = 0;
    while i < n
        invariant
            n == chars@.len(),
            chars@ == lit@,
            vn == v@.len(),
            pos + n <= vn,
            expected == v@.subrange(pos as int, pos + lit@.len()),
            i <= n,
            forall|q: int| 0 <= q < i ==> v@[pos + q] == lit@[q],
        decreases n - i,
    {
        if v[pos + i] != chars[i] {
            proof {
                assert(expected[i as int] == v@[pos + i]);
                assert(expected != lit@);
            }
            return None;
        }
        i += 1;
    }
    proof {
        assert(v@.subrange(pos as int, pos + n as int) =~= lit@);
    }
    Some(pos + n)
}

/// Read one history entry. When it returns, the consumed characters are
/// exactly the writing of the returned entry.
#[verifier::rlimit(100)]
#[verifier::spinoff_prover]
fn parse_entry(v: &Vec<char>, pos: usize) -> (r: Option<(RecentSession, usize)>)
    requires
        pos <= v@.len(),
    ensures
        match r {
            Some(p) => pos < p.1 <= v@.len() && v@.subrange(pos as int, p.1 as int)
                == enc_entry(p.0.key()),
            None => true,
        },
        forall|k: EntryKey, rest: Seq<char>|
            v@.skip(pos as int) == #[trigger] (enc_entry(k) + rest) ==> r is Some,
{
    let ghost tail = v@.skip(pos as int);
    proof {
        lemma_history_literals();
    }
    let a = match expect_lit(v, pos, "{\"name\":") {
        Some(a) => a,
        None => {
            proof {
                assert forall|k: EntryKey, rest: Seq<char>|
                    tail == #[trigger] (enc_entry(k) + rest) implies false by {
                    assert(tail =~= "{\"name\":"@ + (quoted(k.0) + (",\"project_path\":"@
                        + (quoted(k.1) + ("}"@ + rest)))));
                    assert(pos + 8 <= v@.len());
                    assert(v@.subrange(pos as int, pos + 8) =~= "{\"name\":"@) by {
                        assert(forall|q: int|
                            0 <= q < 8 ==> #[trigger] v@.subrange(pos as int, pos + 8)[q]
                                == tail[q]);
                    }
                }
            }
            return None;
        }
    };
    let (name, b) = match parse_quoted(v, a) {
        Some(p) => p,
        None => {
            proof {
                assert forall|k: EntryKey, rest: Seq<char>|
                    tail == #[trigger] (enc_entry(k) + rest) implies false by {
                    assert(tail =~= "{\"name\":"@ + (quoted(k.0) + (",\"project_path\":"@
                        + (quoted(k.1) + ("}"@ + rest)))));
                    assert(v@.skip(a as int) =~= quoted(k.0) + (",\"project_path\":"@
                        + (quoted(k.1) + ("}"@ + rest)))) by {
                        assert(forall|q: int|
                            0 <= q < tail.len() - 8 ==> #[trigger] v@.skip(a as int)[q]
                                == tail[q + 8]);
                    }
                    lemma_quoted_round_trip(
                        k.0,
                        ",\"project_path\":"@ + (quoted(k.1) + ("}"@ + rest)),
                    );
                }
            }
            return None;
        }
    };
    let c = match expect_lit(v, b, ",\"project_path\":") {
        Some(c) => c,
        None => {
            proof {
                assert forall|k: EntryKey, rest: Seq<char>|
                    tail == #[trigger] (enc_entry(k) + rest) implies false by {
                    assert(tail =~= "{\"name\":"@ + (quoted(k.0) + (",\"project_path\":"@
                        + (quoted(k.1) + ("}"@ + rest)))));
                    assert(v@.skip(a as int) =~= quoted(k.0) + (",\"project_path\":"@
                        + (quoted(k.1) + ("}"@ + rest)))) by {
                        assert(forall|q: int|
                            0 <= q < tail.len() - 8 ==> #[trigger] v@.skip(a as int)[q]
                                == tail[q + 8]);
                    }
                    lemma_quoted_round_trip(
                        k.0,
                        ",\"project_path\":"@ + (quoted(k.1) + ("}"@ + rest)),
                    );
                    assert(b == a + quoted(k.0).len());
                    assert(b + 16 <= v@.len());
                    assert(v@.subrange(b as int, b + 16) =~= ",\"project_path\":"@) by {
                        assert(forall|q: int|
                            0 <= q < 16 ==> #[trigger] v@.subrange(b as int, b + 16)[q]
                                == v@.skip(a as int)[quoted(k.0).len() + q]);
                    }
                }
            }
            return None;
        }
    };
    let (path, d) = match parse_quoted(v, c) {
        Some(p) => p,
        None => {
            proof {
                assert forall|k: EntryKey, rest: Seq<char>|
                    tail == #[trigger] (enc_entry(k) + rest) implies false by {
                    assert(tail =~= "{\"name\":"@ + (quoted(k.0) + (",\"project_path\":"@
                        + (quoted(k.1) + ("}"@ + rest)))));
                    assert(v@.skip(a as int) =~= quoted(k.0) + (",\"project_path\":"@
                        + (quoted(k.1) + ("}"@ + rest)))) by {
                        assert(forall|q: int|
                            0 <= q < tail.len() - 8 ==> #[trigger] v@.skip(a as int)[q]
                                == tail[q + 8]);
                    }
                    lemma_quoted_round_trip(
                        k.0,
                        ",\"project_path\":"@ + (quoted(k.1) + ("}"@ + rest)),
                    );
                    assert(b == a + quoted(k.0).len());
                    assert(v@.skip(c as int) =~= quoted(k.1) + ("}"@ + rest)) by {
                        assert(forall|q: int|
                            0 <= q < v@.len() - c ==> #[trigger] v@.skip(c as int)[q]
                                == v@.skip(a as int)[quoted(k.0).len() + 16 + q]);
                    }
                    lemma_quoted_round_trip(k.1, "}"@ + rest);
                }
            }
            return None;
        }
    };
    let e = match expect_lit(v, d, "}") {
        Some(e) => e,
        None => {
            proof {
                assert forall|k: EntryKey, rest: Seq<char>|
                    tail == #[trigger] (enc_entry(k) + rest) implies false by {
                    assert(tail =~= "{\"name\":"@ + (quoted(k.0) + (",\"project_path\":"@
                        + (quoted(k.1) + ("}"@ + rest)))));
                    assert(v@.skip(a as int) =~= quoted(k.0) + (",\"project_path\":"@
                        + (quoted(k.1) + ("}"@ + rest)))) by {
                        assert(forall|q: int|
                            0 <= q < tail.len() - 8 ==> #[trigger] v@.skip(a as int)[q]
                                == tail[q + 8]);
                    }
                    lemma_quoted_round_trip(
                        k.0,
                        ",\"project_path\":"@ + (quoted(k.1) + ("}"@ + rest)),
                    );
                    assert(b == a + quoted(k.0).len());
                    assert(v@.skip(c as int) =~= quoted(k.1) + ("}"@ + rest)) by {
                        assert(forall|q: int|
                            0 <= q < v@.len() - c ==> #[trigger] v@.skip(c as int)[q]
                                == v@.skip(a as int)[quoted(k.0).len() + 16 + q]);
                    }
                    lemma_quoted_round_trip(k.1, "}"@ + rest);
                    assert(d == c + quoted(k.1).len());
                    assert(d + 1 <= v@.len());
                    assert(v@.subrange(d as int, d + 1) =~= "}"@) by {
                        assert(v@.subrange(d as int, d + 1)[0] == v@.skip(c as int)[
                            quoted(k.1).len() as int]);
                    }
                }
            }
            return None;
        }
    };
    let entry = RecentSession { name, project_path: path };
    proof {
        assert(v@.subrange(pos as int, e as int) =~= enc_entry(entry.key()));
    }
    Some((entry, e))
}

/// A parsed prefix of an entry list aligns with the written list: the
/// parsed entries are a prefix of the written ones, and the remaining text
/// is the writing of the rest.
#[verifier::rlimit(100)]
#[verifier::spinoff_prover]
proof fn lemma_items_align(
    done: Seq<EntryKey>,
    all: Seq<EntryKey>,
    text: Seq<char>,
    tail2: Seq<char>,
)
    requires
        enc_entry_items(done) + text == enc_entry_items(all) + ("]"@ + tail2),
    ensures
        done.len() <= all.len(),
        done == all.take(done.len() as int),
        done.len() == all.len() ==> text == "]"@ + tail2,
        done.len() < all.len() && done.len() == 0 ==> text == enc_entry(all[0]) + (
        enc_items_tail(all.skip(1)) + ("]"@ + tail2)),
        done.len() < all.len() && done.len() > 0 ==> text == ","@ + (enc_entry(
            all[done.len() as int],
        ) + (enc_items_tail(all.skip(done.len() as int + 1)) + ("]"@ + tail2))),
    decreases done.len(),
{
    lemma_history_literals();
    if done.len() == 0 {
        assert(enc_entry_items(done) =~= Seq::<char>::empty());
        assert(done =~= all.take(0));
        assert(text =~= enc_entry_items(all) + ("]"@ + tail2));
        if all.len() > 0 {
            lemma_items_front(all);
            assert(text =~= enc_entry(all[0]) + (enc_items_tail(all.skip(1)) + ("]"@
                + tail2)));
        } else {
            assert(enc_entry_items(all) =~= Seq::<char>::empty());
            assert(text =~= "]"@ + tail2);
        }
    } else {
        let lhs = enc_entry_items(done) + text;
        if all.len() == 0 {
            lemma_items_front(done);
            assert(lhs[0] == '{') by {
                assert(enc_entry(done[0])[0] == '{');
                assert(enc_entry_items(done)[0] == enc_entry(done[0])[0]);
            }
            assert(enc_entry_items(all) =~= Seq::<char>::empty());
            assert((enc_entry_items(all) + ("]"@ + tail2))[0] == ']');
            assert(false);
        }
        lemma_items_front(done);
        lemma_items_front(all);
        assert(lhs =~= enc_entry(done[0]) + (enc_items_tail(done.skip(1)) + text));
        assert(enc_entry_items(all) + ("]"@ + tail2) =~= enc_entry(all[0]) + (
        enc_items_tail(all.skip(1)) + ("]"@ + tail2)));
        lemma_enc_entry_prefix(
            done[0],
            enc_items_tail(done.skip(1)) + text,
            all[0],
            enc_items_tail(all.skip(1)) + ("]"@ + tail2),
        );
        let d1 = done.skip(1);
        let a1 = all.skip(1);
        if d1.len() == 0 {
            assert(enc_items_tail(d1) =~= Seq::<char>::empty());
            assert(text =~= enc_items_tail(a1) + ("]"@ + tail2));
            if a1.len() == 0 {
                assert(enc_items_tail(a1) =~= Seq::<char>::empty());
                assert(text =~= "]"@ + tail2);
                assert(done =~= all.take(done.len() as int));
            } else {
                lemma_items_tail_form(a1);
                lemma_items_front(a1);
                assert(text =~= ","@ + (enc_entry(a1[0]) + (enc_items_tail(a1.skip(1))
                    + ("]"@ + tail2))));
                assert(a1[0] == all[1]);
                assert(a1.skip(1) =~= all.skip(2));
                assert(done =~= all.take(done.len() as int));
            }
        } else {
            if a1.len() == 0 {
                lemma_items_tail_form(d1);
                assert((enc_items_tail(d1) + text)[0] == ',') by {
                    assert(enc_items_tail(d1)[0] == ',');
                }
                assert(enc_items_tail(a1) =~= Seq::<char>::empty());
                assert((enc_items_tail(a1) + ("]"@ + tail2))[0] == ']');
                assert(false);
            }
            lemma_items_tail_form(d1);
            lemma_items_tail_form(a1);
            assert(enc_items_tail(d1) + text =~= ","@ + (enc_entry_items(d1) + text));
            assert(enc_items_tail(a1) + ("]"@ + tail2) =~= ","@ + (enc_entry_items(a1)
                + ("]"@ + tail2)));
            lemma_concat_cancel(
                ","@,
                enc_entry_items(d1) + text,
                ","@,
                enc_entry_items(a1) + ("]"@ + tail2),
            );
            lemma_items_align(d1, a1, text, tail2);
            assert(done =~= seq![done[0]] + d1);
            assert(done == all.take(done.len() as int)) by {
                assert(d1 =~= a1.take(d1.len() as int));
                assert forall|q: int| 0 <= q < done.len() implies done[q] == all.take(
                    done.len() as int,
                )[q] by {
                    if q == 0 {
                    } else {
                        assert(done[q] == d1[q - 1]);
                        assert(d1[q - 1] == a1[q - 1]);
                        assert(a1[q - 1] == all[q]);
                    }
                }
                assert(done =~= all.take(done.len() as int));
            }
            if d1.len() < a1.len() {
                assert(a1[d1.len() as int] == all[done.len() as int]);
                assert(a1.skip(d1.len() as int + 1) =~= all.skip(done.len() as int + 1));
            }
        }
    }
}

/// The pieces of one row, glued.
proof fn lemma_row_concat(
    v: Seq<char>,
    pos: int,
    a: int,
    b: int,
    epos: int,
    repo: Seq<char>,
    ks: Seq<EntryKey>,
)
    requires
        0 <= pos <= a <= b <= epos <= v.len(),
        v.subrange(pos, a) == quoted(repo),
        v.subrange(a, b) == ":["@,
        v.subrange(b, epos) == enc_entry_items(ks) + "]"@,
    ensures
        v.subrange(pos, epos) == enc_row(repo, ks),
{
    assert(v.subrange(pos, epos) =~= v.subrange(pos, a) + v.subrange(a, b) + v.subrange(
        b,
        epos,
    ));
    assert(v.subrange(pos, epos) =~= enc_row(repo, ks));
}

/// Read one repository row. When it returns, the consumed characters are
/// exactly the writing of the returned row.
#[verifier::rlimit(100)]
#[verifier::spinoff_prover]
/// Witness decomposition for one written row: the text splits at the
/// quoted repository, and reading that string succeeds.
proof fn lemma_row_witness(
    v: Seq<char>,
    pos: int,
    repo2: Seq<char>,
    ks: Seq<EntryKey>,
    rest: Seq<char>,
)
    requires
        0 <= pos <= v.len(),
        v.skip(pos) == enc_row(repo2, ks) + rest,
    ensures
        v.skip(pos) == quoted(repo2) + (":["@ + (enc_entry_items(ks) + ("]"@ + rest))),
        take_quoted(v.skip(pos)) == Some((repo2, quoted(repo2).len() as int)),
{
    assert(v.skip(pos) =~= quoted(repo2) + (":["@ + (enc_entry_items(ks) + ("]"@
        + rest))));
    lemma_quoted_round_trip(repo2, ":["@ + (enc_entry_items(ks) + ("]"@ + rest)));
}

/// After the repository and the opening bracket, the remaining text is the
/// written entry list.
proof fn lemma_row_witness_items(
    v: Seq<char>,
    pos: int,
    b: int,
    repo2: Seq<char>,
    ks: Seq<EntryKey>,
    rest: Seq<char>,
)
    requires
        0 <= pos <= v.len(),
        v.skip(pos) == enc_row(repo2, ks) + rest,
        b == pos + quoted(repo2).len() + 2,
        b <= v.len(),
    ensures
        v.skip(b) == enc_entry_items(ks) + ("]"@ + rest),
{
    lemma_history_literals();
    lemma_row_witness(v, pos, repo2, ks, rest);
    let tail = v.skip(pos);
    let inner = ":["@ + (enc_entry_items(ks) + ("]"@ + rest));
    let items_part = enc_entry_items(ks) + ("]"@ + rest);
    assert(tail == quoted(repo2) + inner);
    assert(v.skip(b) =~= items_part) by {
        assert(forall|j: int|
            0 <= j < inner.len() ==> #[trigger] tail[quoted(repo2).len() + j]
                == inner[j]) by {
            assert(forall|j: int|
                0 <= j < inner.len() ==> (quoted(repo2) + inner)[quoted(repo2).len()
                    + j] == #[trigger] inner[j]);
        }
        assert(forall|q: int|
            0 <= q < items_part.len() ==> #[trigger] inner[2 + q] == items_part[q]);
        assert(forall|q: int|
            0 <= q < v.len() - b ==> #[trigger] v.skip(b)[q] == tail[quoted(repo2).len()
                + 2 + q]);
        assert(forall|q: int|
            0 <= q < v.len() - b ==> #[trigger] v.skip(b)[q] == items_part[q]);
    }
}

#[verifier::rlimit(100)]
#[verifier::spinoff_prover]
fn parse_row(v: &Vec<char>, pos: usize) -> (r: Option<(String, Vec<RecentSession>, usize)>)
    requires
        pos <= v@.len(),
    ensures
        match r {
            Some(p) => pos < p.2 <= v@.len() && v@.subrange(pos as int, p.2 as int)
                == enc_row(p.0@, keys_of(p.1@)),
            None => true,
        },
        forall|repo2: Seq<char>, ks: Seq<EntryKey>, rest: Seq<char>|
            v@.skip(pos as int) == #[trigger] (enc_row(repo2, ks) + rest) ==> r is Some,
{
    let ghost tail = v@.skip(pos as int);
    proof {
        lemma_history_literals();
    }
    let n = v.len();
    let (repo, a) = match parse_quoted(v, pos) {
        Some(p) => p,
        None => {
            proof {
                assert forall|repo2: Seq<char>, ks: Seq<EntryKey>, rest: Seq<char>|
                    tail == #[trigger] (enc_row(repo2, ks) + rest) implies false by {
                    lemma_row_witness(v@, pos as int, repo2, ks, rest);
                }
            }
            return None;
        }
    };
    let b = match expect_lit(v, a, ":[") {
        Some(p) => p,
        None => {
            proof {
                assert forall|repo2: Seq<char>, ks: Seq<EntryKey>, rest: Seq<char>|
                    tail == #[trigger] (enc_row(repo2, ks) + rest) implies false by {
                    lemma_row_witness(v@, pos as int, repo2, ks, rest);
                    assert(repo@ == repo2 && a == pos + quoted(repo2).len());
                    assert(a + 2 <= v@.len());
                    assert(v@.subrange(a as int, a + 2) =~= ":["@) by {
                        assert(forall|q: int|
                            0 <= q < 2 ==> #[trigger] v@.subrange(a as int, a + 2)[q]
                                == tail[quoted(repo2).len() + q]);
                    }
                }
            }
            return None;
        }
    };
    let mut entries: Vec<RecentSession> = Vec::new();
    let mut epos = b;
    let mut list_done = false;
    match expect_lit(v, b, "]") {
        Some(e) => {
            epos = e;
            list_done = true;
            proof {
                assert(keys_of(entries@) =~= Seq::<EntryKey>::empty());
                assert(enc_entry_items(keys_of(entries@)) =~= Seq::<char>::empty());
                assert(v@.subrange(b as int, e as int) =~= enc_entry_items(
                    keys_of(entries@),
                ) + "]"@);
            }
        }
        None => {}
    }
    while !list_done
        invariant
            epos <= n,
            n == v@.len(),
            pos <= a <= b <= epos,
            tail == v@.skip(pos as int),
            take_quoted(tail) == Some((repo@, a - pos)),
            b == a + 2,
            !list_done ==> v@.subrange(b as int, epos as int) == enc_entry_items(
                keys_of(entries@),
            ),
            !list_done ==> (entries@.len() > 0 || epos == b),
            !list_done ==> !(epos + 1 <= n && v@.subrange(epos as int, epos + 1)
                == "]"@),
            list_done ==> v@.subrange(b as int, epos as int) == enc_entry_items(
                keys_of(entries@),
            ) + "]"@,
        decreases n - epos + (if list_done { 0int } else { 1int }),
    {
        proof {
            lemma_history_literals();
        }
        let ghost done = keys_of(entries@);
        let mut ipos = epos;
        if entries.len() > 0 {
            match expect_lit(v, epos, ",") {
                Some(p) => {
                    ipos = p;
                }
                None => {
                    proof {
                        assert forall|repo2: Seq<char>, ks: Seq<EntryKey>, rest: Seq<char>|
                            tail == #[trigger] (enc_row(repo2, ks) + rest) implies false by {
                            lemma_row_witness(v@, pos as int, repo2, ks, rest);
                            assert(repo2 == repo@ && quoted(repo2).len() == a - pos);
                            lemma_row_witness_items(v@, pos as int, b as int, repo2, ks, rest);
                            assert(v@.skip(b as int) =~= v@.subrange(b as int, epos as int)
                                + v@.skip(epos as int));
                            lemma_items_align(done, ks, v@.skip(epos as int), rest);
                            if done.len() == ks.len() {
                                assert(v@.skip(epos as int)[0] == ']');
                                assert(v@.subrange(epos as int, epos + 1) =~= "]"@);
                            } else {
                                assert(v@.skip(epos as int)[0] == ',');
                                assert(epos + 1 <= n);
                                assert(v@.subrange(epos as int, epos + 1) =~= ","@);
                            }
                        }
                    }
                    return None;
                }
            }
        }
        let (entry, e) = match parse_entry(v, ipos) {
            Some(p) => p,
            None => {
                proof {
                    assert forall|repo2: Seq<char>, ks: Seq<EntryKey>, rest: Seq<char>|
                        tail == #[trigger] (enc_row(repo2, ks) + rest) implies false by {
                        lemma_row_witness(v@, pos as int, repo2, ks, rest);
                        assert(repo2 == repo@ && quoted(repo2).len() == a - pos);
                        lemma_row_witness_items(v@, pos as int, b as int, repo2, ks, rest);
                        assert(v@.skip(b as int) =~= v@.subrange(b as int, epos as int)
                            + v@.skip(epos as int));
                        lemma_items_align(done, ks, v@.skip(epos as int), rest);
                        if done.len() == ks.len() {
                            assert(v@.skip(epos as int)[0] == ']');
                            assert(v@.subrange(epos as int, epos + 1) =~= "]"@);
                            assert(false);
                        }
                        if done.len() == 0 {
                            assert(ipos == epos);
                            assert(v@.skip(ipos as int) == enc_entry(ks[0]) + (
                            enc_items_tail(ks.skip(1)) + ("]"@ + rest)));
                        } else {
                            assert(v@.subrange(epos as int, ipos as int) == ","@);
                            assert(ipos == epos + 1);
                            assert(v@.skip(epos as int) == ","@ + (enc_entry(
                                ks[done.len() as int],
                            ) + (enc_items_tail(ks.skip(done.len() as int + 1)) + ("]"@
                                + rest))));
                            assert(v@.skip(ipos as int) =~= enc_entry(
                                ks[done.len() as int],
                            ) + (enc_items_tail(ks.skip(done.len() as int + 1)) + ("]"@
                                + rest))) by {
                                assert(forall|q: int|
                                    0 <= q < n - ipos ==> #[trigger] v@.skip(
                                        ipos as int,
                                    )[q] == v@.skip(epos as int)[q + 1]);
                            }
                        }
                    }
                }
                return None;
            }
        };
        let ghost ek = entry.key();
        entries.push(entry);
        proof {
            assert(keys_of(entries@).drop_last() =~= done);
            assert(keys_of(entries@).last() == ek);
            if done.len() == 0 {
                assert(keys_of(entries@).len() == 1);
                assert(keys_of(entries@)[0] == ek);
                assert(enc_entry_items(keys_of(entries@)) == enc_entry(ek));
            } else {
                assert(enc_entry_items(keys_of(entries@)) == enc_entry_items(done)
                    + ","@ + enc_entry(ek));
            }
            assert(v@.subrange(b as int, e as int) =~= enc_entry_items(
                keys_of(entries@),
            ));
        }
        epos = e;
        match expect_lit(v, epos, "]") {
            Some(e2) => {
                proof {
                    assert(v@.subrange(b as int, e2 as int) =~= enc_entry_items(
                        keys_of(entries@),
                    ) + "]"@);
                }
                epos = e2;
                list_done = true;
            }
            None => {}
        }
    }
    proof {
        lemma_row_concat(
            v@,
            pos as int,
            a as int,
            b as int,
            epos as int,
            repo@,
            keys_of(entries@),
        );
    }
    Some((repo, entries, epos))
}

/// Row-level well-formedness: unique repositories, lists within the bound
/// and free of duplicate keys.
pub open spec fn rows_wf(rows: Seq<(Seq<char>, Seq<EntryKey>)>) -> bool {
    &&& forall|i: int, j: int|
        0 <= i < j < rows.len() ==> (#[trigger] rows[i]).0 != (#[trigger] rows[j]).0
    &&& forall|i: int|
        0 <= i < rows.len() ==> (#[trigger] rows[i]).1.len()
            <= crate::history::MAX_RECENT_PER_WORKSPACE && crate::history::distinct_seq(
            rows[i].1,
        )
}

/// A history is well formed exactly when its rows are.
proof fn lemma_rows_wf_equiv(h: SessionHistory)
    ensures
        h.wf() <==> rows_wf(history_rows(h)),
{
    let rows = history_rows(h);
    if h.wf() {
        assert forall|i: int, j: int|
            0 <= i < j < rows.len() implies (#[trigger] rows[i]).0 != (
        #[trigger] rows[j]).0 by {
            assert(rows[i].0 == h.recent_sessions@[i].0@);
            assert(rows[j].0 == h.recent_sessions@[j].0@);
        }
        assert forall|i: int|
            0 <= i < rows.len() implies (#[trigger] rows[i]).1.len()
            <= crate::history::MAX_RECENT_PER_WORKSPACE && crate::history::distinct_seq(
            rows[i].1,
        ) by {
            assert(rows[i].1 == keys_of(h.recent_sessions@[i].1@));
        }
    }
    if rows_wf(rows) {
        assert forall|i: int, j: int|
            0 <= i < j < h.recent_sessions@.len() implies (
        #[trigger] h.recent_sessions@[i]).0@ != (#[trigger] h.recent_sessions@[j]).0@ by {
            assert(rows[i].0 == h.recent_sessions@[i].0@);
            assert(rows[j].0 == h.recent_sessions@[j].0@);
        }
        assert forall|i: int|
            0 <= i < h.recent_sessions@.len() implies {
            let l = (#[trigger] h.recent_sessions@[i]).1@;
            l.len() <= crate::history::MAX_RECENT_PER_WORKSPACE
                && crate::history::distinct_seq(keys_of(l))
        } by {
            assert(rows[i].1 == keys_of(h.recent_sessions@[i].1@));
            assert(keys_of(h.recent_sessions@[i].1@).len()
                == h.recent_sessions@[i].1@.len());
        }
    }
}

/// A parsed prefix of a row list aligns with the written list.
#[verifier::rlimit(100)]
#[verifier::spinoff_prover]
proof fn lemma_rows_align(
    done: Seq<(Seq<char>, Seq<EntryKey>)>,
    all: Seq<(Seq<char>, Seq<EntryKey>)>,
    text: Seq<char>,
    tail2: Seq<char>,
)
    requires
        enc_rows(done) + text == enc_rows(all) + ("}"@ + tail2),
    ensures
        done.len() <= all.len(),
        done == all.take(done.len() as int),
        done.len() == all.len() ==> text == "}"@ + tail2,
        done.len() < all.len() && done.len() == 0 ==> text == enc_row(all[0].0, all[0].1)
            + (enc_rows_tail(all.skip(1)) + ("}"@ + tail2)),
        done.len() < all.len() && done.len() > 0 ==> text == ","@ + (enc_row(
            all[done.len() as int].0,
            all[done.len() as int].1,
        ) + (enc_rows_tail(all.skip(done.len() as int + 1)) + ("}"@ + tail2))),
    decreases done.len(),
{
    lemma_history_literals();
    if done.len() == 0 {
        assert(enc_rows(done) =~= Seq::<char>::empty());
        assert(done =~= all.take(0));
        assert(text =~= enc_rows(all) + ("}"@ + tail2));
        if all.len() > 0 {
            lemma_rows_front(all);
            assert(text =~= enc_row(all[0].0, all[0].1) + (enc_rows_tail(all.skip(1))
                + ("}"@ + tail2)));
        } else {
            assert(enc_rows(all) =~= Seq::<char>::empty());
            assert(text =~= "}"@ + tail2);
        }
    } else {
        let lhs = enc_rows(done) + text;
        if all.len() == 0 {
            lemma_rows_front(done);
            assert(lhs[0] == '"') by {
                assert(enc_row(done[0].0, done[0].1)[0] == '"');
                assert(enc_rows(done)[0] == enc_row(done[0].0, done[0].1)[0]);
            }
            assert(enc_rows(all) =~= Seq::<char>::empty());
            assert((enc_rows(all) + ("}"@ + tail2))[0] == '}');
            assert(false);
        }
        lemma_rows_front(done);
        lemma_rows_front(all);
        assert(lhs =~= enc_row(done[0].0, done[0].1) + (enc_rows_tail(done.skip(1))
            + text));
        assert(enc_rows(all) + ("}"@ + tail2) =~= enc_row(all[0].0, all[0].1) + (
        enc_rows_tail(all.skip(1)) + ("}"@ + tail2)));
        lemma_enc_row_prefix(
            done[0].0,
            done[0].1,
            enc_rows_tail(done.skip(1)) + text,
            all[0].0,
            all[0].1,
            enc_rows_tail(all.skip(1)) + ("}"@ + tail2),
        );
        let d1 = done.skip(1);
        let a1 = all.skip(1);
        assert(done[0] == all[0]);
        if d1.len() == 0 {
            assert(enc_rows_tail(d1) =~= Seq::<char>::empty());
            assert(text =~= enc_rows_tail(a1) + ("}"@ + tail2));
            if a1.len() == 0 {
                assert(enc_rows_tail(a1) =~= Seq::<char>::empty());
                assert(text =~= "}"@ + tail2);
                assert(done =~= all.take(done.len() as int));
            } else {
                lemma_rows_tail_form(a1);
                lemma_rows_front(a1);
                assert(text =~= ","@ + (enc_row(a1[0].0, a1[0].1) + (enc_rows_tail(
                    a1.skip(1),
                ) + ("}"@ + tail2))));
                assert(a1[0] == all[1]);
                assert(a1.skip(1) =~= all.skip(2));
                assert(done =~= all.take(done.len() as int));
            }
        } else {
            if a1.len() == 0 {
                lemma_rows_tail_form(d1);
                assert((enc_rows_tail(d1) + text)[0] == ',') by {
                    assert(enc_rows_tail(d1)[0] == ',');
                }
                assert(enc_rows_tail(a1) =~= Seq::<char>::empty());
                assert((enc_rows_tail(a1) + ("}"@ + tail2))[0] == '}');
                assert(false);
            }
            lemma_rows_tail_form(d1);
            lemma_rows_tail_form(a1);
            assert(enc_rows_tail(d1) + text =~= ","@ + (enc_rows(d1) + text));
            assert(enc_rows_tail(a1) + ("}"@ + tail2) =~= ","@ + (enc_rows(a1) + ("}"@
                + tail2)));
            lemma_concat_cancel(
                ","@,
                enc_rows(d1) + text,
                ","@,
                enc_rows(a1) + ("}"@ + tail2),
            );
            lemma_rows_align(d1, a1, text, tail2);
            assert(done =~= seq![done[0]] + d1);
            assert(done == all.take(done.len() as int)) by {
                assert(d1 =~= a1.take(d1.len() as int));
                assert forall|q: int| 0 <= q < done.len() implies done[q] == all.take(
                    done.len() as int,
                )[q] by {
                    if q == 0 {
                    } else {
                        assert(done[q] == d1[q - 1]);
                        assert(d1[q - 1] == a1[q - 1]);
                        assert(a1[q - 1] == all[q]);
                    }
                }
                assert(done =~= all.take(done.len() as int));
            }
            if d1.len() < a1.len() {
                assert(a1[d1.len() as int] == all[done.len() as int]);
                assert(a1.skip(d1.len() as int + 1) =~= all.skip(done.len() as int + 1));
            }
        }
    }
}

/// Witness decomposition for a written history document.
proof fn lemma_history_witness(sv: Seq<char>, rows: Seq<(Seq<char>, Seq<EntryKey>)>)
    requires
        sv == enc_history(rows),
    ensures
        sv.len() >= 2,
        sv.subrange(0, 1) == "{"@,
        sv.skip(1) == enc_rows(rows) + ("}"@ + Seq::<char>::empty()),
{
    lemma_history_literals();
    assert(sv =~= "{"@ + (enc_rows(rows) + ("}"@ + Seq::<char>::empty())));
    assert(sv.subrange(0, 1) =~= "{"@);
    assert(sv.skip(1) =~= enc_rows(rows) + ("}"@ + Seq::<char>::empty()));
}

/// The alignment of the parsed rows with a witness document.
proof fn lemma_decode_align(
    sv: Seq<char>,
    pos: int,
    parsed: Seq<(Seq<char>, Seq<EntryKey>)>,
    rows: Seq<(Seq<char>, Seq<EntryKey>)>,
)
    requires
        sv == enc_history(rows),
        1 <= pos <= sv.len(),
        sv.subrange(0, pos) == "{"@ + enc_rows(parsed),
    ensures
        parsed.len() <= rows.len(),
        parsed == rows.take(parsed.len() as int),
        parsed.len() == rows.len() ==> sv.skip(pos) == "}"@ + Seq::<char>::empty(),
        parsed.len() < rows.len() && parsed.len() == 0 ==> sv.skip(pos) == enc_row(
            rows[0].0,
            rows[0].1,
        ) + (enc_rows_tail(rows.skip(1)) + ("}"@ + Seq::<char>::empty())),
        parsed.len() < rows.len() && parsed.len() > 0 ==> sv.skip(pos) == ","@ + (
        enc_row(rows[parsed.len() as int].0, rows[parsed.len() as int].1) + (
        enc_rows_tail(rows.skip(parsed.len() as int + 1)) + ("}"@
            + Seq::<char>::empty()))),
{
    lemma_history_witness(sv, rows);
    assert(sv.subrange(1, pos) =~= enc_rows(parsed)) by {
        assert(("{"@ + enc_rows(parsed)).len() == 1 + enc_rows(parsed).len());
        assert(forall|q: int|
            0 <= q < enc_rows(parsed).len() ==> ("{"@ + enc_rows(parsed))[1 + q]
                == #[trigger] enc_rows(parsed)[q]);
        assert(forall|q: int|
            0 <= q < pos - 1 ==> #[trigger] sv.subrange(1, pos)[q] == sv.subrange(
                0,
                pos,
            )[q + 1]);
    }
    assert(sv.skip(1) =~= sv.subrange(1, pos) + sv.skip(pos));
    assert(enc_rows(parsed) + sv.skip(pos) == enc_rows(rows) + ("}"@
        + Seq::<char>::empty()));
    lemma_rows_align(parsed, rows, sv.skip(pos), Seq::<char>::empty());
}

/// Read a history written by `encode_history`. A history comes back exactly
/// when the input is the writing of a well-formed history — and then the
/// input is exactly the writing of the result.
#[verifier::rlimit(100)]
#[verifier::spinoff_prover]
pub fn decode_history(s: &str) -> (r: Option<SessionHistory>)
    ensures
        match r {
            Some(h) => s@ == enc_history(history_rows(h)) && h.wf(),
            None => true,
        },
        (exists|rows: Seq<(Seq<char>, Seq<EntryKey>)>|
            rows_wf(rows) && s@ == #[trigger] enc_history(rows)) ==> r is Some,
{
    let v = str_chars(s);
    let n = v.len();
    let mut h = SessionHistory { recent_sessions: Vec::new() };
    proof {
        lemma_history_literals();
    }
    let start = match expect_lit(&v, 0, "{") {
        Some(p) => p,
        None => {
            proof {
                assert forall|rows: Seq<(Seq<char>, Seq<EntryKey>)>|
                    rows_wf(rows) && s@ == #[trigger] enc_history(rows) implies false by {
                    lemma_history_witness(s@, rows);
                }
            }
            return None;
        }
    };
    let mut pos = start;
    proof {
        assert(history_rows(h) =~= Seq::<(Seq<char>, Seq<EntryKey>)>::empty());
        assert(enc_rows(history_rows(h)) =~= Seq::<char>::empty());
        assert(v@.subrange(0, pos as int) =~= "{"@ + enc_rows(history_rows(h)));
    }
    match expect_lit(&v, pos, "}") {
        Some(end) => {
            if end != n {
                proof {
                    assert forall|rows: Seq<(Seq<char>, Seq<EntryKey>)>|
                        rows_wf(rows) && s@ == #[trigger] enc_history(rows) implies false by {
                        lemma_decode_align(s@, pos as int, history_rows(h), rows);
                        if rows.len() > 0 {
                            assert(s@.skip(pos as int)[0] == '"');
                            assert(v@.subrange(pos as int, pos + 1)[0] == '"');
                        } else {
                            assert(s@.skip(pos as int).len() == 1);
                        }
                    }
                }
                return None;
            }
            proof {
                assert(s@ =~= v@.subrange(0, n as int));
                assert(s@ =~= enc_history(history_rows(h)));
            }
            if !h.check_wf() {
                proof {
                    assert forall|rows: Seq<(Seq<char>, Seq<EntryKey>)>|
                        rows_wf(rows) && s@ == #[trigger] enc_history(rows) implies false by {
                        lemma_enc_history_injective(history_rows(h), rows);
                        lemma_rows_wf_equiv(h);
                    }
                }
                return None;
            }
            return Some(h);
        }
        None => {}
    }
    loop
        invariant
            pos <= n,
            n == v@.len(),
            v@ == s@,
            1 <= pos,
            v@.subrange(0, pos as int) == "{"@ + enc_rows(history_rows(h)),
            history_rows(h).len() > 0 || pos == start,
            !(pos + 1 <= n && v@.subrange(pos as int, pos + 1) == "}"@),
        decreases n - pos,
    {
        proof {
            lemma_history_literals();
        }
        let ghost rows_before = history_rows(h);
        let mut cpos = pos;
        if h.recent_sessions.len() > 0 {
            match expect_lit(&v, pos, ",") {
                Some(p) => {
                    cpos = p;
                }
                None => {
                    proof {
                        assert forall|rows: Seq<(Seq<char>, Seq<EntryKey>)>|
                            rows_wf(rows) && s@ == #[trigger] enc_history(rows) implies false by {
                            lemma_decode_align(s@, pos as int, rows_before, rows);
                            if rows_before.len() == rows.len() {
                                assert(s@.skip(pos as int).len() == 1);
                                assert(v@.subrange(pos as int, pos + 1) =~= "}"@) by {
                                    assert(v@.subrange(pos as int, pos + 1)[0]
                                        == s@.skip(pos as int)[0]);
                                }
                            } else {
                                assert(s@.skip(pos as int)[0] == ',');
                                assert(pos + 1 <= n);
                                assert(v@.subrange(pos as int, pos + 1) =~= ","@) by {
                                    assert(v@.subrange(pos as int, pos + 1)[0]
                                        == s@.skip(pos as int)[0]);
                                }
                            }
                        }
                    }
                    return None;
                }
            }
        }
        let (repo, entries, epos) = match parse_row(&v, cpos) {
            Some(p) => p,
            None => {
                proof {
                    assert forall|rows: Seq<(Seq<char>, Seq<EntryKey>)>|
                        rows_wf(rows) && s@ == #[trigger] enc_history(rows) implies false by {
                        lemma_decode_align(s@, pos as int, rows_before, rows);
                        if rows_before.len() == rows.len() {
                            assert(v@.subrange(pos as int, pos + 1) =~= "}"@) by {
                                assert(v@.subrange(pos as int, pos + 1)[0] == s@.skip(
                                    pos as int,
                                )[0]);
                            }
                            assert(false);
                        }
                        if rows_before.len() == 0 {
                            assert(cpos == pos);
                            assert(v@.skip(cpos as int) == enc_row(rows[0].0, rows[0].1)
                                + (enc_rows_tail(rows.skip(1)) + ("}"@
                                + Seq::<char>::empty())));
                        } else {
                            assert(v@.subrange(pos as int, cpos as int) == ","@);
                            assert(cpos == pos + 1);
                            assert(v@.skip(cpos as int) =~= enc_row(
                                rows[rows_before.len() as int].0,
                                rows[rows_before.len() as int].1,
                            ) + (enc_rows_tail(rows.skip(rows_before.len() as int + 1))
                                + ("}"@ + Seq::<char>::empty()))) by {
                                assert(forall|q: int|
                                    0 <= q < n - cpos ==> #[trigger] v@.skip(
                                        cpos as int,
                                    )[q] == s@.skip(pos as int)[q + 1]);
                            }
                        }
                    }
                }
                return None;
            }
        };
        h.recent_sessions.push((repo, entries));
        proof {
            assert(history_rows(h).drop_last() =~= rows_before);
            assert(history_rows(h).last().0 == h.recent_sessions@.last().0@);
            assert(history_rows(h).last().1 == keys_of(h.recent_sessions@.last().1@));
            if rows_before.len() == 0 {
                assert(history_rows(h).len() == 1);
                assert(history_rows(h)[0] == history_rows(h).last());
                assert(enc_rows(history_rows(h)) == enc_row(
                    history_rows(h)[0].0,
                    history_rows(h)[0].1,
                ));
            } else {
                assert(enc_rows(history_rows(h)) == enc_rows(rows_before) + ","@
                    + enc_row(history_rows(h).last().0, history_rows(h).last().1));
            }
            assert(v@.subrange(0, epos as int) =~= v@.subrange(0, pos as int)
                + v@.subrange(pos as int, cpos as int) + v@.subrange(
                cpos as int,
                epos as int,
            ));
            if rows_before.len() == 0 {
                assert(v@.subrange(pos as int, cpos as int) =~= Seq::<char>::empty());
            }
            assert(v@.subrange(0, epos as int) =~= "{"@ + enc_rows(history_rows(h)));
        }
        pos = epos;
        match expect_lit(&v, pos, "}") {
            Some(end) => {
                if end != n {
                    proof {
                        assert forall|rows: Seq<(Seq<char>, Seq<EntryKey>)>|
                            rows_wf(rows) && s@ == #[trigger] enc_history(rows) implies false by {
                            lemma_decode_align(s@, pos as int, history_rows(h), rows);
                            if rows.len() > history_rows(h).len() {
                                if history_rows(h).len() == 0 {
                                    assert(s@.skip(pos as int)[0] == '"');
                                } else {
                                    assert(s@.skip(pos as int)[0] == ',');
                                }
                                assert(v@.subrange(pos as int, pos + 1)[0] == s@.skip(
                                    pos as int,
                                )[0]);
                                assert(false);
                            }
                            assert(s@.skip(pos as int).len() == 1);
                        }
                    }
                    return None;
                }
                proof {
                    assert(s@ =~= v@.subrange(0, n as int));
                    assert(s@ =~= enc_history(history_rows(h)));
                }
                if !h.check_wf() {
                    proof {
                        assert forall|rows: Seq<(Seq<char>, Seq<EntryKey>)>|
                            rows_wf(rows) && s@ == #[trigger] enc_history(rows) implies false by {
                            lemma_enc_history_injective(history_rows(h), rows);
                            lemma_rows_wf_equiv(h);
                        }
                    }
                    return None;
                }
                return Some(h);
            }
            None => {}
        }
    }
}

} // verus!

