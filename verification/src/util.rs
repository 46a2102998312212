//! Small verified helpers over strings and characters.

use vstd::prelude::*;
use vstd::string::StrSliceExecFns;

verus! {

/// Character-wise string equality, proved against the string views.
pub fn str_eq(a: &str, b: &str) -> (r: bool)
    ensures
        r == (a@ == b@),
{
    let a_len = a.unicode_len();
    let b_len = b.unicode_len();
    if a_len != b_len {
        assert(a@ != b@) by {
            assert(a@.len() != b@.len());
        }
        return false;
    }
    let mut i: usize = 0;
    while i < a_len
        invariant
            a_len == a@.len(),
            b_len == b@.len(),
            a_len == b_len,
            i <= a_len,
            forall|j: int| 0 <= j < i ==> a@[j] == b@[j],
        decreases a_len - i,
    {
        if a.get_char(i) != b.get_char(i) {
            assert(a@ != b@) by {
                assert(a@[i as int] != b@[i as int]);
            }
            return false;
        }
        i += 1;
    }
    proof {
        assert(a@ =~= b@);
    }
    true
}

/// String equality on owned strings.
pub fn string_eq(a: &String, b: &String) -> (r: bool)
    ensures
        r == (a@ == b@),
{
    str_eq(a.as_str(), b.as_str())
}

/// Whether `needle` occurs in `hay` as a contiguous run starting at `at`.
pub open spec fn occurs_at(hay: Seq<char>, needle: Seq<char>, at: int) -> bool {
    &&& 0 <= at
    &&& at + needle.len() <= hay.len()
    &&& forall|q: int| 0 <= q < needle.len() ==> hay[at + q] == needle[q]
}

/// Whether `needle` occurs somewhere in `hay`.
pub open spec fn contains_sub(hay: Seq<char>, needle: Seq<char>) -> bool {
    exists|at: int| occurs_at(hay, needle, at)
}

fn occurs_here(hay: &str, needle: &str, at: usize) -> (r: bool)
    requires
        at + needle@.len() <= hay@.len(),
    ensures
        r == occurs_at(hay@, needle@, at as int),
{
    let hay_len = hay.unicode_len();
    let needle_len = needle.unicode_len();
    let mut j: usize = 0;
    while j < needle_len
        invariant
            hay_len == hay@.len(),
            needle_len == needle@.len(),
            at + needle_len <= hay_len,
            j <= needle_len,
            forall|q: int| 0 <= q < j ==> hay@[at + q] == needle@[q],
        decreases needle_len - j,
    {
        if hay.get_char(at + j) != needle.get_char(j) {
            assert(!occurs_at(hay@, needle@, at as int)) by {
                assert(hay@[at + j as int] != needle@[j as int]);
            }
            return false;
        }
        j += 1;
    }
    true
}

/// Substring search, proved against `contains_sub`.
pub fn str_contains(hay: &str, needle: &str) -> (r: bool)
    ensures
        r == contains_sub(hay@, needle@),
{
    let hay_len = hay.unicode_len();
    let needle_len = needle.unicode_len();
    if needle_len > hay_len {
        assert(!contains_sub(hay@, needle@)) by {
            assert(forall|at: int| !occurs_at(hay@, needle@, at));
        }
        return false;
    }
    let last_start = hay_len - needle_len;
    let mut at: usize = 0;
    while at <= last_start
        invariant
            hay_len == hay@.len(),
            needle_len == needle@.len(),
            needle_len <= hay_len,
            last_start == hay_len - needle_len,
            at <= last_start + 1,
            forall|p: int| 0 <= p < at ==> !occurs_at(hay@, needle@, p),
        decreases last_start + 1 - at,
    {
        if occurs_here(hay, needle, at) {
            return true;
        }
        at += 1;
    }
    assert(!contains_sub(hay@, needle@)) by {
        assert forall|p: int| !occurs_at(hay@, needle@, p) by {
            if 0 <= p < at as int {
            } else if p > last_start as int {
                assert(p + needle@.len() > hay@.len());
            }
        }
    }
    false
}

/// What lower-casing a string yields; a function of the characters alone.
pub uninterp spec fn lower_of(s: Seq<char>) -> Seq<char>;

/// Relies on `str::to_lowercase`: the result depends on the characters
/// alone, and an empty string stays empty.
#[verifier::external_body]
pub fn to_lowercase(s: &str) -> (r: String)
    ensures
        r@ == lower_of(s@),
        s@.len() == 0 ==> r@.len() == 0,
{
    s.to_lowercase()
}

/// Relies on `String::from_iter` over `char`: collecting characters yields the
/// string with exactly those characters in order.
#[verifier::external_body]
pub fn chars_to_string(chars: &Vec<char>) -> (r: String)
    ensures
        r@ == chars@,
{
    chars.iter().collect()
}

/// The decimal digits of a number, most significant first.
pub open spec fn dec_digits(n: nat) -> Seq<char>
    decreases n,
{
    if n < 10 {
        seq![digit_char(n)]
    } else {
        dec_digits(n / 10) + seq![digit_char(n % 10)]
    }
}

/// The character for one digit.
pub open spec fn digit_char(d: nat) -> char {
    if d == 0 {
        '0'
    } else if d == 1 {
        '1'
    } else if d == 2 {
        '2'
    } else if d == 3 {
        '3'
    } else if d == 4 {
        '4'
    } else if d == 5 {
        '5'
    } else if d == 6 {
        '6'
    } else if d == 7 {
        '7'
    } else if d == 8 {
        '8'
    } else {
        '9'
    }
}

fn digit_to_char(d: usize) -> (c: char)
    requires
        d < 10,
    ensures
        c == digit_char(d as nat),
{
    if d == 0 {
        '0'
    } else if d == 1 {
        '1'
    } else if d == 2 {
        '2'
    } else if d == 3 {
        '3'
    } else if d == 4 {
        '4'
    } else if d == 5 {
        '5'
    } else if d == 6 {
        '6'
    } else if d == 7 {
        '7'
    } else if d == 8 {
        '8'
    } else {
        '9'
    }
}

/// A number written in decimal, proved against `dec_digits`.
pub fn usize_to_string(n: usize) -> (r: String)
    ensures
        r@ == dec_digits(n as nat),
{
    let mut rev: Vec<char> = Vec::new();
    let mut m: usize = n;
    proof {
        assert(dec_digits(n as nat) =~= dec_digits(n as nat) + rev@.reverse());
    }
    while m >= 10
        invariant
            dec_digits(n as nat) == dec_digits(m as nat) + rev@.reverse(),
        decreases m,
    {
        let c = digit_to_char(m % 10);
        let ghost rev_before = rev@;
        rev.push(c);
        proof {
            assert(rev@.reverse() =~= seq![c] + rev_before.reverse());
            assert(dec_digits(m as nat) == dec_digits((m / 10) as nat) + seq![
                digit_char((m % 10) as nat),
            ]);
            assert(dec_digits((m / 10) as nat) + rev@.reverse() =~= dec_digits(m as nat)
                + rev_before.reverse());
        }
        m = m / 10;
    }
    let c = digit_to_char(m);
    let ghost rev_before = rev@;
    rev.push(c);
    proof {
        assert(rev@.reverse() =~= seq![c] + rev_before.reverse());
        assert(dec_digits(m as nat) == seq![digit_char(m as nat)]);
        assert(dec_digits(n as nat) =~= rev@.reverse());
    }
    let digits = rev;
    let len = digits.len();
    let mut out: Vec<char> = Vec::new();
    let mut i: usize = len;
    while i > 0
        invariant
            len == digits@.len(),
            i <= len,
            out@ == digits@.reverse().take(len - i),
        decreases i,
    {
        i -= 1;
        out.push(digits[i]);
        proof {
            assert(digits@.reverse()[len - i - 1] == digits@[i as int]);
            assert(out@ =~= digits@.reverse().take(len - i));
        }
    }
    proof {
        assert(digits@.reverse().take(len as int) =~= digits@.reverse());
    }
    chars_to_string(&out)
}

/// Whether some element of `v` reads as `s`.
pub open spec fn holds_string(v: Seq<String>, s: Seq<char>) -> bool {
    exists|i: int| 0 <= i < v.len() && (#[trigger] v[i])@ == s
}

/// Membership in a list of strings, proved against `holds_string`.
pub fn string_vec_contains(v: &Vec<String>, s: &str) -> (r: bool)
    ensures
        r == holds_string(v@, s@),
{
    let n = v.len();
    let mut i: usize = 0;
    while i < n
        invariant
            n == v@.len(),
            i <= n,
            forall|j: int| 0 <= j < i ==> (#[trigger] v@[j])@ != s@,
        decreases n - i,
    {
        if str_eq(v[i].as_str(), s) {
            return true;
        }
        i += 1;
    }
    false
}

/// The strings of `v` joined by `sep`.
pub open spec fn joined(v: Seq<String>, sep: Seq<char>) -> Seq<char>
    decreases v.len(),
{
    if v.len() == 0 {
        Seq::empty()
    } else if v.len() == 1 {
        v[0]@
    } else {
        joined(v.drop_last(), sep) + sep + v.last()@
    }
}

/// Join strings with a separator, proved against `joined`.
pub fn join_with(v: &Vec<String>, sep: &str) -> (r: String)
    ensures
        r@ == joined(v@, sep@),
{
    let n = v.len();
    if n == 0 {
        return String::new();
    }
    let mut out: Vec<char> = str_chars(v[0].as_str());
    proof {
        assert(v@.take(1)[0] == v@[0]);
        assert(out@ =~= joined(v@.take(1), sep@));
    }
    let mut i: usize = 1;
    while i < n
        invariant
            n == v@.len(),
            1 <= i <= n,
            out@ == joined(v@.take(i as int), sep@),
        decreases n - i,
    {
        let ghost before = out@;
        let sep_chars = str_chars(sep);
        let sn = sep_chars.len();
        let mut k: usize = 0;
        while k < sn
            invariant
                sn == sep_chars@.len(),
                sep_chars@ == sep@,
                k <= sn,
                out@ == before + sep@.take(k as int),
            decreases sn - k,
        {
            out.push(sep_chars[k]);
            proof {
                assert(out@ =~= before + sep@.take(k + 1));
            }
            k += 1;
        }
        proof {
            assert(sep@.take(sn as int) =~= sep@);
        }
        let ghost before2 = out@;
        let part = str_chars(v[i].as_str());
        let pn = part.len();
        let mut k2: usize = 0;
        while k2 < pn
            invariant
                pn == part@.len(),
                part@ == v@[i as int]@,
                k2 <= pn,
                out@ == before2 + v@[i as int]@.take(k2 as int),
            decreases pn - k2,
        {
            out.push(part[k2]);
            proof {
                assert(out@ =~= before2 + v@[i as int]@.take(k2 + 1));
            }
            k2 += 1;
        }
        proof {
            assert(v@[i as int]@.take(pn as int) =~= v@[i as int]@);
            let t1 = v@.take(i + 1);
            assert(t1.drop_last() =~= v@.take(i as int));
            assert(t1.last() == v@[i as int]);
            assert(t1.len() > 1);
            assert(out@ =~= joined(t1, sep@));
        }
        i += 1;
    }
    proof {
        assert(v@.take(n as int) =~= v@);
    }
    chars_to_string(&out)
}

/// The index just past the last `/` of `s`, or 0 when it has none.
pub open spec fn after_last_slash(s: Seq<char>) -> int
    decreases s.len(),
{
    if s.len() == 0 {
        0
    } else if s.last() == '/' {
        s.len() as int
    } else {
        after_last_slash(s.drop_last())
    }
}

/// The final path component: the characters after the last `/`.
pub open spec fn basename_of(s: Seq<char>) -> Seq<char> {
    s.skip(after_last_slash(s))
}

/// The final path component of a path string, proved against `basename_of`.
pub fn str_basename(s: &str) -> (r: String)
    ensures
        r@ == basename_of(s@),
{
    let v = str_chars(s);
    let len = v.len();
    let mut cut: usize = len;
    proof {
        assert(s@.take(len as int) =~= s@);
    }
    while cut > 0 && v[cut - 1] != '/'
        invariant
            len == v@.len(),
            v@ == s@,
            cut <= len,
            after_last_slash(s@) == after_last_slash(s@.take(cut as int)),
        decreases cut,
    {
        proof {
            let t = s@.take(cut as int);
            assert(t.last() == s@[cut - 1]);
            assert(t.drop_last() =~= s@.take(cut - 1));
        }
        cut -= 1;
    }
    proof {
        let t = s@.take(cut as int);
        if cut > 0 {
            assert(t.last() == s@[cut - 1]);
            assert(s@[cut - 1] == '/');
            assert(after_last_slash(t) == cut as int);
        } else {
            assert(t =~= Seq::<char>::empty());
            assert(after_last_slash(t) == 0);
        }
        assert(after_last_slash(s@) == cut as int);
    }
    let mut out: Vec<char> = Vec::new();
    let mut i: usize = cut;
    while i < len
        invariant
            len == v@.len(),
            v@ == s@,
            cut <= i <= len,
            out@ == s@.subrange(cut as int, i as int),
        decreases len - i,
    {
        out.push(v[i]);
        proof {
            assert(out@ =~= s@.subrange(cut as int, i + 1));
        }
        i += 1;
    }
    proof {
        assert(s@.subrange(cut as int, len as int) =~= s@.skip(cut as int));
    }
    chars_to_string(&out)
}

/// An ASCII whitespace character.
pub open spec fn is_ws(c: char) -> bool {
    c == ' ' || c == '\t' || c == '\n' || c == '\r'
}

/// `s` without leading whitespace.
pub open spec fn trim_front(s: Seq<char>) -> Seq<char>
    decreases s.len(),
{
    if s.len() > 0 && is_ws(s[0]) {
        trim_front(s.drop_first())
    } else {
        s
    }
}

/// `s` without trailing whitespace.
pub open spec fn trim_back(s: Seq<char>) -> Seq<char>
    decreases s.len(),
{
    if s.len() > 0 && is_ws(s.last()) {
        trim_back(s.drop_last())
    } else {
        s
    }
}

/// `s` without leading and trailing whitespace.
pub open spec fn trim_spec(s: Seq<char>) -> Seq<char> {
    trim_back(trim_front(s))
}

fn is_ws_char(c: char) -> (r: bool)
    ensures
        r == is_ws(c),
{
    c == ' ' || c == '\t' || c == '\n' || c == '\r'
}

/// The bounds of `v[lo..hi]` with surrounding whitespace dropped.
pub fn trim_range(v: &Vec<char>, lo: usize, hi: usize) -> (r: (usize, usize))
    requires
        lo <= hi <= v@.len(),
    ensures
        lo <= r.0 <= r.1 <= hi,
        v@.subrange(r.0 as int, r.1 as int) == trim_spec(v@.subrange(lo as int, hi as int)),
{
    let mut a: usize = lo;
    while a < hi && is_ws_char(v[a])
        invariant
            lo <= a <= hi <= v@.len(),
            trim_front(v@.subrange(lo as int, hi as int)) == trim_front(
                v@.subrange(a as int, hi as int),
            ),
        decreases hi - a,
    {
        proof {
            assert(v@.subrange(a as int, hi as int)[0] == v@[a as int]);
            assert(v@.subrange(a as int, hi as int).drop_first() =~= v@.subrange(
                a + 1,
                hi as int,
            ));
        }
        a += 1;
    }
    proof {
        let sub = v@.subrange(a as int, hi as int);
        if sub.len() > 0 {
            assert(sub[0] == v@[a as int]);
        }
        assert(trim_front(sub) == sub);
    }
    let mut b: usize = hi;
    while b > a && is_ws_char(v[b - 1])
        invariant
            lo <= a <= b <= hi <= v@.len(),
            trim_front(v@.subrange(lo as int, hi as int)) == v@.subrange(a as int, hi as int),
            trim_back(v@.subrange(a as int, hi as int)) == trim_back(
                v@.subrange(a as int, b as int),
            ),
        decreases b,
    {
        proof {
            let sub = v@.subrange(a as int, b as int);
            assert(sub.last() == v@[b - 1]);
            assert(sub.drop_last() =~= v@.subrange(a as int, b - 1));
        }
        b -= 1;
    }
    proof {
        let sub = v@.subrange(a as int, b as int);
        if sub.len() > 0 {
            assert(sub.last() == v@[b - 1]);
        }
        assert(trim_back(sub) == sub);
    }
    (a, b)
}

/// `s` with surrounding whitespace dropped.
pub fn trim_str(s: &str) -> (r: String)
    ensures
        r@ == trim_spec(s@),
{
    let v = str_chars(s);
    let (a, b) = trim_range(&v, 0, v.len());
    proof {
        assert(v@.subrange(0, v@.len() as int) =~= s@);
    }
    let mut out: Vec<char> = Vec::new();
    let mut i: usize = a;
    while i < b
        invariant
            a <= i <= b <= v@.len(),
            v@ == s@,
            out@ == v@.subrange(a as int, i as int),
        decreases b - i,
    {
        out.push(v[i]);
        proof {
            assert(out@ =~= v@.subrange(a as int, i + 1));
        }
        i += 1;
    }
    chars_to_string(&out)
}

/// The characters of a string as a vector, proved against the view.
pub fn str_chars(s: &str) -> (r: Vec<char>)
    ensures
        r@ == s@,
{
    let len = s.unicode_len();
    let mut out: Vec<char> = Vec::new();
    let mut i: usize = 0;
    while i < len
        invariant
            len == s@.len(),
            i <= len,
            out@ == s@.take(i as int),
        decreases len - i,
    {
        out.push(s.get_char(i));
        proof {
            assert(out@ =~= s@.take(i + 1));
        }
        i += 1;
    }
    proof {
        assert(s@.take(len as int) =~= s@);
    }
    out
}

} // verus!
