//! Path strings and their home-relative display form.
//!
//! Paths are carried as strings. A path under the user's home directory is
//! shown as `~/suffix`; the two conversions below are inverses of each other
//! for such paths.

use vstd::prelude::*;

use crate::util::chars_to_string;
use crate::util::str_chars;

verus! {

/// Relies on `dirs::home_dir`: the user's home directory, or `None` when it
/// cannot be determined; a returned path is never empty.
#[verifier::external_body]
pub fn home_dir_string() -> (r: Option<String>)
    ensures
        match r {
            Some(h) => h@.len() > 0,
            None => true,
        },
{
    dirs::home_dir().map(|p| p.to_string_lossy().into_owned())
}

/// The display form of a path: `~/suffix` when it lies under `home`.
pub open spec fn display_of(path: Seq<char>, home: Seq<char>) -> Seq<char> {
    if home.len() > 0 && path.len() > home.len() && path.take(home.len() as int) == home
        && path[home.len() as int] == '/' {
        seq!['~'] + path.skip(home.len() as int)
    } else {
        path
    }
}

/// The actual path behind a display form: `~/x` becomes `home/x`.
pub open spec fn actual_of(disp: Seq<char>, home: Seq<char>) -> Seq<char> {
    if disp.len() >= 2 && disp[0] == '~' && disp[1] == '/' {
        home + disp.skip(1)
    } else {
        disp
    }
}

/// Turning a path into its display form and back returns the path, provided
/// the path does not itself begin with `~/`.
pub proof fn lemma_display_round_trip(path: Seq<char>, home: Seq<char>)
    requires
        path.len() < 2 || path[0] != '~' || path[1] != '/',
    ensures
        actual_of(display_of(path, home), home) == path,
{
    if home.len() > 0 && path.len() > home.len() && path.take(home.len() as int) == home
        && path[home.len() as int] == '/' {
        let d = seq!['~'] + path.skip(home.len() as int);
        assert(d[0] == '~');
        assert(d[1] == path[home.len() as int]);
        assert(d.len() >= 2);
        assert(d.skip(1) =~= path.skip(home.len() as int));
        assert(home + d.skip(1) =~= path) by {
            assert(forall|q: int| 0 <= q < home.len() ==> path[q] == home[q]);
        }
    }
}

fn chars_prefix(p: &Vec<char>, h: &Vec<char>) -> (r: bool)
    requires
        h@.len() <= p@.len(),
    ensures
        r == (p@.take(h@.len() as int) == h@),
{
    let hlen = h.len();
    let mut q: usize = 0;
    while q < hlen
        invariant
            hlen == h@.len(),
            hlen <= p@.len(),
            q <= hlen,
            forall|m: int| 0 <= m < q ==> p@[m] == h@[m],
        decreases hlen - q,
    {
        if p[q] != h[q] {
            assert(p@.take(hlen as int) != h@) by {
                assert(p@.take(hlen as int)[q as int] != h@[q as int]);
            }
            return false;
        }
        q += 1;
    }
    proof {
        assert(p@.take(hlen as int) =~= h@);
    }
    true
}

/// Convert an absolute path to a home-relative display string with `~`.
pub fn path_to_display(path: &str, home: &str) -> (r: String)
    ensures
        r@ == display_of(path@, home@),
{
    let p = str_chars(path);
    let h = str_chars(home);
    let plen = p.len();
    let hlen = h.len();
    let mut under_home = hlen > 0 && plen > hlen;
    if under_home {
        under_home = chars_prefix(&p, &h);
        if under_home {
            let sep = p[hlen];
            if sep != '/' {
                under_home = false;
            }
        }
    }
    if under_home {
        let mut out: Vec<char> = Vec::new();
        out.push('~');
        proof {
            assert(out@ =~= seq!['~'] + p@.subrange(hlen as int, hlen as int));
        }
        let mut q: usize = hlen;
        while q < plen
            invariant
                plen == p@.len(),
                hlen <= q <= plen,
                out@ == seq!['~'] + p@.subrange(hlen as int, q as int),
            decreases plen - q,
        {
            out.push(p[q]);
            proof {
                assert(out@ =~= seq!['~'] + p@.subrange(hlen as int, q + 1));
            }
            q += 1;
        }
        proof {
            assert(p@.subrange(hlen as int, plen as int) =~= p@.skip(hlen as int));
        }
        chars_to_string(&out)
    } else {
        let out = str_chars(path);
        chars_to_string(&out)
    }
}

/// Convert a display path (possibly with `~/`) back to an actual path.
pub fn display_path_to_actual(path_display: &str, home: &str) -> (r: String)
    ensures
        r@ == actual_of(path_display@, home@),
{
    let d = str_chars(path_display);
    let dlen = d.len();
    if dlen >= 2 && d[0] == '~' && d[1] == '/' {
        let mut out = str_chars(home);
        proof {
            assert(out@ =~= home@ + d@.subrange(1, 1));
        }
        let mut q: usize = 1;
        while q < dlen
            invariant
                dlen == d@.len(),
                1 <= q <= dlen,
                out@ == home@ + d@.subrange(1, q as int),
            decreases dlen - q,
        {
            out.push(d[q]);
            proof {
                assert(out@ =~= home@ + d@.subrange(1, q + 1));
            }
            q += 1;
        }
        proof {
            assert(d@.subrange(1, dlen as int) =~= d@.skip(1));
        }
        chars_to_string(&out)
    } else {
        let out = str_chars(path_display);
        chars_to_string(&out)
    }
}

/// `a/b`: the two parts joined by one separator.
pub fn join_path(a: &str, b: &str) -> (r: String)
    ensures
        r@ == a@ + seq!['/'] + b@,
{
    let mut out = str_chars(a);
    out.push('/');
    proof {
        assert(out@ =~= a@ + seq!['/'] + b@.take(0));
    }
    let bs = str_chars(b);
    let blen = bs.len();
    let mut q: usize = 0;
    while q < blen
        invariant
            blen == bs@.len(),
            bs@ == b@,
            q <= blen,
            out@ == a@ + seq!['/'] + b@.take(q as int),
        decreases blen - q,
    {
        out.push(bs[q]);
        proof {
            assert(out@ =~= a@ + seq!['/'] + b@.take(q + 1));
        }
        q += 1;
    }
    proof {
        assert(out@ =~= a@ + seq!['/'] + b@);
    }
    chars_to_string(&out)
}

} // verus!
