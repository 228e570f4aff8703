//! Template derivation: one sample banner path is matched against the
//! shape `<prefix><region marker><title><any char>jpg` and the title is
//! replaced by the `{}` placeholder. The prefix before the marker and the
//! middle part must both be non-empty, the prefix part is chosen as long
//! as possible, and within that choice the extension suffix as late as
//! possible. A path without that shape yields no template.
//!
//! Substitution puts a brand name in the place of every `{}` of a
//! template; a template without a placeholder comes back unchanged.
use vstd::prelude::*;

use crate::candidates::is_marker_at;
use crate::chars::chars_string;
use crate::chars::str_chars;

verus! {

/// The letters `jpg` stand at position `j` of `s`.
pub open spec fn is_jpg_at(s: Seq<char>, j: int) -> bool {
    &&& 0 <= j
    &&& j + 3 <= s.len()
    &&& s[j] == 'j'
    &&& s[j + 1] == 'p'
    &&& s[j + 2] == 'g'
}

/// The last position at or before `j` where `jpg` stands, or `-1`.
pub open spec fn last_jpg_upto(s: Seq<char>, j: int) -> int
    decreases j + 1 when -1 <= j
{
    if j < 0 {
        -1
    } else if is_jpg_at(s, j) {
        j
    } else {
        last_jpg_upto(s, j - 1)
    }
}

/// The last marker end at or before `e` that leaves at least one
/// character before the marker, or `-1`. A marker occupying positions
/// `e - 4 .. e` qualifies only when `e - 4 >= 1`.
pub open spec fn last_marker_end_upto(s: Seq<char>, e: int) -> int
    decreases e + 1 when -1 <= e
{
    if e < 5 {
        -1
    } else if is_marker_at(s, e - 4) {
        e
    } else {
        last_marker_end_upto(s, e - 1)
    }
}

/// What template derivation yields on a sample path: `None` when the
/// path does not have the matched shape; otherwise the path with the
/// title between the marker and the extension replaced by `{}`.
pub open spec fn template_spec(p: Seq<char>) -> Option<Seq<char>> {
    if p.len() < 3 {
        None
    } else {
        let lj = last_jpg_upto(p, p.len() - 3);
        if lj < 7 {
            None
        } else {
            let e = last_marker_end_upto(p, lj - 2);
            if e < 0 {
                None
            } else {
                Some(p.take(e) + seq!['{', '}'] + p.skip(lj - 1))
            }
        }
    }
}

pub proof fn lemma_last_jpg_upto(s: Seq<char>, j: int)
    requires
        -1 <= j,
    ensures
        -1 <= last_jpg_upto(s, j) <= j,
        last_jpg_upto(s, j) >= 0 ==> is_jpg_at(s, last_jpg_upto(s, j)),
        forall|i: int| last_jpg_upto(s, j) < i <= j ==> !is_jpg_at(s, i),
    decreases j + 1,
{
    if j < 0 {
    } else if is_jpg_at(s, j) {
    } else {
        lemma_last_jpg_upto(s, j - 1);
    }
}

pub proof fn lemma_last_marker_end_upto(s: Seq<char>, e: int)
    requires
        -1 <= e,
    ensures
        last_marker_end_upto(s, e) == -1 || 5 <= last_marker_end_upto(s, e) <= e,
        last_marker_end_upto(s, e) >= 5 ==> is_marker_at(s, last_marker_end_upto(s, e) - 4),
        forall|m: int|
            1 <= m && m + 4 <= e && last_marker_end_upto(s, e) < m + 4 ==> !(#[trigger] is_marker_at(
                s,
                m,
            )),
    decreases e + 1,
{
    if e < 5 {
    } else if is_marker_at(s, e - 4) {
    } else {
        lemma_last_marker_end_upto(s, e - 1);
    }
}

/// The last position at or before `start` where `jpg` stands, or the
/// length of `s` when none does (as an executable sentinel for `-1`).
fn find_last_jpg(s: &Vec<char>, start: usize) -> (r: usize)
    requires
        start + 3 <= s@.len(),
    ensures
        last_jpg_upto(s@, start as int) >= 0 ==> r == last_jpg_upto(s@, start as int),
        last_jpg_upto(s@, start as int) < 0 ==> r == s@.len(),
{
    let n: usize = s.len();
    let mut j: usize = start;
    loop
        invariant
            j <= start,
            n == s@.len(),
            start + 3 <= n,
            last_jpg_upto(s@, start as int) == last_jpg_upto(s@, j as int),
        decreases j + 1,
    {
        if s[j] == 'j' && s[j + 1] == 'p' && s[j + 2] == 'g' {
            assert(is_jpg_at(s@, j as int));
            return j;
        }
        assert(!is_jpg_at(s@, j as int));
        if j == 0 {
            proof {
                assert(last_jpg_upto(s@, -1) == -1);
                assert(last_jpg_upto(s@, 0) == -1);
            }
            return s.len();
        }
        j = j - 1;
    }
}

/// The last qualifying marker end at or before `start`, or the length of
/// `s` when none qualifies.
fn find_last_marker_end(s: &Vec<char>, start: usize) -> (r: usize)
    requires
        start <= s@.len(),
    ensures
        last_marker_end_upto(s@, start as int) >= 0 ==> r == last_marker_end_upto(
            s@,
            start as int,
        ),
        last_marker_end_upto(s@, start as int) < 0 ==> r == s@.len(),
{
    let mut e: usize = start;
    while e >= 5
        invariant
            e <= start <= s@.len(),
            last_marker_end_upto(s@, start as int) == last_marker_end_upto(s@, e as int),
        decreases e,
    {
        if s[e - 4] == '-' && s[e - 3] == 'd' && s[e - 2] == 'e' && s[e - 1] == '-' {
            assert(is_marker_at(s@, e - 4));
            return e;
        }
        assert(!is_marker_at(s@, e - 4));
        e = e - 1;
    }
    s.len()
}

/// Derives the probe template from the sample path, or reports that the
/// path does not have the expected shape.
pub fn derive_template(sample: &str) -> (r: Option<String>)
    ensures
        r is Some <==> template_spec(sample@) is Some,
        r is Some ==> r->Some_0@ == template_spec(sample@)->Some_0,
{
    let p: Vec<char> = str_chars(sample);
    let n: usize = p.len();
    if n < 3 {
        return None;
    }
    proof {
        lemma_last_jpg_upto(p@, n - 3);
    }
    let lj: usize = find_last_jpg(&p, n - 3);
    if lj == n || lj < 7 {
        proof {
            if last_jpg_upto(p@, n - 3) >= 7 {
                assert(last_jpg_upto(p@, n - 3) <= n - 3);
            }
        }
        return None;
    }
    proof {
        lemma_last_marker_end_upto(p@, lj - 2);
    }
    let e: usize = find_last_marker_end(&p, lj - 2);
    if e == n {
        proof {
            assert(last_marker_end_upto(p@, lj - 2) <= lj - 2 < n);
        }
        return None;
    }
    let mut t: Vec<char> = Vec::new();
    let mut i: usize = 0;
    while i < e
        invariant
            i <= e <= p@.len(),
            t@ == p@.take(i as int),
        decreases e - i,
    {
        t.push(p[i]);
        i = i + 1;
        assert(t@ =~= p@.take(i as int));
    }
    t.push('{');
    t.push('}');
    let mut j: usize = lj - 1;
    while j < n
        invariant
            lj - 1 <= j <= n,
            n == p@.len(),
            e < lj - 1,
            t@ == p@.take(e as int) + seq!['{', '}'] + p@.subrange(lj - 1, j as int),
        decreases n - j,
    {
        t.push(p[j]);
        j = j + 1;
        assert(t@ =~= p@.take(e as int) + seq!['{', '}'] + p@.subrange(lj - 1, j as int));
    }
    proof {
        assert(t@ =~= p@.take(e as int) + seq!['{', '}'] + p@.skip(lj - 1));
    }
    Some(chars_string(&t))
}

/// Replaces every `{}` of `t` (leftmost, non-overlapping) by `b`.
pub open spec fn subst_placeholder(t: Seq<char>, b: Seq<char>) -> Seq<char>
    decreases t.len(),
{
    if t.len() == 0 {
        t
    } else if t.len() >= 2 && t[0] == '{' && t[1] == '}' {
        b + subst_placeholder(t.skip(2), b)
    } else {
        seq![t[0]] + subst_placeholder(t.skip(1), b)
    }
}

/// Substitutes a brand name for every placeholder of the template.
pub fn substitute(template: &str, brand: &str) -> (r: String)
    ensures
        r@ == subst_placeholder(template@, brand@),
{
    let t: Vec<char> = str_chars(template);
    let b: Vec<char> = str_chars(brand);
    let n: usize = t.len();
    let mut out: Vec<char> = Vec::new();
    let mut i: usize = 0;
    proof {
        assert(t@.skip(0) =~= t@);
    }
    while i < n
        invariant
            i <= n,
            n == t@.len(),
            b@ == brand@,
            subst_placeholder(t@, brand@) == out@ + subst_placeholder(t@.skip(i as int), brand@),
        decreases n - i,
    {
        let ghost pre = out@;
        let ghost tail = t@.skip(i as int);
        if n - i >= 2 && t[i] == '{' && t[i + 1] == '}' {
            let mut k: usize = 0;
            while k < b.len()
                invariant
                    k <= b@.len(),
                    out@ == pre + b@.take(k as int),
                decreases b@.len() - k,
            {
                out.push(b[k]);
                k = k + 1;
                assert(out@ =~= pre + b@.take(k as int));
            }
            i = i + 2;
            proof {
                assert(out@ =~= pre + b@);
                assert(tail.skip(2) =~= t@.skip(i as int));
            }
        } else {
            out.push(t[i]);
            i = i + 1;
            proof {
                assert(out@ =~= pre + seq![tail[0]]);
                assert(tail.skip(1) =~= t@.skip(i as int));
            }
        }
    }
    proof {
        assert(t@.skip(n as int) =~= Seq::<char>::empty());
        assert(out@ =~= out@ + subst_placeholder(t@.skip(n as int), brand@));
    }
    chars_string(&out)
}

} // verus!
