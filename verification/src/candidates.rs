//! The candidate generator: from one observed banner image path it derives
//! the set of plausible sub-brand-qualified asset paths.
//!
//! Two rewrites are combined. The "simple" candidate extends every region
//! marker `-de-` in the path to `-de-dd-`. The "normalized" candidate first
//! strips, inside the final path segment, the run of digits (with the
//! hyphens around it) that follows the marker and its title characters,
//! and then applies the same marker extension. Coinciding results collapse,
//! so a path yields one or two candidates.
use vstd::prelude::*;

use crate::chars::append_all;
use crate::chars::chars_eq;
use crate::chars::chars_string;
use crate::chars::str_chars;
use crate::chars::subvec;

verus! {

/// The region marker `-de-` stands at position `i` of `s`.
pub open spec fn is_marker_at(s: Seq<char>, i: int) -> bool {
    &&& 0 <= i
    &&& i + 4 <= s.len()
    &&& s[i] == '-'
    &&& s[i + 1] == 'd'
    &&& s[i + 2] == 'e'
    &&& s[i + 3] == '-'
}

/// The extended marker that inserts the sub-brand token: `-de-dd-`.
pub open spec fn extended_marker() -> Seq<char> {
    seq!['-', 'd', 'e', '-', 'd', 'd', '-']
}

/// Replaces every (leftmost, non-overlapping) occurrence of the region
/// marker by the extended marker, scanning left to right.
pub open spec fn extend_markers(s: Seq<char>) -> Seq<char>
    decreases s.len(),
{
    if s.len() == 0 {
        s
    } else if is_marker_at(s, 0) {
        extended_marker() + extend_markers(s.skip(4))
    } else {
        seq![s[0]] + extend_markers(s.skip(1))
    }
}

/// Extends every region marker of `s`, executably.
pub fn extend_markers_exec(s: &Vec<char>) -> (r: Vec<char>)
    ensures
        r@ == extend_markers(s@),
{
    let n: usize = s.len();
    let mut r: Vec<char> = Vec::new();
    let mut i: usize = 0;
    proof {
        assert(s@.skip(0) =~= s@);
    }
    while i < n
        invariant
            i <= n,
            n == s@.len(),
            extend_markers(s@) == r@ + extend_markers(s@.skip(i as int)),
        decreases n - i,
    {
        let ghost pre = r@;
        let ghost tail = s@.skip(i as int);
        if n - i >= 4 && s[i] == '-' && s[i + 1] == 'd' && s[i + 2] == 'e' && s[i + 3] == '-' {
            assert(is_marker_at(tail, 0));
            r.push('-');
            r.push('d');
            r.push('e');
            r.push('-');
            r.push('d');
            r.push('d');
            r.push('-');
            i = i + 4;
            proof {
                assert(r@ =~= pre + extended_marker());
                assert(tail.skip(4) =~= s@.skip(i as int));
            }
        } else {
            assert(!is_marker_at(tail, 0));
            r.push(s[i]);
            i = i + 1;
            proof {
                assert(r@ =~= pre + seq![tail[0]]);
                assert(tail.skip(1) =~= s@.skip(i as int));
            }
        }
    }
    proof {
        assert(s@.skip(n as int) =~= Seq::<char>::empty());
        assert(r@ =~= r@ + extend_markers(s@.skip(n as int)));
    }
    r
}

/// A decimal digit.
pub open spec fn is_digit(c: char) -> bool {
    48 <= c as u32 && c as u32 <= 57
}

/// A character that may stand in the title part right after the marker:
/// anything but a digit, a comma or a hyphen.
pub open spec fn is_title_char(c: char) -> bool {
    !is_digit(c) && c != ',' && c != '-'
}

/// The position of the first region marker at or after `i`, or `s.len()`
/// when none stands there.
pub open spec fn first_marker_from(s: Seq<char>, i: int) -> int
    decreases s.len() - i when 0 <= i <= s.len()
{
    if i + 4 > s.len() {
        s.len() as int
    } else if is_marker_at(s, i) {
        i
    } else {
        first_marker_from(s, i + 1)
    }
}

pub proof fn lemma_first_marker_from(s: Seq<char>, i: int)
    requires
        0 <= i <= s.len(),
    ensures
        i <= first_marker_from(s, i) <= s.len(),
        first_marker_from(s, i) < s.len() ==> is_marker_at(s, first_marker_from(s, i)),
        forall|j: int| i <= j < first_marker_from(s, i) ==> !is_marker_at(s, j),
    decreases s.len() - i,
{
    if i + 4 > s.len() {
    } else if is_marker_at(s, i) {
    } else {
        lemma_first_marker_from(s, i + 1);
    }
}

/// The end of the run of title characters starting at `i`.
pub open spec fn title_run_end(s: Seq<char>, i: int) -> int
    decreases s.len() - i when 0 <= i <= s.len()
{
    if i < s.len() && is_title_char(s[i]) {
        title_run_end(s, i + 1)
    } else {
        i
    }
}

/// The end of the run of hyphens starting at `i`.
pub open spec fn dash_run_end(s: Seq<char>, i: int) -> int
    decreases s.len() - i when 0 <= i <= s.len()
{
    if i < s.len() && s[i] == '-' {
        dash_run_end(s, i + 1)
    } else {
        i
    }
}

/// The end of the run of digits starting at `i`.
pub open spec fn digit_run_end(s: Seq<char>, i: int) -> int
    decreases s.len() - i when 0 <= i <= s.len()
{
    if i < s.len() && is_digit(s[i]) {
        digit_run_end(s, i + 1)
    } else {
        i
    }
}

pub proof fn lemma_title_run_end(s: Seq<char>, i: int)
    requires
        0 <= i <= s.len(),
    ensures
        i <= title_run_end(s, i) <= s.len(),
        title_run_end(s, i) < s.len() ==> !is_title_char(s[title_run_end(s, i)]),
        forall|j: int| i <= j < title_run_end(s, i) ==> is_title_char(#[trigger] s[j]),
    decreases s.len() - i,
{
    if i < s.len() && is_title_char(s[i]) {
        lemma_title_run_end(s, i + 1);
    }
}

/// Pins a title run by its defining property.
pub proof fn lemma_title_run_pin(s: Seq<char>, i: int, e: int)
    requires
        0 <= i <= e <= s.len(),
        forall|j: int| i <= j < e ==> is_title_char(#[trigger] s[j]),
        e == s.len() || !is_title_char(s[e]),
    ensures
        title_run_end(s, i) == e,
    decreases e - i,
{
    if i < e {
        lemma_title_run_pin(s, i + 1, e);
    }
}

pub proof fn lemma_dash_run_end(s: Seq<char>, i: int)
    requires
        0 <= i <= s.len(),
    ensures
        i <= dash_run_end(s, i) <= s.len(),
        dash_run_end(s, i) < s.len() ==> s[dash_run_end(s, i)] != '-',
        forall|j: int| i <= j < dash_run_end(s, i) ==> #[trigger] s[j] == '-',
    decreases s.len() - i,
{
    if i < s.len() && s[i] == '-' {
        lemma_dash_run_end(s, i + 1);
    }
}

pub proof fn lemma_digit_run_end(s: Seq<char>, i: int)
    requires
        0 <= i <= s.len(),
    ensures
        i <= digit_run_end(s, i) <= s.len(),
        digit_run_end(s, i) < s.len() ==> !is_digit(s[digit_run_end(s, i)]),
        forall|j: int| i <= j < digit_run_end(s, i) ==> is_digit(#[trigger] s[j]),
    decreases s.len() - i,
{
    if i < s.len() && is_digit(s[i]) {
        lemma_digit_run_end(s, i + 1);
    }
}

/// Where the cut inside a filename begins: right after the marker's run of
/// title characters. Meaningful only when the filename holds a marker.
pub open spec fn strip_start(t: Seq<char>) -> int {
    title_run_end(t, first_marker_from(t, 0) + 4)
}

/// Where the cut ends: past the hyphens, digits and hyphens that follow
/// the title run.
pub open spec fn strip_end(t: Seq<char>) -> int {
    dash_run_end(t, digit_run_end(t, dash_run_end(t, strip_start(t))))
}

/// The filename with the digit run after the marker, and the hyphens
/// around it, removed. A filename without a marker is left unchanged.
pub open spec fn strip_title(t: Seq<char>) -> Seq<char> {
    if first_marker_from(t, 0) == t.len() {
        t
    } else {
        t.take(strip_start(t)) + t.skip(strip_end(t))
    }
}

pub proof fn lemma_strip_bounds(t: Seq<char>)
    requires
        first_marker_from(t, 0) < t.len(),
    ensures
        0 <= first_marker_from(t, 0),
        first_marker_from(t, 0) + 4 <= strip_start(t) <= strip_end(t) <= t.len(),
{
    lemma_first_marker_from(t, 0);
    lemma_title_run_end(t, first_marker_from(t, 0) + 4);
    lemma_dash_run_end(t, strip_start(t));
    lemma_digit_run_end(t, dash_run_end(t, strip_start(t)));
    lemma_dash_run_end(t, digit_run_end(t, dash_run_end(t, strip_start(t))));
}

/// The index right after the last `/` among the first `i` characters of
/// `p`, or `0` when none stands there.
pub open spec fn last_slash_end(p: Seq<char>, i: int) -> int
    decreases i when 0 <= i <= p.len()
{
    if i <= 0 {
        0
    } else if p[i - 1] == '/' {
        i
    } else {
        last_slash_end(p, i - 1)
    }
}

/// Where the final path segment (the filename) of `p` begins.
pub open spec fn file_start(p: Seq<char>) -> int {
    last_slash_end(p, p.len() as int)
}

pub proof fn lemma_last_slash_end(p: Seq<char>, i: int)
    requires
        0 <= i <= p.len(),
    ensures
        0 <= last_slash_end(p, i) <= i,
        forall|j: int| last_slash_end(p, i) <= j < i ==> p[j] != '/',
        last_slash_end(p, i) > 0 ==> p[last_slash_end(p, i) - 1] == '/',
    decreases i,
{
    if i <= 0 {
    } else if p[i - 1] == '/' {
    } else {
        lemma_last_slash_end(p, i - 1);
    }
}

/// The path with its filename's digit run stripped (see `strip_title`);
/// the directory part is kept as it stands.
pub open spec fn normalized_path(p: Seq<char>) -> Seq<char> {
    p.take(file_start(p)) + strip_title(p.skip(file_start(p)))
}

/// The marker-extended input: the "simple" candidate.
pub open spec fn simple_candidate(p: Seq<char>) -> Seq<char> {
    extend_markers(p)
}

/// The marker-extended, digit-stripped input: the "normalized" candidate.
pub open spec fn normalized_candidate(p: Seq<char>) -> Seq<char> {
    extend_markers(normalized_path(p))
}

/// What `candidates` returns: the two candidates, collapsed to one when
/// they coincide.
pub open spec fn spec_candidates(p: Seq<char>) -> Seq<Seq<char>> {
    if simple_candidate(p) == normalized_candidate(p) {
        seq![simple_candidate(p)]
    } else {
        seq![simple_candidate(p), normalized_candidate(p)]
    }
}

/// The position of the first region marker of `s` at or after `start`.
pub fn find_marker_from(s: &Vec<char>, start: usize) -> (r: usize)
    requires
        start <= s@.len(),
    ensures
        r == first_marker_from(s@, start as int),
{
    let n: usize = s.len();
    let mut i: usize = start;
    while n - i >= 4
        invariant
            start <= i <= n,
            n == s@.len(),
            first_marker_from(s@, start as int) == first_marker_from(s@, i as int),
        decreases n - i,
    {
        if s[i] == '-' && s[i + 1] == 'd' && s[i + 2] == 'e' && s[i + 3] == '-' {
            assert(is_marker_at(s@, i as int));
            return i;
        }
        assert(!is_marker_at(s@, i as int));
        i = i + 1;
    }
    n
}

/// The end of the run of title characters of `s` starting at `start`.
pub fn title_run_end_exec(s: &Vec<char>, start: usize) -> (r: usize)
    requires
        start <= s@.len(),
    ensures
        r == title_run_end(s@, start as int),
{
    let n: usize = s.len();
    let mut i: usize = start;
    while i < n
        invariant
            start <= i <= n,
            n == s@.len(),
            title_run_end(s@, start as int) == title_run_end(s@, i as int),
        decreases n - i,
    {
        let u: u32 = s[i] as u32;
        if (48 <= u && u <= 57) || s[i] == ',' || s[i] == '-' {
            assert(!is_title_char(s@[i as int]));
            return i;
        }
        assert(is_title_char(s@[i as int]));
        i = i + 1;
    }
    n
}

/// The end of the run of hyphens of `s` starting at `start`.
pub fn dash_run_end_exec(s: &Vec<char>, start: usize) -> (r: usize)
    requires
        start <= s@.len(),
    ensures
        r == dash_run_end(s@, start as int),
{
    let n: usize = s.len();
    let mut i: usize = start;
    while i < n
        invariant
            start <= i <= n,
            n == s@.len(),
            dash_run_end(s@, start as int) == dash_run_end(s@, i as int),
        decreases n - i,
    {
        if s[i] != '-' {
            return i;
        }
        i = i + 1;
    }
    n
}

/// The end of the run of digits of `s` starting at `start`.
pub fn digit_run_end_exec(s: &Vec<char>, start: usize) -> (r: usize)
    requires
        start <= s@.len(),
    ensures
        r == digit_run_end(s@, start as int),
{
    let n: usize = s.len();
    let mut i: usize = start;
    while i < n
        invariant
            start <= i <= n,
            n == s@.len(),
            digit_run_end(s@, start as int) == digit_run_end(s@, i as int),
        decreases n - i,
    {
        let u: u32 = s[i] as u32;
        if !(48 <= u && u <= 57) {
            assert(!is_digit(s@[i as int]));
            return i;
        }
        i = i + 1;
    }
    n
}

/// Where the final path segment of `p` begins, executably.
pub fn file_start_exec(p: &Vec<char>) -> (r: usize)
    ensures
        r == file_start(p@),
{
    let n: usize = p.len();
    let mut i: usize = n;
    while i > 0
        invariant
            i <= n,
            n == p@.len(),
            last_slash_end(p@, n as int) == last_slash_end(p@, i as int),
        decreases i,
    {
        if p[i - 1] == '/' {
            return i;
        }
        i = i - 1;
    }
    0
}

/// The filename with its post-marker digit run stripped, executably.
pub fn strip_title_exec(t: &Vec<char>) -> (r: Vec<char>)
    ensures
        r@ == strip_title(t@),
{
    let n: usize = t.len();
    let m: usize = find_marker_from(t, 0);
    proof {
        lemma_first_marker_from(t@, 0);
    }
    if m == n {
        let mut r: Vec<char> = Vec::new();
        append_all(&mut r, t);
        assert(r@ =~= t@);
        return r;
    }
    proof {
        lemma_strip_bounds(t@);
    }
    let k: usize = title_run_end_exec(t, m + 4);
    proof {
        lemma_title_run_end(t@, m + 4);
        lemma_dash_run_end(t@, k as int);
    }
    let a: usize = dash_run_end_exec(t, k);
    proof {
        lemma_digit_run_end(t@, a as int);
    }
    let b: usize = digit_run_end_exec(t, a);
    proof {
        lemma_dash_run_end(t@, b as int);
    }
    let c: usize = dash_run_end_exec(t, b);
    let mut r: Vec<char> = subvec(t, 0, k);
    let tail: Vec<char> = subvec(t, c, n);
    append_all(&mut r, &tail);
    assert(r@ =~= strip_title(t@));
    r
}

/// The candidate paths for one observed path: the marker-extended input
/// and, when it differs, the marker-extended digit-stripped input.
pub fn candidates(base_url: &str) -> (r: Vec<String>)
    ensures
        r@.map_values(|s: String| s@) == spec_candidates(base_url@),
{
    let p: Vec<char> = str_chars(base_url);
    let simple: Vec<char> = extend_markers_exec(&p);
    let fs: usize = file_start_exec(&p);
    proof {
        lemma_last_slash_end(p@, p@.len() as int);
    }
    let title: Vec<char> = subvec(&p, fs, p.len());
    let stripped: Vec<char> = strip_title_exec(&title);
    let mut norm_path: Vec<char> = subvec(&p, 0, fs);
    append_all(&mut norm_path, &stripped);
    assert(norm_path@ =~= normalized_path(p@));
    let norm: Vec<char> = extend_markers_exec(&norm_path);
    let mut r: Vec<String> = Vec::new();
    r.push(chars_string(&simple));
    if !chars_eq(&simple, &norm) {
        r.push(chars_string(&norm));
    }
    proof {
        assert(r@.map_values(|s: String| s@) =~= spec_candidates(base_url@));
    }
    r
}

/// A path's candidates are distinct: the collection is a set, one or
/// two members, and coinciding rewrites collapse to one.
pub proof fn lemma_candidates_distinct(p: Seq<char>)
    ensures
        1 <= spec_candidates(p).len() <= 2,
        forall|i: int, j: int|
            0 <= i < j < spec_candidates(p).len() ==> spec_candidates(p)[i] != spec_candidates(
                p,
            )[j],
{
}

/// Marker extension of a non-empty sequence is non-empty.
proof fn lemma_extend_markers_nonempty(s: Seq<char>)
    requires
        s.len() > 0,
    ensures
        extend_markers(s).len() > 0,
{
}

/// Marker extension never collides: two different paths extend to two
/// different strings, so the two candidates of a path coincide only
/// when normalization changed nothing.
pub proof fn lemma_extend_markers_injective(x: Seq<char>, y: Seq<char>)
    requires
        extend_markers(x) == extend_markers(y),
    ensures
        x == y,
    decreases x.len() + y.len(),
{
    if x.len() == 0 || y.len() == 0 {
        if x.len() == 0 && y.len() > 0 {
            lemma_extend_markers_nonempty(y);
            assert(false);
        }
        if y.len() == 0 && x.len() > 0 {
            lemma_extend_markers_nonempty(x);
            assert(false);
        }
        assert(x =~= y);
    } else if is_marker_at(x, 0) && is_marker_at(y, 0) {
        let ex = extend_markers(x.skip(4));
        let ey = extend_markers(y.skip(4));
        assert(extend_markers(x) == extended_marker() + ex);
        assert(extend_markers(y) == extended_marker() + ey);
        assert(extended_marker().len() == 7);
        assert(ex.len() == ey.len());
        assert forall|i: int| 0 <= i < ex.len() implies ex[i] == ey[i] by {
            assert((extended_marker() + ex)[i + 7] == ex[i]);
            assert((extended_marker() + ey)[i + 7] == ey[i]);
        }
        assert(ex =~= ey);
        lemma_extend_markers_injective(x.skip(4), y.skip(4));
        assert forall|i: int| 0 <= i < x.len() implies x[i] == y[i] by {
            if i >= 4 {
                assert(x.skip(4)[i - 4] == y.skip(4)[i - 4]);
            }
        }
        assert(x =~= y);
    } else if !is_marker_at(x, 0) && !is_marker_at(y, 0) {
        let ex = extend_markers(x.skip(1));
        let ey = extend_markers(y.skip(1));
        assert(extend_markers(x) == seq![x[0]] + ex);
        assert(extend_markers(y) == seq![y[0]] + ey);
        assert((seq![x[0]] + ex)[0] == x[0]);
        assert((seq![y[0]] + ey)[0] == y[0]);
        assert(ex.len() == ey.len());
        assert forall|i: int| 0 <= i < ex.len() implies ex[i] == ey[i] by {
            assert((seq![x[0]] + ex)[i + 1] == ex[i]);
            assert((seq![y[0]] + ey)[i + 1] == ey[i]);
        }
        assert(ex =~= ey);
        lemma_extend_markers_injective(x.skip(1), y.skip(1));
        assert forall|i: int| 0 <= i < x.len() implies x[i] == y[i] by {
            if i >= 1 {
                assert(x.skip(1)[i - 1] == y.skip(1)[i - 1]);
            }
        }
        assert(x =~= y);
    } else if is_marker_at(x, 0) && !is_marker_at(y, 0) {
        lemma_extend_mixed_differ(x, y);
    } else {
        lemma_extend_mixed_differ(y, x);
    }
}

/// The mixed case cannot collide: an extension starting with a
/// replaced marker never equals one starting with a literal character.
proof fn lemma_extend_mixed_differ(x: Seq<char>, y: Seq<char>)
    requires
        x.len() > 0,
        y.len() > 0,
        is_marker_at(x, 0),
        !is_marker_at(y, 0),
    ensures
        extend_markers(x) != extend_markers(y),
{
    if extend_markers(x) == extend_markers(y) {
        lemma_extend_mixed_core(x, y);
    }
}

/// Derives the impossibility behind `lemma_extend_mixed_differ`.
proof fn lemma_extend_mixed_core(x: Seq<char>, y: Seq<char>)
    requires
        x.len() > 0,
        y.len() > 0,
        is_marker_at(x, 0),
        !is_marker_at(y, 0),
        extend_markers(x) == extend_markers(y),
    ensures
        is_marker_at(y, 0),
{
    let e = extend_markers(x);
    assert(e.len() >= 7);
    assert(e[0] == '-' && e[1] == 'd' && e[2] == 'e' && e[3] == '-');
    // `y`'s first character is emitted literally, so it is `-`.
    assert(extend_markers(y)[0] == y[0]);
    assert(y[0] == '-');
    // The next output characters come from `y.skip(1)`.
    let y1 = y.skip(1);
    let e1 = extend_markers(y1);
    assert(e1.len() == e.len() - 1);
    assert(y1.len() > 0) by {
        if y1.len() == 0 {
            assert(e1.len() == 0);
        }
    }
    assert forall|i: int| 0 <= i < e1.len() implies e1[i] == e[i + 1] by {
        assert(extend_markers(y)[i + 1] == e1[i]);
    }
    if is_marker_at(y1, 0) {
        assert(e1[0] == '-');
        assert(e1[0] == e[1]);
        assert(false);
    }
    assert(extend_markers(y1)[0] == y1[0]);
    assert(y1[0] == 'd');
    assert(y[1] == 'd');
    let y2 = y1.skip(1);
    let e2 = extend_markers(y2);
    assert(e2.len() == e1.len() - 1);
    assert(y2.len() > 0) by {
        if y2.len() == 0 {
            assert(e2.len() == 0);
        }
    }
    assert forall|i: int| 0 <= i < e2.len() implies e2[i] == e[i + 2] by {
        assert(extend_markers(y1)[i + 1] == e2[i]);
    }
    if is_marker_at(y2, 0) {
        assert(e2[0] == '-');
        assert(e2[0] == e[2]);
        assert(false);
    }
    assert(extend_markers(y2)[0] == y2[0]);
    assert(y2[0] == y[2]);
    assert(y[2] == 'e');
    let y3 = y2.skip(1);
    let e3 = extend_markers(y3);
    assert(e3.len() == e2.len() - 1);
    assert(y3.len() > 0) by {
        if y3.len() == 0 {
            assert(e3.len() == 0);
        }
    }
    assert forall|i: int| 0 <= i < e3.len() implies e3[i] == e[i + 3] by {
        assert(extend_markers(y2)[i + 1] == e3[i]);
    }
    assert(y3 =~= y.skip(3));
    if is_marker_at(y3, 0) {
        // Then `-de-` stands at position 3 of `y`, whose char 3 is `-`,
        // which together with the first three makes a marker at 0.
        assert(y[3] == y3[0]);
        assert(y3[0] == '-');
        assert(is_marker_at(y, 0));
        assert(false);
    }
    assert(extend_markers(y3)[0] == y3[0]);
    assert(y3[0] == y[3]);
    assert(y[3] == '-');
    assert(is_marker_at(y, 0));
}

/// The exact condition under which the filename's cut is empty: at the
/// end of the title run there stands neither a hyphen nor a digit.
pub open spec fn cut_is_empty(t: Seq<char>) -> bool {
    let k = strip_start(t);
    k == t.len() || (t[k] != '-' && !is_digit(t[k]))
}

/// The filename either holds no marker, or its cut is empty: nothing
/// is stripped.
pub open spec fn nothing_to_strip(t: Seq<char>) -> bool {
    first_marker_from(t, 0) == t.len() || cut_is_empty(t)
}

proof fn lemma_no_cut_strip_identity(t: Seq<char>)
    requires
        nothing_to_strip(t),
    ensures
        strip_title(t) == t,
{
    lemma_first_marker_from(t, 0);
    if first_marker_from(t, 0) < t.len() {
        lemma_strip_bounds(t);
        assert(cut_is_empty(t));
        let k = strip_start(t);
        if k < t.len() {
            assert(t[k] != '-');
            assert(!is_digit(t[k]));
        }
        assert(dash_run_end(t, k) == k);
        assert(digit_run_end(t, k) == k);
        assert(strip_end(t) == k);
        assert(t.take(k) + t.skip(k) =~= t);
    }
}

/// A path whose filename has nothing to strip after the marker yields
/// exactly one candidate: the marker-extended input.
pub proof fn lemma_generate_single(p: Seq<char>)
    requires
        nothing_to_strip(p.skip(file_start(p))),
    ensures
        spec_candidates(p).len() == 1,
        spec_candidates(p)[0] == extend_markers(p),
{
    lemma_last_slash_end(p, p.len() as int);
    lemma_no_cut_strip_identity(p.skip(file_start(p)));
    assert(normalized_path(p) =~= p);
}

/// A path whose filename has a non-empty cut after the marker yields
/// exactly two candidates: the marker-extended input and the
/// marker-extended stripped path, which never coincide.
pub proof fn lemma_generate_pair(p: Seq<char>)
    requires
        first_marker_from(p.skip(file_start(p)), 0) < p.skip(file_start(p)).len(),
        strip_start(p.skip(file_start(p))) < strip_end(p.skip(file_start(p))),
    ensures
        spec_candidates(p).len() == 2,
        spec_candidates(p)[0] == extend_markers(p),
        spec_candidates(p)[1] == extend_markers(normalized_path(p)),
{
    let fs = file_start(p);
    let t = p.skip(fs);
    lemma_last_slash_end(p, p.len() as int);
    lemma_strip_bounds(t);
    let k = strip_start(t);
    let c = strip_end(t);
    assert(strip_title(t) == t.take(k) + t.skip(c));
    assert(t.take(k).len() == k);
    assert(t.skip(c).len() == t.len() - c);
    assert(strip_title(t).len() == t.len() - (c - k));
    assert(p.take(fs).len() == fs);
    assert(t.len() == p.len() - fs);
    assert(normalized_path(p).len() == p.len() - (c - k));
    if extend_markers(normalized_path(p)) == extend_markers(p) {
        lemma_extend_markers_injective(normalized_path(p), p);
        assert(false);
    }
}

/// Re-running the generator on the stripped path changes nothing: the
/// stripped path is its own sole candidate source, provided the glued
/// tail does not itself end a title run at a hyphen or digit.
#[verifier::rlimit(100)]
pub proof fn lemma_generate_idempotent(p: Seq<char>)
    requires
        ({
            let t = p.skip(file_start(p));
            let e2 = title_run_end(t, strip_end(t));
            first_marker_from(t, 0) == t.len() || e2 == t.len() || t[e2] == ','
        }),
    ensures
        normalized_path(normalized_path(p)) == normalized_path(p),
        spec_candidates(normalized_path(p)).len() == 1,
        spec_candidates(normalized_path(p))[0] == extend_markers(normalized_path(p)),
{
    let fs = file_start(p);
    let t = p.skip(fs);
    lemma_last_slash_end(p, p.len() as int);
    if first_marker_from(t, 0) == t.len() {
        // Nothing was stripped; the normalized path is the path itself.
        assert(normalized_path(p) =~= p);
        lemma_generate_single(p);
        assert(normalized_path(normalized_path(p)) =~= normalized_path(p));
    } else {
        lemma_first_marker_from(t, 0);
        lemma_strip_bounds(t);
        let m = first_marker_from(t, 0);
        let k = strip_start(t);
        let c = strip_end(t);
        let t2 = strip_title(t);
        let q = normalized_path(p);
        assert(t2 == t.take(k) + t.skip(c));
        // The stripped filename still holds no slash, so the file part
        // of `q` starts where it did in `p`.
        assert(forall|j: int| fs <= j < p.len() ==> p[j] != '/');
        assert forall|j: int| 0 <= j < t2.len() implies t2[j] != '/' by {
            if j < k {
                assert(t2[j] == t[j]);
            } else {
                assert(t2[j] == t[j - k + c]);
            }
        }
        assert(q.len() == fs + t2.len());
        assert(forall|j: int| 0 <= j < fs ==> #[trigger] q[j] == p[j]);
        assert(forall|j: int| fs <= j < q.len() ==> #[trigger] q[j] == t2[j - fs]);
        if fs > 0 {
            assert(p[fs - 1] == '/');
            assert(q[fs - 1] == '/');
        }
        lemma_last_slash_pin(q, fs, q.len() as int);
        assert(file_start(q) == fs);
        assert(q.skip(fs) =~= t2);
        // The first marker of the stripped filename is the old one.
        lemma_title_run_end(t, m + 4);
        assert(m + 4 <= k);
        assert forall|j: int| 0 <= j < m implies !is_marker_at(t2, j) by {
            if j + 4 <= t2.len() {
                assert(forall|l: int| j <= l < j + 4 ==> #[trigger] t2[l] == t[l]);
                if is_marker_at(t2, j) {
                    assert(is_marker_at(t, j));
                }
            }
        }
        assert(forall|l: int| m <= l < m + 4 ==> #[trigger] t2[l] == t[l]);
        assert(is_marker_at(t2, m));
        lemma_first_marker_pin(t2, m, 0);
        // The title run of the stripped filename runs to the old run's
        // end and on through the glued tail's title run.
        let e2 = title_run_end(t, c);
        lemma_title_run_end(t, c);
        let k2 = k + (e2 - c);
        assert forall|j: int| m + 4 <= j < k2 implies is_title_char(#[trigger] t2[j]) by {
            if j < k {
                assert(t2[j] == t[j]);
            } else {
                assert(t2[j] == t[j - k + c]);
            }
        }
        assert(k2 == t2.len() || !is_title_char(t2[k2])) by {
            if e2 < t.len() {
                assert(t2[k2] == t[e2]);
            }
        }
        lemma_title_run_pin(t2, m + 4, k2);
        assert(strip_start(t2) == k2);
        // At the run's end stands a comma or the end: the cut of the
        // stripped filename is empty.
        assert(cut_is_empty(t2)) by {
            if k2 < t2.len() {
                assert(t2[k2] == t[e2]);
                assert(t[e2] == ',');
            }
        }
        lemma_no_cut_strip_identity(t2);
        assert(normalized_path(q) == q.take(fs) + strip_title(q.skip(fs)));
        assert(q.take(fs) =~= p.take(fs));
        assert(normalized_path(q) =~= q);
        assert(spec_candidates(q) =~= seq![extend_markers(q)]);
    }
}

/// Pins the filename start of a path by its defining property.
proof fn lemma_last_slash_pin(q: Seq<char>, fs: int, i: int)
    requires
        0 <= fs <= i <= q.len(),
        fs > 0 ==> q[fs - 1] == '/',
        forall|j: int| fs <= j < q.len() ==> #[trigger] q[j] != '/',
    ensures
        last_slash_end(q, i) == fs,
    decreases i,
{
    if i > fs {
        lemma_last_slash_pin(q, fs, i - 1);
    }
}

/// Pins the first marker by its defining property.
proof fn lemma_first_marker_pin(s: Seq<char>, m: int, i: int)
    requires
        0 <= i <= m,
        m + 4 <= s.len(),
        is_marker_at(s, m),
        forall|j: int| 0 <= j < m ==> !(#[trigger] is_marker_at(s, j)),
    ensures
        first_marker_from(s, i) == m,
    decreases m - i,
{
    if i < m {
        lemma_first_marker_pin(s, m, i + 1);
    }
}

} // verus!
