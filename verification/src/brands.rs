//! Brand names: a product's brand attribute is lower-cased and its
//! spaces become hyphens; the normalized names are deduplicated and put
//! into ascending lexicographic order, so that repeated runs against an
//! unchanged feed try candidates in the same sequence.
use vstd::prelude::*;

use crate::chars::chars_string;
use crate::chars::str_chars;

verus! {

/// What `str::to_lowercase` returns on a string with these characters.
pub uninterp spec fn lower_of(s: Seq<char>) -> Seq<char>;

/// Relies on str::to_lowercase: the result depends on the characters
/// alone, and an empty string stays empty.
#[verifier::external_body]
fn lowercase(s: &str) -> (r: String)
    ensures
        r@ == lower_of(s@),
        s@.len() == 0 ==> r@.len() == 0,
{
    s.to_lowercase()
}

/// Every space replaced by a hyphen.
pub open spec fn hyphenate(s: Seq<char>) -> Seq<char> {
    s.map_values(|c: char| if c == ' ' { '-' } else { c })
}

/// A brand attribute in its normalized form: lower-cased, spaces turned
/// into hyphens.
pub open spec fn norm_brand(s: Seq<char>) -> Seq<char> {
    hyphenate(lower_of(s))
}

/// Normalizes one brand attribute.
pub fn normalize_brand(brand: &str) -> (r: String)
    ensures
        r@ == norm_brand(brand@),
{
    let low: String = lowercase(brand);
    let cs: Vec<char> = str_chars(low.as_str());
    let mut out: Vec<char> = Vec::new();
    let mut i: usize = 0;
    while i < cs.len()
        invariant
            i <= cs@.len(),
            out@ == hyphenate(cs@.take(i as int)),
        decreases cs@.len() - i,
    {
        if cs[i] == ' ' {
            out.push('-');
        } else {
            out.push(cs[i]);
        }
        i = i + 1;
        assert(out@ =~= hyphenate(cs@.take(i as int)));
    }
    proof {
        assert(cs@.take(cs@.len() as int) =~= cs@);
    }
    chars_string(&out)
}

/// Strict lexicographic order on character sequences, by code point.
pub open spec fn chars_lt(a: Seq<char>, b: Seq<char>) -> bool
    decreases a.len(),
{
    if b.len() == 0 {
        false
    } else if a.len() == 0 {
        true
    } else if (a[0] as u32) < (b[0] as u32) {
        true
    } else if (b[0] as u32) < (a[0] as u32) {
        false
    } else {
        chars_lt(a.skip(1), b.skip(1))
    }
}

/// Of two sequences, exactly one of `a < b`, `a == b`, `b < a` holds.
pub proof fn lemma_chars_lt_trichotomy(a: Seq<char>, b: Seq<char>)
    ensures
        chars_lt(a, b) || chars_lt(b, a) || a == b,
        chars_lt(a, b) ==> !chars_lt(b, a) && a != b,
        chars_lt(b, a) ==> !chars_lt(a, b) && a != b,
    decreases a.len(),
{
    if a.len() == 0 || b.len() == 0 {
        if a.len() == 0 && b.len() == 0 {
            assert(a =~= b);
        }
    } else if (a[0] as u32) < (b[0] as u32) || (b[0] as u32) < (a[0] as u32) {
        assert(a[0] != b[0]);
    } else {
        assert(a[0] as u32 == b[0] as u32);
        assert(a[0] == b[0]) by {
            vstd::utf8::char_u32_cast(a[0], a[0] as u32);
            vstd::utf8::char_u32_cast(b[0], b[0] as u32);
        }
        lemma_chars_lt_trichotomy(a.skip(1), b.skip(1));
        if a.skip(1) == b.skip(1) {
            assert(a.len() == b.len());
            assert forall|i: int| 0 <= i < a.len() implies a[i] == b[i] by {
                if i > 0 {
                    assert(a.skip(1)[i - 1] == b.skip(1)[i - 1]);
                }
            }
            assert(a =~= b);
        }
    }
}

/// Lexicographic order is transitive.
pub proof fn lemma_chars_lt_trans(a: Seq<char>, b: Seq<char>, c: Seq<char>)
    requires
        chars_lt(a, b),
        chars_lt(b, c),
    ensures
        chars_lt(a, c),
    decreases a.len(),
{
    if a.len() == 0 {
    } else if b.len() == 0 {
    } else if c.len() == 0 {
    } else {
        if (a[0] as u32) < (b[0] as u32) {
        } else if (b[0] as u32) < (c[0] as u32) {
        } else {
            lemma_chars_lt_trans(a.skip(1), b.skip(1), c.skip(1));
        }
    }
}

/// Compares two strings in lexicographic order, by code point.
pub fn str_lt(a: &str, b: &str) -> (r: bool)
    ensures
        r == chars_lt(a@, b@),
{
    let na: usize = a.unicode_len();
    let nb: usize = b.unicode_len();
    let mut i: usize = 0;
    proof {
        assert(a@.skip(0) =~= a@);
        assert(b@.skip(0) =~= b@);
    }
    loop
        invariant
            i <= na,
            i <= nb,
            na == a@.len(),
            nb == b@.len(),
            chars_lt(a@, b@) == chars_lt(a@.skip(i as int), b@.skip(i as int)),
        decreases na - i,
    {
        let ghost ta = a@.skip(i as int);
        let ghost tb = b@.skip(i as int);
        if i == nb {
            assert(tb.len() == 0);
            return false;
        }
        if i == na {
            assert(ta.len() == 0 && tb.len() > 0);
            return true;
        }
        let ca: u32 = a.get_char(i) as u32;
        let cb: u32 = b.get_char(i) as u32;
        if ca < cb {
            return true;
        }
        if cb < ca {
            return false;
        }
        i = i + 1;
        proof {
            assert(ta.skip(1) =~= a@.skip(i as int));
            assert(tb.skip(1) =~= b@.skip(i as int));
        }
    }
}

/// `x` is the normalized form of one of the first `n` brand attributes.
pub open spec fn is_norm_of(x: Seq<char>, raws: Seq<String>, n: int) -> bool {
    exists|k: int| 0 <= k < n && x == norm_brand(#[trigger] raws[k]@)
}

/// Some entry of `r` holds exactly the characters `x`.
pub open spec fn list_has(r: Seq<String>, x: Seq<char>) -> bool {
    exists|i: int| 0 <= i < r.len() && (#[trigger] r[i])@ == x
}

/// The normalized forms of `raws`, deduplicated and in strictly
/// ascending lexicographic order.
pub fn brand_list(raws: &Vec<String>) -> (r: Vec<String>)
    ensures
        forall|i: int, j: int| 0 <= i < j < r@.len() ==> chars_lt(r@[i]@, r@[j]@),
        forall|i: int| 0 <= i < r@.len() ==> is_norm_of((#[trigger] r@[i])@, raws@, raws@.len() as int),
        forall|k: int| 0 <= k < raws@.len() ==> list_has(r@, norm_brand((#[trigger] raws@[k])@)),
{
    let mut r: Vec<String> = Vec::new();
    let mut k: usize = 0;
    while k < raws.len()
        invariant
            k <= raws@.len(),
            forall|i: int, j: int| 0 <= i < j < r@.len() ==> chars_lt(r@[i]@, r@[j]@),
            forall|i: int| 0 <= i < r@.len() ==> is_norm_of((#[trigger] r@[i])@, raws@, k as int),
            forall|k2: int| 0 <= k2 < k ==> list_has(r@, norm_brand((#[trigger] raws@[k2])@)),
        decreases raws@.len() - k,
    {
        let ghost pre = r@;
        let norm: String = normalize_brand(raws[k].as_str());
        insert_unique_sorted(&mut r, norm);
        proof {
            assert forall|i: int| 0 <= i < r@.len() implies is_norm_of(
                (#[trigger] r@[i])@,
                raws@,
                k + 1,
            ) by {
                if r@[i]@ == norm@ {
                    assert(norm@ == norm_brand(raws@[k as int]@));
                } else {
                    assert(list_has(pre, r@[i]@));
                    let j = choose|j: int| 0 <= j < pre.len() && (#[trigger] pre[j])@ == r@[i]@;
                    assert(is_norm_of(pre[j]@, raws@, k as int));
                }
            }
            assert forall|k2: int| 0 <= k2 <= k implies list_has(
                r@,
                norm_brand((#[trigger] raws@[k2])@),
            ) by {
                if k2 < k {
                    assert(list_has(pre, norm_brand(raws@[k2]@)));
                    let i = choose|i: int|
                        0 <= i < pre.len() && (#[trigger] pre[i])@ == norm_brand(raws@[k2]@);
                    assert(list_has(r@, (pre[i])@));
                } else {
                    assert(list_has(r@, norm@));
                }
            }
        }
        k = k + 1;
    }
    r
}

/// Inserts `s` into the sorted vector `v` at its place, unless an equal
/// entry already stands there.
fn insert_unique_sorted(v: &mut Vec<String>, s: String)
    requires
        forall|i: int, j: int| 0 <= i < j < old(v)@.len() ==> chars_lt(old(v)@[i]@, old(v)@[j]@),
    ensures
        forall|i: int, j: int| 0 <= i < j < final(v)@.len() ==> chars_lt(
            final(v)@[i]@,
            final(v)@[j]@,
        ),
        forall|i: int|
            0 <= i < final(v)@.len() ==> (#[trigger] final(v)@[i])@ == s@ || list_has(
                old(v)@,
                final(v)@[i]@,
            ),
        forall|j: int| 0 <= j < old(v)@.len() ==> list_has(final(v)@, (#[trigger] old(v)@[j])@),
        list_has(final(v)@, s@),
{
    let n: usize = v.len();
    let mut pos: usize = 0;
    while pos < n && str_lt(v[pos].as_str(), s.as_str())
        invariant
            pos <= n,
            n == v@.len(),
            v@ == old(v)@,
            forall|i: int| 0 <= i < pos ==> chars_lt(#[trigger] v@[i]@, s@),
        decreases n - pos,
    {
        pos = pos + 1;
    }
    if pos < n {
        let same: bool = !str_lt(s.as_str(), v[pos].as_str());
        proof {
            lemma_chars_lt_trichotomy(s@, v@[pos as int]@);
        }
        if same {
            assert(v@[pos as int]@ == s@);
            assert(list_has(v@, s@));
            assert forall|j: int| 0 <= j < v@.len() implies list_has(
                v@,
                (#[trigger] v@[j])@,
            ) by {
                assert((v@[j])@ == (v@[j])@);
            }
            assert forall|i: int| 0 <= i < v@.len() implies (#[trigger] v@[i])@ == s@ || list_has(
                v@,
                v@[i]@,
            ) by {
                assert((v@[i])@ == (v@[i])@);
            }
            return;
        }
    }
    proof {
        assert forall|m: int| pos <= m < old(v)@.len() implies chars_lt(s@, old(v)@[m]@) by {
            if m > pos {
                lemma_chars_lt_trans(s@, old(v)@[pos as int]@, old(v)@[m]@);
            }
        }
    }
    v.insert(pos, s);
    proof {
        assert(forall|i: int| 0 <= i < pos ==> #[trigger] v@[i] == old(v)@[i]);
        assert(v@[pos as int] == s);
        assert(forall|i: int| pos < i < v@.len() ==> #[trigger] v@[i] == old(v)@[i - 1]);
        assert(list_has(v@, s@));
        assert forall|j: int| 0 <= j < old(v)@.len() implies list_has(
            v@,
            (#[trigger] old(v)@[j])@,
        ) by {
            if j < pos {
                assert((v@[j])@ == old(v)@[j]@);
            } else {
                assert((v@[j + 1])@ == old(v)@[j]@);
            }
        }
        assert forall|i: int| 0 <= i < v@.len() implies (#[trigger] v@[i])@ == s@ || list_has(
            old(v)@,
            v@[i]@,
        ) by {
            if i < pos {
                assert((old(v)@[i])@ == v@[i]@);
            } else if i > pos {
                assert((old(v)@[i - 1])@ == v@[i]@);
            }
        }
        assert forall|i: int, j: int| 0 <= i < j < v@.len() implies chars_lt(v@[i]@, v@[j]@) by {
            if i < pos && j == pos {
                assert(chars_lt(old(v)@[i]@, s@));
            } else if i < pos && j > pos {
                assert(chars_lt(old(v)@[i]@, s@));
                assert(chars_lt(s@, old(v)@[j - 1]@));
                lemma_chars_lt_trans(v@[i]@, s@, v@[j]@);
            } else if i == pos && j > pos {
                assert(chars_lt(s@, old(v)@[j - 1]@));
            }
        }
    }
}

} // verus!
