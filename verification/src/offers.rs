//! The discounted-offers listing: product records, their feature lookup,
//! and the filter-and-sort of discounted whiskeys. Prices are held in
//! euro cents, so discount arithmetic is exact.
use vstd::prelude::*;

use crate::chars::str_eq;
use vstd::string::StringExecFns;

verus! {

/// The value of one product feature.
pub struct WhiskeyFeatureValue {
    pub description: String,
}

/// One product feature: an alias naming it, a human-readable
/// description, and its value.
pub struct WhiskeyFeature {
    pub alias: String,
    pub description: String,
    pub value: WhiskeyFeatureValue,
}

/// One product of the feed. Prices are in euro cents; a sale price of
/// zero means the product is not on sale.
pub struct Whiskey {
    pub availability: String,
    pub alias: String,
    pub description: String,
    pub price_cents: u32,
    pub sale_price_cents: u32,
    pub features: Vec<WhiskeyFeature>,
}

/// The value description of the first feature whose alias is `alias`.
pub open spec fn spec_feature_by_alias(fs: Seq<WhiskeyFeature>, alias: Seq<char>) -> Option<
    Seq<char>,
>
    decreases fs.len(),
{
    if fs.len() == 0 {
        None
    } else if fs[0].alias@ == alias {
        Some(fs[0].value.description@)
    } else {
        spec_feature_by_alias(fs.skip(1), alias)
    }
}

/// The value description of the first feature whose description is `d`.
pub open spec fn spec_feature_by_description(fs: Seq<WhiskeyFeature>, d: Seq<char>) -> Option<
    Seq<char>,
>
    decreases fs.len(),
{
    if fs.len() == 0 {
        None
    } else if fs[0].description@ == d {
        Some(fs[0].value.description@)
    } else {
        spec_feature_by_description(fs.skip(1), d)
    }
}

/// The discount in cents: price minus sale price while on sale, else 0.
pub open spec fn spec_discount(w: Whiskey) -> int {
    if w.sale_price_cents > 0 {
        w.price_cents - w.sale_price_cents
    } else {
        0
    }
}

/// The effective price in cents: the sale price while on sale.
pub open spec fn spec_price(w: Whiskey) -> int {
    if w.sale_price_cents > 0 {
        w.sale_price_cents as int
    } else {
        w.price_cents as int
    }
}

/// A whiskey kept by the offers filter: discounted by at least
/// `min_discount` euros and priced (by its list price) at most
/// `max_price` euros.
pub open spec fn keeps(w: Whiskey, max_price: u16, min_discount: u16) -> bool {
    &&& spec_discount(w) >= min_discount * 100
    &&& w.price_cents <= max_price * 100
}

impl Whiskey {
    /// The value of the first feature with the given alias.
    pub fn feature(&self, alias: &str) -> (r: Option<String>)
        ensures
            match r {
                Some(s) => spec_feature_by_alias(self.features@, alias@) == Some(s@),
                None => spec_feature_by_alias(self.features@, alias@) is None,
            },
    {
        let n: usize = self.features.len();
        let mut i: usize = 0;
        proof {
            assert(self.features@.skip(0) =~= self.features@);
        }
        while i < n
            invariant
                i <= n,
                n == self.features@.len(),
                spec_feature_by_alias(self.features@, alias@) == spec_feature_by_alias(
                    self.features@.skip(i as int),
                    alias@,
                ),
            decreases n - i,
        {
            let ghost tail = self.features@.skip(i as int);
            if str_eq(self.features[i].alias.as_str(), alias) {
                assert(tail[0] == self.features@[i as int]);
                return Some(self.features[i].value.description.clone());
            }
            i = i + 1;
            proof {
                assert(tail[0] == self.features@[i - 1]);
                assert(tail.skip(1) =~= self.features@.skip(i as int));
            }
        }
        None
    }

    /// The product's country feature.
    pub fn country(&self) -> (r: Option<String>)
        ensures
            match r {
                Some(s) => spec_feature_by_alias(self.features@, "land"@) == Some(s@),
                None => spec_feature_by_alias(self.features@, "land"@) is None,
            },
    {
        self.feature("land")
    }

    /// The product's category feature.
    pub fn categorie(&self) -> (r: Option<String>)
        ensures
            match r {
                Some(s) => spec_feature_by_alias(self.features@, "categorie"@) == Some(s@),
                None => spec_feature_by_alias(self.features@, "categorie"@) is None,
            },
    {
        self.feature("categorie")
    }

    /// The product's brand feature.
    pub fn brand(&self) -> (r: Option<String>)
        ensures
            match r {
                Some(s) => spec_feature_by_alias(self.features@, "merk"@) == Some(s@),
                None => spec_feature_by_alias(self.features@, "merk"@) is None,
            },
    {
        self.feature("merk")
    }

    /// The alcohol percentage: the first feature described as
    /// `Alcoholpercentage`.
    pub fn percentage(&self) -> (r: Option<String>)
        ensures
            match r {
                Some(s) => spec_feature_by_description(self.features@, "Alcoholpercentage"@)
                    == Some(s@),
                None => spec_feature_by_description(self.features@, "Alcoholpercentage"@) is None,
            },
    {
        let n: usize = self.features.len();
        let mut i: usize = 0;
        proof {
            assert(self.features@.skip(0) =~= self.features@);
        }
        while i < n
            invariant
                i <= n,
                n == self.features@.len(),
                spec_feature_by_description(self.features@, "Alcoholpercentage"@)
                    == spec_feature_by_description(
                    self.features@.skip(i as int),
                    "Alcoholpercentage"@,
                ),
            decreases n - i,
        {
            let ghost tail = self.features@.skip(i as int);
            if str_eq(self.features[i].description.as_str(), "Alcoholpercentage") {
                assert(tail[0] == self.features@[i as int]);
                return Some(self.features[i].value.description.clone());
            }
            i = i + 1;
            proof {
                assert(tail[0] == self.features@[i - 1]);
                assert(tail.skip(1) =~= self.features@.skip(i as int));
            }
        }
        None
    }

    /// The discount in cents.
    pub fn discount(&self) -> (r: i64)
        ensures
            r == spec_discount(*self),
    {
        if self.sale_price_cents > 0 {
            self.price_cents as i64 - self.sale_price_cents as i64
        } else {
            0
        }
    }

    /// The effective price in cents.
    pub fn price(&self) -> (r: u32)
        ensures
            r == spec_price(*self),
    {
        if self.sale_price_cents > 0 {
            self.sale_price_cents
        } else {
            self.price_cents
        }
    }

    /// The product's shop page address.
    pub fn url(&self) -> (r: String)
        ensures
            r@ == "https://drankdozijn.de/artikel/"@ + self.alias@,
    {
        let mut s: String = String::from_str("https://drankdozijn.de/artikel/");
        s.append(self.alias.as_str());
        s
    }
}

/// The whiskeys that meet the price and discount thresholds, in
/// descending order of discount.
pub fn select_offers(whiskeys: Vec<Whiskey>, price: u16, discount: u16) -> (r: Vec<Whiskey>)
    ensures
        r@.to_multiset() == whiskeys@.filter(|w: Whiskey| keeps(w, price, discount)).to_multiset(),
        forall|i: int, j: int|
            0 <= i < j < r@.len() ==> spec_discount(r@[i]) >= spec_discount(r@[j]),
{
    broadcast use vstd::seq_lib::group_to_multiset_ensures;

    let ghost orig = whiskeys@;
    let ghost pred = |w: Whiskey| keeps(w, price, discount);
    let min_discount_cents: i64 = discount as i64 * 100;
    let max_price_cents: u32 = price as u32 * 100;
    let mut rest: Vec<Whiskey> = whiskeys;
    let mut kept: Vec<Whiskey> = Vec::new();
    let ghost done: int = 0;
    proof {
        assert(orig.take(0).filter(pred) =~= Seq::<Whiskey>::empty());
        assert(orig.skip(0) =~= orig);
    }
    while rest.len() > 0
        invariant
            0 <= done <= orig.len(),
            rest@ == orig.skip(done),
            pred == (|w: Whiskey| keeps(w, price, discount)),
            min_discount_cents == discount * 100,
            max_price_cents == price * 100,
            kept@ == orig.take(done).filter(pred),
        decreases rest@.len(),
    {
        let ghost pre = orig.take(done);
        let w: Whiskey = rest.remove(0);
        assert(w == orig[done]);
        let keep: bool = w.discount() >= min_discount_cents && w.price_cents <= max_price_cents;
        assert(keep == pred(orig[done]));
        if keep {
            kept.push(w);
        }
        proof {
            let x = orig[done];
            done = done + 1;
            assert(rest@ =~= orig.skip(done));
            assert(orig.take(done) =~= pre + seq![x]);
            Seq::filter_distributes_over_add(pre, seq![x], pred);
            reveal_with_fuel(Seq::filter, 3);
            assert(seq![x].drop_last() =~= Seq::<Whiskey>::empty());
            if pred(x) {
                assert(seq![x].filter(pred) =~= seq![x]);
            } else {
                assert(seq![x].filter(pred) =~= Seq::<Whiskey>::empty());
            }
            assert(kept@ =~= orig.take(done).filter(pred));
        }
    }
    proof {
        assert(orig.take(done) =~= orig);
    }
    let ghost kept_all = kept@;
    let mut out: Vec<Whiskey> = Vec::new();
    let ghost sorted_done: int = 0;
    proof {
        assert(kept_all.take(0) =~= Seq::<Whiskey>::empty());
        assert(out@.to_multiset() =~= kept_all.take(0).to_multiset());
        assert(kept@ =~= kept_all.skip(0));
    }
    while kept.len() > 0
        invariant
            0 <= sorted_done <= kept_all.len(),
            kept@ == kept_all.skip(sorted_done),
            out@.to_multiset() == kept_all.take(sorted_done).to_multiset(),
            forall|i2: int, j2: int|
                0 <= i2 < j2 < out@.len() ==> spec_discount(out@[i2]) >= spec_discount(out@[j2]),
        decreases kept@.len(),
    {
        let w: Whiskey = kept.remove(0);
        assert(w == kept_all[sorted_done]);
        let wd: i64 = w.discount();
        let mut pos: usize = 0;
        while pos < out.len() && out[pos].discount() >= wd
            invariant
                pos <= out@.len(),
                wd == spec_discount(w),
                forall|i2: int|
                    0 <= i2 < pos ==> spec_discount(#[trigger] out@[i2]) >= spec_discount(w),
            decreases out@.len() - pos,
        {
            pos = pos + 1;
        }
        let ghost pre_out = out@;
        let ghost cut = pos as int;
        out.insert(pos, w);
        proof {
            sorted_done = sorted_done + 1;
            assert(kept@ =~= kept_all.skip(sorted_done));
            assert(kept_all.take(sorted_done) =~= kept_all.take(sorted_done - 1).push(
                kept_all[sorted_done - 1],
            ));
            vstd::seq_lib::to_multiset_insert::<Whiskey>(pre_out, cut, w);
            vstd::seq_lib::to_multiset_build::<Whiskey>(
                kept_all.take(sorted_done - 1),
                kept_all[sorted_done - 1],
            );
            assert(out@.to_multiset() == kept_all.take(sorted_done).to_multiset());
            assert(forall|i2: int| 0 <= i2 < cut ==> #[trigger] out@[i2] == pre_out[i2]);
            assert(out@[cut] == w);
            assert(forall|i2: int| cut < i2 < out@.len() ==> #[trigger] out@[i2] == pre_out[i2 - 1]);
            assert forall|i2: int, j2: int| 0 <= i2 < j2 < out@.len() implies spec_discount(
                out@[i2],
            ) >= spec_discount(out@[j2]) by {
                if cut < pre_out.len() {
                    assert(spec_discount(pre_out[cut]) < spec_discount(w));
                }
            }
        }
    }
    proof {
        assert(kept_all.take(sorted_done) =~= kept_all);
    }
    out
}

} // verus!
