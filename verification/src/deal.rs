//! The banner discovery orchestrator, as a state machine. The search
//! runs in two phases: every known banner's candidate URLs in feed
//! order, then — unless an early stop ended the run — the brand names of
//! the product feed substituted into the template derived from the first
//! banner. The network probing itself is outside work: a driver asks for
//! the next URL to probe, reports each probe's outcome, and hands in the
//! brand attributes when the machine asks for them.
use vstd::prelude::*;

use crate::brands::brand_list;
use crate::brands::chars_lt;
use crate::brands::is_norm_of;
use crate::brands::list_has;
use crate::brands::norm_brand;
use crate::candidates::candidates;
use crate::candidates::spec_candidates;
use crate::template::derive_template;
use crate::template::subst_placeholder;
use crate::template::substitute;
use crate::template::template_spec;
use vstd::string::StringExecFns;

verus! {

/// One promotional banner of the home feed, known by its image path.
pub struct Banner {
    pub imgsrc: String,
}

/// The home feed: the ordered banners of the storefront's grid.
pub struct HomeResponse {
    pub banners: Vec<Banner>,
}

/// Why a discovery run could not start.
pub enum DiscoveryError {
    EmptyFeed,
}

/// Where the search stands.
pub enum Phase {
    /// Probing the candidate URLs of the known banners.
    Banners,
    /// The banner sweep is over; the brand attributes are needed.
    AwaitingBrands,
    /// Probing the candidate URLs built from brand names.
    Brands,
    /// The run is over.
    Done,
}

/// The views of a sequence of strings.
pub open spec fn views_of(v: Seq<String>) -> Seq<Seq<char>> {
    v.map_values(|s: String| s@)
}

/// The asset host prefix every candidate path is appended to.
pub open spec fn cdn_prefix() -> Seq<char> {
    "https://res.cloudinary.com/boozeboodcdn/image/upload/"@
}

/// The fully-qualified probe URLs of one path's candidates.
pub open spec fn candidate_urls(path: Seq<char>) -> Seq<Seq<char>> {
    spec_candidates(path).map_values(|c: Seq<char>| cdn_prefix() + c)
}

/// The probe queue of a whole phase: each path's candidate URLs, in
/// order.
pub open spec fn phase_urls(paths: Seq<Seq<char>>) -> Seq<Seq<char>>
    decreases paths.len(),
{
    if paths.len() == 0 {
        Seq::empty()
    } else {
        candidate_urls(paths[0]) + phase_urls(paths.skip(1))
    }
}

pub proof fn lemma_phase_urls_add(a: Seq<Seq<char>>, b: Seq<Seq<char>>)
    ensures
        phase_urls(a + b) == phase_urls(a) + phase_urls(b),
    decreases a.len(),
{
    if a.len() == 0 {
        assert(a + b =~= b);
        assert(phase_urls(a) + phase_urls(b) =~= phase_urls(b));
    } else {
        assert((a + b).skip(1) =~= a.skip(1) + b);
        lemma_phase_urls_add(a.skip(1), b);
        assert(phase_urls(a + b) =~= phase_urls(a) + phase_urls(b));
    }
}

/// The image paths of a feed's banners.
pub open spec fn banner_paths(home: HomeResponse) -> Seq<Seq<char>> {
    home.banners@.map_values(|b: Banner| b.imgsrc@)
}

/// The template the run probes with: the derived one, or the sample
/// path itself when it does not have the template shape.
pub open spec fn effective_template(sample: Seq<char>) -> Seq<char> {
    match template_spec(sample) {
        Some(t) => t,
        None => sample,
    }
}

/// One discovery run's state.
pub struct Discovery {
    /// Stop at the first successful probe, or sweep everything.
    pub stop_when_found: bool,
    /// The probe template for the brand sweep.
    pub template: String,
    /// Whether the first banner's path had the template shape; when it
    /// did not, the template is that path unchanged and the brand sweep
    /// cannot plausibly succeed.
    pub template_matched: bool,
    /// The normalized, deduplicated, sorted brand names of the brand
    /// sweep; empty until the machine is handed the product feed.
    pub brands: Vec<String>,
    /// The probe queue of the current phase.
    pub urls: Vec<String>,
    /// How many of the queue's URLs have been probed.
    pub idx: usize,
    /// Where the search stands.
    pub phase: Phase,
    /// Whether any probe succeeded so far.
    pub found: bool,
}

impl Discovery {
    /// The state is consistent: the cursor sits inside the queue.
    pub open spec fn wf(self) -> bool {
        self.idx <= self.urls@.len()
    }

    /// A probe is outstanding.
    pub open spec fn active(self) -> bool {
        &&& self.phase is Banners || self.phase is Brands
        &&& self.idx < self.urls@.len()
    }
}

/// What one recorded probe outcome does to the state: an early stop
/// ends the run at once; otherwise the cursor moves on, and an
/// exhausted queue ends the phase.
pub open spec fn step_spec(d: Discovery, success: bool) -> Discovery {
    if d.stop_when_found && success {
        Discovery { phase: Phase::Done, found: true, ..d }
    } else {
        let idx2 = (d.idx + 1) as usize;
        let found2 = d.found || success;
        if idx2 == d.urls@.len() {
            match d.phase {
                Phase::Banners => Discovery {
                    idx: idx2,
                    found: found2,
                    phase: Phase::AwaitingBrands,
                    ..d
                },
                _ => Discovery { idx: idx2, found: found2, phase: Phase::Done, ..d },
            }
        } else {
            Discovery { idx: idx2, found: found2, ..d }
        }
    }
}

/// Builds the probe queue for a list of paths: each path's candidates,
/// each behind the asset host prefix.
fn build_urls(paths: &Vec<String>) -> (r: Vec<String>)
    ensures
        views_of(r@) == phase_urls(views_of(paths@)),
{
    let mut r: Vec<String> = Vec::new();
    let mut i: usize = 0;
    proof {
        assert(views_of(paths@).take(0) =~= Seq::<Seq<char>>::empty());
        assert(views_of(r@) =~= phase_urls(views_of(paths@).take(0)));
    }
    while i < paths.len()
        invariant
            i <= paths@.len(),
            views_of(r@) == phase_urls(views_of(paths@).take(i as int)),
        decreases paths@.len() - i,
    {
        let ghost pre = views_of(r@);
        let cands: Vec<String> = candidates(paths[i].as_str());
        let mut j: usize = 0;
        proof {
            assert(candidate_urls(paths@[i as int]@).take(0) =~= Seq::<Seq<char>>::empty());
            assert(views_of(r@) =~= pre + candidate_urls(paths@[i as int]@).take(0));
        }
        while j < cands.len()
            invariant
                j <= cands@.len(),
                views_of(cands@) == spec_candidates(paths@[i as int]@),
                views_of(r@) == pre + candidate_urls(paths@[i as int]@).take(j as int),
            decreases cands@.len() - j,
        {
            let ghost r_pre = r@;
            let mut url: String = String::from_str(
                "https://res.cloudinary.com/boozeboodcdn/image/upload/",
            );
            url.append(cands[j].as_str());
            assert(url@ == cdn_prefix() + cands@[j as int]@);
            r.push(url);
            j = j + 1;
            proof {
                let path = paths@[i as int]@;
                let cu = candidate_urls(path);
                assert(views_of(r@) =~= views_of(r_pre) + seq![url@]);
                assert(views_of(cands@)[j - 1] == cands@[j - 1]@);
                assert(cu[j - 1] == cdn_prefix() + spec_candidates(path)[j - 1]);
                assert(cu[j - 1] == url@);
                assert(cu.take(j as int) =~= cu.take(j - 1) + seq![cu[j - 1]]);
                assert(views_of(r@) =~= pre + cu.take(j as int));
            }
        }
        i = i + 1;
        proof {
            let ghost pv = views_of(paths@);
            assert(candidate_urls(pv[i - 1]).take(cands@.len() as int) =~= candidate_urls(
                pv[i - 1],
            ));
            assert(pv.take(i as int) =~= pv.take(i - 1) + seq![pv[i - 1]]);
            lemma_phase_urls_add(pv.take(i - 1), seq![pv[i - 1]]);
            assert(seq![pv[i - 1]].skip(1) =~= Seq::<Seq<char>>::empty());
            assert(phase_urls(Seq::<Seq<char>>::empty()) =~= Seq::<Seq<char>>::empty());
            assert(phase_urls(seq![pv[i - 1]]) =~= candidate_urls(pv[i - 1]));
            assert(views_of(r@) =~= phase_urls(pv.take(i as int)));
        }
    }
    proof {
        assert(views_of(paths@).take(paths@.len() as int) =~= views_of(paths@));
    }
    r
}

impl Discovery {
    /// Starts a run from the home feed. A feed with no banner is the
    /// one fatal precondition: nothing is probed and the run aborts.
    pub fn new(home: &HomeResponse, stop_when_found: bool) -> (r: Result<Discovery, DiscoveryError>)
        ensures
            home.banners@.len() == 0 <==> r is Err,
            r is Err ==> r->Err_0 is EmptyFeed,
            r is Ok ==> ({
                let d = r->Ok_0;
                &&& d.wf()
                &&& d.stop_when_found == stop_when_found
                &&& d.template@ == effective_template(home.banners@[0].imgsrc@)
                &&& d.template_matched == (template_spec(home.banners@[0].imgsrc@) is Some)
                &&& views_of(d.urls@) == phase_urls(banner_paths(*home))
                &&& d.idx == 0
                &&& d.phase is Banners
                &&& !d.found
            }),
    {
        if home.banners.len() == 0 {
            return Err(DiscoveryError::EmptyFeed);
        }
        let sample: &String = &home.banners[0].imgsrc;
        let (template, template_matched): (String, bool) = match derive_template(sample.as_str()) {
            Some(t) => (t, true),
            None => (sample.clone(), false),
        };
        let mut paths: Vec<String> = Vec::new();
        let mut i: usize = 0;
        proof {
            assert(views_of(paths@) =~= banner_paths(*home).take(0));
        }
        while i < home.banners.len()
            invariant
                i <= home.banners@.len(),
                views_of(paths@) == banner_paths(*home).take(i as int),
            decreases home.banners@.len() - i,
        {
            let ghost pre = paths@;
            paths.push(home.banners[i].imgsrc.clone());
            i = i + 1;
            proof {
                let bp = banner_paths(*home);
                assert(views_of(paths@) =~= views_of(pre) + seq![home.banners@[i - 1].imgsrc@]);
                assert(bp[i - 1] == home.banners@[i - 1].imgsrc@);
                assert(bp.take(i as int) =~= bp.take(i - 1) + seq![bp[i - 1]]);
                assert(views_of(paths@) =~= bp.take(i as int));
            }
        }
        proof {
            assert(banner_paths(*home).take(home.banners@.len() as int) =~= banner_paths(*home));
        }
        let urls: Vec<String> = build_urls(&paths);
        Ok(
            Discovery {
                stop_when_found,
                template,
                template_matched,
                brands: Vec::new(),
                urls,
                idx: 0,
                phase: Phase::Banners,
                found: false,
            },
        )
    }

    /// The next URL to probe, or nothing while no probe is outstanding.
    pub fn next_probe(&self) -> (r: Option<String>)
        ensures
            r is Some <==> self.active(),
            r is Some ==> r->Some_0@ == self.urls@[self.idx as int]@,
    {
        match self.phase {
            Phase::Banners => {},
            Phase::Brands => {},
            _ => { return None },
        }
        if self.idx < self.urls.len() {
            Some(self.urls[self.idx].clone())
        } else {
            None
        }
    }

    /// Records the outcome of the outstanding probe and moves the
    /// machine on. Under early stop a success ends the whole run at
    /// once, so no brand fetch can follow it.
    pub fn record_probe(&mut self, success: bool)
        requires
            old(self).wf(),
            old(self).active(),
        ensures
            *final(self) == step_spec(*old(self), success),
            final(self).wf(),
            old(self).stop_when_found && success ==> final(self).phase is Done,
    {
        if self.stop_when_found && success {
            self.phase = Phase::Done;
            self.found = true;
            return;
        }
        let n: usize = self.urls.len();
        self.idx = self.idx + 1;
        self.found = self.found || success;
        if self.idx == n {
            match self.phase {
                Phase::Banners => { self.phase = Phase::AwaitingBrands },
                _ => { self.phase = Phase::Done },
            }
        }
    }

    /// Whether the machine waits for the product feed's brand
    /// attributes.
    pub fn needs_brands(&self) -> (r: bool)
        ensures
            r == (self.phase is AwaitingBrands),
    {
        match self.phase {
            Phase::AwaitingBrands => true,
            _ => false,
        }
    }

    /// Whether the run is over.
    pub fn finished(&self) -> (r: bool)
        ensures
            r == (self.phase is Done),
    {
        match self.phase {
            Phase::Done => true,
            _ => false,
        }
    }

    /// Hands the machine the product feed's raw brand attributes. They
    /// are normalized, deduplicated and sorted, substituted into the
    /// template, and their candidate URLs become the new probe queue.
    /// An empty queue ends the run at once.
    pub fn supply_brands(&mut self, raw_brands: &Vec<String>)
        requires
            old(self).wf(),
            old(self).phase is AwaitingBrands,
        ensures
            final(self).wf(),
            final(self).stop_when_found == old(self).stop_when_found,
            final(self).template == old(self).template,
            final(self).template_matched == old(self).template_matched,
            final(self).found == old(self).found,
            final(self).idx == 0,
            views_of(final(self).urls@) == phase_urls(
                views_of(final(self).brands@).map_values(
                    |b: Seq<char>| subst_placeholder(old(self).template@, b),
                ),
            ),
            forall|i: int, j: int|
                0 <= i < j < final(self).brands@.len() ==> chars_lt(
                    final(self).brands@[i]@,
                    final(self).brands@[j]@,
                ),
            forall|i: int|
                0 <= i < final(self).brands@.len() ==> is_norm_of(
                    (#[trigger] final(self).brands@[i])@,
                    raw_brands@,
                    raw_brands@.len() as int,
                ),
            forall|k: int|
                0 <= k < raw_brands@.len() ==> list_has(
                    final(self).brands@,
                    norm_brand((#[trigger] raw_brands@[k])@),
                ),
            final(self).urls@.len() == 0 ==> final(self).phase is Done,
            final(self).urls@.len() > 0 ==> final(self).phase is Brands,
    {
        let brands: Vec<String> = brand_list(raw_brands);
        let mut paths: Vec<String> = Vec::new();
        let mut i: usize = 0;
        proof {
            assert(views_of(paths@) =~= views_of(brands@).take(0).map_values(
                |b: Seq<char>| subst_placeholder(self.template@, b),
            ));
        }
        while i < brands.len()
            invariant
                i <= brands@.len(),
                self == old(self),
                views_of(paths@) == views_of(brands@).take(i as int).map_values(
                    |b: Seq<char>| subst_placeholder(old(self).template@, b),
                ),
            decreases brands@.len() - i,
        {
            let ghost pre = paths@;
            let p: String = substitute(self.template.as_str(), brands[i].as_str());
            paths.push(p);
            i = i + 1;
            proof {
                let f = |b: Seq<char>| subst_placeholder(old(self).template@, b);
                let bv = views_of(brands@);
                assert(views_of(paths@) =~= views_of(pre) + seq![p@]);
                assert(bv[i - 1] == brands@[i - 1]@);
                assert(p@ == f(bv[i - 1]));
                assert(bv.take(i as int) =~= bv.take(i - 1) + seq![bv[i - 1]]);
                assert(bv.take(i as int).map_values(f) =~= bv.take(i - 1).map_values(f) + seq![
                    f(bv[i - 1]),
                ]);
                assert(views_of(paths@) =~= bv.take(i as int).map_values(f));
            }
        }
        proof {
            assert(views_of(brands@).take(brands@.len() as int) =~= views_of(brands@));
        }
        let urls: Vec<String> = build_urls(&paths);
        let empty: bool = urls.len() == 0;
        self.brands = brands;
        self.urls = urls;
        self.idx = 0;
        if empty {
            self.phase = Phase::Done;
        } else {
            self.phase = Phase::Brands;
        }
    }
}

/// Under early-stop mode, a successful probe of the banner sweep ends
/// the run: the machine never reaches the brand sweep, so no product
/// feed is fetched and no brand URL is probed.
pub proof fn lemma_early_stop_skips_brands(d: Discovery, success: bool)
    requires
        d.wf(),
        d.active(),
        d.phase is Banners,
        d.stop_when_found,
        success,
    ensures
        step_spec(d, success).phase is Done,
        !(step_spec(d, success).phase is AwaitingBrands),
{
}

} // verus!
