//! Asset resolution, output targets, and the session that drives them.
//!
//! A session holds an output folder, a list of targets and a worker-count
//! bound. Running it applies every target to every asset of a bundle. The
//! session's decisions — how the assets are split into worker slices, what
//! each (asset, target) pair computes, and where its output goes — are all
//! here; walking directories, decoding files, threads and writing outputs are
//! the caller's business.

pub mod reader;
pub mod writer;

pub use reader::{
    resolve_assets_dir, Asset, AssetBundle, AssetReader, FileMatch, GenericAsset,
    GenericAssetReader, RegexMatcher,
};
pub use writer::{GenericTarget, Target};

use crate::errors::ErrorKind;
use crate::paths::{path_join, spec_join, spec_parent, spec_strip_prefix, strip_prefix};
use crate::raster::Image;
use crate::session::reader::AssetModel;
use crate::session::writer::{generate_post, used_slots};
use vstd::prelude::*;

verus! {

/// Relies on `num_cpus::get`: the number of logical cores of the current
/// system, which is always at least 1.
#[verifier::external_body]
fn available_parallelism() -> (r: usize)
    ensures
        r >= 1,
{
    num_cpus::get()
}

/// One error from one (asset, target) pair of a run.
#[derive(Debug)]
pub struct RunError {
    /// Base name of the asset whose generation failed.
    pub base: String,
    /// Position of the target in the session's target list.
    pub target_index: usize,
    /// What went wrong.
    pub kind: ErrorKind,
}

/// How many workers a run over `n_assets` assets uses under the bound
/// `max_threads`: half the asset count at most, the bound at most, and never
/// less than one.
pub open spec fn spec_nthreads(n_assets: int, max_threads: int) -> int {
    let half = n_assets / 2;
    let t = if half <= max_threads {
        half
    } else {
        max_threads
    };
    if t < 1 {
        1
    } else {
        t
    }
}

/// First asset index of worker `i`'s slice.
pub open spec fn spec_slice_start(n_assets: int, nthreads: int, i: int) -> int {
    i * (n_assets / nthreads)
}

/// Number of assets in worker `i`'s slice; the last slice absorbs the
/// remainder of the division.
pub open spec fn spec_slice_len(n_assets: int, nthreads: int, i: int) -> int {
    if i < nthreads - 1 {
        n_assets / nthreads
    } else {
        n_assets - (nthreads - 1) * (n_assets / nthreads)
    }
}

/// Asset index `a` falls into some slice of the plan for `n_assets` assets
/// under the bound `max_threads`.
pub open spec fn plan_covers(n_assets: int, max_threads: int, a: int) -> bool {
    let t = spec_nthreads(n_assets, max_threads);
    exists|i: int|
        0 <= i < t && #[trigger] spec_slice_start(n_assets, t, i) <= a < spec_slice_start(
            n_assets,
            t,
            i,
        ) + spec_slice_len(n_assets, t, i)
}

/// Partitions `0..n_assets` into contiguous slices, one per worker: each
/// holds `n_assets / nthreads` assets and the last absorbs the remainder.
pub fn plan_slices(n_assets: usize, max_threads: usize) -> (r: Vec<(usize, usize)>)
    ensures
        r@.len() == spec_nthreads(n_assets as int, max_threads as int),
        forall|i: int| 0 <= i < r@.len() ==> #[trigger] r@[i] == (
        spec_slice_start(n_assets as int, r@.len() as int, i) as usize,
        spec_slice_len(n_assets as int, r@.len() as int, i) as usize,
        ),
{
    let half = n_assets / 2;
    let bounded = if half <= max_threads {
        half
    } else {
        max_threads
    };
    let nthreads = if bounded < 1 {
        1
    } else {
        bounded
    };
    let ghost t = nthreads as int;
    let ghost n = n_assets as int;
    let slice = n_assets / nthreads;
    proof {
        vstd::arithmetic::div_mod::lemma_fundamental_div_mod(n, t);
        vstd::arithmetic::div_mod::lemma_mod_bound(n, t);
    }
    let mut r: Vec<(usize, usize)> = Vec::new();
    let mut i: usize = 0;
    while i < nthreads
        invariant
            0 <= i <= nthreads,
            t == nthreads as int,
            n == n_assets as int,
            t >= 1,
            slice as int == n / t,
            t * (n / t) <= n,
            r@.len() == i,
            forall|j: int| 0 <= j < i ==> #[trigger] r@[j] == (
            spec_slice_start(n, t, j) as usize,
            spec_slice_len(n, t, j) as usize,
            ),
        decreases nthreads - i,
    {
        proof {
            assert((i as int) * (slice as int) <= (t - 1) * (slice as int)) by (nonlinear_arith)
                requires
                    0 <= i as int <= t - 1,
                    0 <= slice as int,
            ;
            assert((t - 1) * (n / t) <= t * (n / t) - (n / t)) by (nonlinear_arith);
            assert(0 <= (i as int) * (slice as int)) by (nonlinear_arith)
                requires
                    0 <= i as int,
                    0 <= slice as int,
            ;
        }
        let start = i * slice;
        if i + 1 < nthreads {
            r.push((start, slice));
        } else {
            r.push((start, n_assets - start));
            proof {
                assert((t - 1) * (n / t) == (i as int) * (slice as int));
            }
        }
        i += 1;
    }
    r
}

/// Every asset index lands in some slice of the plan.
pub proof fn lemma_plan_covers(n_assets: int, max_threads: int, a: int)
    requires
        0 <= a < n_assets,
    ensures
        plan_covers(n_assets, max_threads, a),
{
    let t = spec_nthreads(n_assets, max_threads);
    let s = n_assets / t;
    vstd::arithmetic::div_mod::lemma_fundamental_div_mod(n_assets, t);
    vstd::arithmetic::div_mod::lemma_mod_bound(n_assets, t);
    if t == 1 {
        assert(spec_slice_start(n_assets, t, 0) == 0);
        assert(spec_slice_len(n_assets, t, 0) == n_assets);
        assert(plan_covers(n_assets, max_threads, a));
    } else {
        // t >= 2, so t <= n_assets / 2 and the slice size is positive.
        assert(t <= n_assets / 2);
        assert(2 * (n_assets / 2) <= n_assets) by {
            vstd::arithmetic::div_mod::lemma_fundamental_div_mod(n_assets, 2);
            vstd::arithmetic::div_mod::lemma_mod_bound(n_assets, 2);
        }
        assert(t * 2 <= n_assets) by (nonlinear_arith)
            requires
                2 <= t,
                t <= n_assets / 2,
                2 * (n_assets / 2) <= n_assets,
        ;
        assert(s >= 2) by {
            assert(n_assets >= 2 * t);
            assert(n_assets / t >= (2 * t) / t) by {
                vstd::arithmetic::div_mod::lemma_div_is_ordered(2 * t, n_assets, t);
            }
            assert((2 * t) / t == 2) by (nonlinear_arith)
                requires
                    t >= 1,
            ;
        }
        let q = a / s;
        vstd::arithmetic::div_mod::lemma_fundamental_div_mod(a, s);
        vstd::arithmetic::div_mod::lemma_mod_bound(a, s);
        vstd::arithmetic::div_mod::lemma_div_pos_is_pos(a, s);
        let i = if q < t - 1 {
            q
        } else {
            t - 1
        };
        if q < t - 1 {
            assert(spec_slice_start(n_assets, t, q) == q * s);
            assert(q * s <= a < q * s + s);
            assert(plan_covers(n_assets, max_threads, a));
        } else {
            // a sits in the final slice.
            assert((t - 1) * s <= q * s) by (nonlinear_arith)
                requires
                    t - 1 <= q,
                    s >= 0,
            ;
            assert(q * s <= a);
            assert(spec_slice_start(n_assets, t, t - 1) == (t - 1) * s);
            assert(spec_slice_len(n_assets, t, t - 1) == n_assets - (t - 1) * s);
            assert(plan_covers(n_assets, max_threads, a));
        }
    }
}

/// Any index inside a slice lies inside the asset range.
pub proof fn lemma_plan_in_range(n_assets: int, max_threads: int, a: int)
    requires
        n_assets >= 0,
        plan_covers(n_assets, max_threads, a),
    ensures
        0 <= a < n_assets,
{
    let t = spec_nthreads(n_assets, max_threads);
    let s = n_assets / t;
    let i = choose|i: int|
        0 <= i < t && #[trigger] spec_slice_start(n_assets, t, i) <= a < spec_slice_start(
            n_assets,
            t,
            i,
        ) + spec_slice_len(n_assets, t, i);
    vstd::arithmetic::div_mod::lemma_fundamental_div_mod(n_assets, t);
    vstd::arithmetic::div_mod::lemma_mod_bound(n_assets, t);
    vstd::arithmetic::div_mod::lemma_div_pos_is_pos(n_assets, t);
    assert(0 <= i * s) by (nonlinear_arith)
        requires
            0 <= i,
            0 <= s,
    ;
    if i < t - 1 {
        assert(i * s + s <= (t - 1) * s) by (nonlinear_arith)
            requires
                i + 1 <= t - 1,
                0 <= s,
        ;
        assert((t - 1) * s <= t * s - s) by (nonlinear_arith);
        assert(t * s <= n_assets);
    } else {
        assert((t - 1) * s <= t * s - s) by (nonlinear_arith);
        assert(t * s <= n_assets);
    }
}

/// The set of asset indices a run processes does not depend on the thread
/// count: under any two bounds, the plans cover exactly the same indices,
/// namely all of them. Parallelism changes only who does the work.
pub proof fn lemma_plan_thread_count_irrelevant(n_assets: int, t1: int, t2: int, a: int)
    requires
        n_assets >= 0,
    ensures
        plan_covers(n_assets, t1, a) <==> plan_covers(n_assets, t2, a),
{
    if plan_covers(n_assets, t1, a) {
        lemma_plan_in_range(n_assets, t1, a);
        lemma_plan_covers(n_assets, t2, a);
    }
    if plan_covers(n_assets, t2, a) {
        lemma_plan_in_range(n_assets, t2, a);
        lemma_plan_covers(n_assets, t1, a);
    }
}

/// The output path of one (asset, target) pair: the output folder, then the
/// asset's folder relative to the bundle root, then the target's file name
/// for the asset.
pub open spec fn spec_output_path(
    output_folder: Seq<char>,
    root: Seq<char>,
    asset: AssetModel,
    suffix: Option<Seq<char>>,
) -> Seq<char> {
    let rel = if asset.textures.len() > 0 {
        spec_strip_prefix(spec_parent(asset.textures[0].1), root)
    } else {
        Seq::<char>::empty()
    };
    let filename = asset.base + (match suffix {
        Some(n) => n,
        None => Seq::<char>::empty(),
    });
    spec_join(spec_join(output_folder, rel), filename)
}

/// What processing one (asset, target) pair returns, given the decoded
/// sources: on success the generated image and the path it belongs under; on
/// failure one error naming the asset, the target and the cause.
pub open spec fn pair_post(
    output_folder: Seq<char>,
    root: Seq<char>,
    asset: AssetModel,
    target: GenericTarget,
    target_index: int,
    sources: Seq<Option<Image>>,
    r: Result<(Image, String), RunError>,
) -> bool {
    let k = used_slots(target.spec_inputs().len() as int);
    match r {
        Ok((img, path)) => {
            &&& target.spec_inputs().len() > 0
            &&& generate_post(
                target.spec_inputs().take(k),
                sources.take(k),
                Result::<Image, ErrorKind>::Ok(img),
            )
            &&& path@ == spec_output_path(output_folder, root, asset, target.spec_name())
        },
        Err(e) => {
            &&& e.base@ == asset.base
            &&& e.target_index == target_index
            &&& if target.spec_inputs().len() == 0 {
                e.kind == ErrorKind::NoInputs
            } else {
                generate_post(
                    target.spec_inputs().take(k),
                    sources.take(k),
                    Result::<Image, ErrorKind>::Err(e.kind),
                )
            }
        },
    }
}

/// Idempotence of one (asset, target) pair: two runs over the same asset,
/// target and decoded sources agree completely — the same output path and
/// byte-identical image bytes, or errors naming the same pair and the same
/// cause. A whole re-run over an unchanged tree therefore reproduces the same
/// output file set and the same error contents.
pub proof fn lemma_pair_idempotent(
    output_folder: Seq<char>,
    root: Seq<char>,
    asset: AssetModel,
    target: GenericTarget,
    target_index: int,
    sources: Seq<Option<Image>>,
    r1: Result<(Image, String), RunError>,
    r2: Result<(Image, String), RunError>,
)
    requires
        pair_post(output_folder, root, asset, target, target_index, sources, r1),
        pair_post(output_folder, root, asset, target, target_index, sources, r2),
    ensures
        r1 is Ok <==> r2 is Ok,
        r1 is Ok ==> {
            &&& r1->Ok_0.1@ == r2->Ok_0.1@
            &&& r1->Ok_0.0.spec_width() == r2->Ok_0.0.spec_width()
            &&& r1->Ok_0.0.spec_height() == r2->Ok_0.0.spec_height()
            &&& r1->Ok_0.0.spec_channels() == r2->Ok_0.0.spec_channels()
            &&& r1->Ok_0.0.spec_data() == r2->Ok_0.0.spec_data()
        },
        r1 is Err ==> {
            &&& r1->Err_0.base@ == r2->Err_0.base@
            &&& r1->Err_0.target_index == r2->Err_0.target_index
            &&& r1->Err_0.kind == r2->Err_0.kind
        },
{
    let k = used_slots(target.spec_inputs().len() as int);
    let tin = target.spec_inputs().take(k);
    let tsrc = sources.take(k);
    match (r1, r2) {
        (Ok((img1, _)), Ok((img2, _))) => {
            crate::session::writer::lemma_generate_deterministic(
                tin,
                tsrc,
                Result::<Image, ErrorKind>::Ok(img1),
                Result::<Image, ErrorKind>::Ok(img2),
            );
        },
        (Ok((img1, _)), Err(e2)) => {
            crate::session::writer::lemma_generate_deterministic(
                tin,
                tsrc,
                Result::<Image, ErrorKind>::Ok(img1),
                Result::<Image, ErrorKind>::Err(e2.kind),
            );
        },
        (Err(e1), Ok((img2, _))) => {
            crate::session::writer::lemma_generate_deterministic(
                tin,
                tsrc,
                Result::<Image, ErrorKind>::Err(e1.kind),
                Result::<Image, ErrorKind>::Ok(img2),
            );
        },
        (Err(e1), Err(e2)) => {
            if target.spec_inputs().len() > 0 {
                crate::session::writer::lemma_generate_deterministic(
                    tin,
                    tsrc,
                    Result::<Image, ErrorKind>::Err(e1.kind),
                    Result::<Image, ErrorKind>::Err(e2.kind),
                );
            }
        },
    }
}

/// A one-shot run: targets, an output folder, and a worker-count bound.
pub struct Session {
    output_folder: String,
    targets: Vec<GenericTarget>,
    max_nb_threads: usize,
}

impl Session {
    /// The folder generated images are written under.
    pub closed spec fn spec_output_folder(&self) -> Seq<char> {
        self.output_folder@
    }

    /// The targets applied to every asset.
    pub closed spec fn spec_targets(&self) -> Seq<GenericTarget> {
        self.targets@
    }

    /// The bound on the number of workers.
    pub closed spec fn spec_max_threads(&self) -> usize {
        self.max_nb_threads
    }

    /// A session with no targets, writing under `./__swizzler_build`, bounded
    /// by the host's parallelism.
    pub fn new() -> (r: Session)
        ensures
            r.spec_output_folder() == "./__swizzler_build"@,
            r.spec_targets() == Seq::<GenericTarget>::empty(),
            r.spec_max_threads() >= 1,
    {
        let r = Session {
            output_folder: "./__swizzler_build".to_owned(),
            targets: Vec::new(),
            max_nb_threads: available_parallelism(),
        };
        proof {
            assert(r.spec_targets() =~= Seq::<GenericTarget>::empty());
        }
        r
    }

    /// Sets the output folder.
    pub fn set_output_folder(self, folder: String) -> (r: Session)
        ensures
            r.spec_output_folder() == folder@,
            r.spec_targets() == self.spec_targets(),
            r.spec_max_threads() == self.spec_max_threads(),
    {
        Session { output_folder: folder, ..self }
    }

    /// Adds one target to the run.
    pub fn add_target(self, target: GenericTarget) -> (r: Session)
        ensures
            r.spec_output_folder() == self.spec_output_folder(),
            r.spec_targets() == self.spec_targets().push(target),
            r.spec_max_threads() == self.spec_max_threads(),
    {
        let mut targets = self.targets;
        targets.push(target);
        Session { output_folder: self.output_folder, targets, max_nb_threads: self.max_nb_threads }
    }

    /// Moves all given targets into the run, leaving the argument empty.
    pub fn add_targets(self, targets: &mut Vec<GenericTarget>) -> (r: Session)
        ensures
            r.spec_output_folder() == self.spec_output_folder(),
            r.spec_targets() == self.spec_targets() + old(targets)@,
            final(targets)@ == Seq::<GenericTarget>::empty(),
            r.spec_max_threads() == self.spec_max_threads(),
    {
        let mut own = self.targets;
        own.append(targets);
        proof {
            assert(targets@ =~= Seq::<GenericTarget>::empty());
        }
        Session {
            output_folder: self.output_folder,
            targets: own,
            max_nb_threads: self.max_nb_threads,
        }
    }

    /// Bounds the number of workers: by `count` when one is given, else by
    /// the host's parallelism.
    pub fn set_max_threads_nb(self, count: Option<usize>) -> (r: Session)
        ensures
            r.spec_output_folder() == self.spec_output_folder(),
            r.spec_targets() == self.spec_targets(),
            count matches Some(c) ==> r.spec_max_threads() == c,
            count is None ==> r.spec_max_threads() >= 1,
    {
        let max_nb_threads = match count {
            Some(c) => c,
            None => available_parallelism(),
        };
        Session { output_folder: self.output_folder, targets: self.targets, max_nb_threads }
    }

    /// Borrows the target list.
    pub fn targets(&self) -> (r: &Vec<GenericTarget>)
        ensures
            r@ == self.spec_targets(),
    {
        &self.targets
    }

    /// The bound on the number of workers.
    pub fn max_threads(&self) -> (r: usize)
        ensures
            r == self.spec_max_threads(),
    {
        self.max_nb_threads
    }

    /// Borrows the output folder.
    pub fn output_folder(&self) -> (r: &str)
        ensures
            r@ == self.spec_output_folder(),
    {
        self.output_folder.as_str()
    }

    /// The path the image of one (asset, target) pair is written to: the
    /// output folder, the asset's folder relative to `root`, the target's
    /// file name.
    pub fn output_path(&self, root: &str, asset: &GenericAsset, target: &GenericTarget) -> (r:
        String)
        ensures
            r@ == spec_output_path(self.spec_output_folder(), root@, asset@, target.spec_name()),
    {
        let dir: String = match asset.get_folder() {
            Some(f) => {
                let rel = strip_prefix(f.as_str(), root);
                path_join(self.output_folder.as_str(), rel)
            },
            None => self.output_folder.clone(),
        };
        let filename = target.get_filename(asset);
        path_join(dir.as_str(), filename.as_str())
    }

    /// The work of one (asset, target) pair, given the decoded sources: the
    /// generated image and its output path, or the error to record.
    pub fn process_pair(
        &self,
        root: &str,
        asset: &GenericAsset,
        target_index: usize,
        sources: &Vec<Option<Image>>,
    ) -> (r: Result<(Image, String), RunError>)
        requires
            target_index < self.spec_targets().len(),
            sources@.len() == self.spec_targets()[target_index as int].spec_inputs().len(),
        ensures
            pair_post(
                self.spec_output_folder(),
                root@,
                asset@,
                self.spec_targets()[target_index as int],
                target_index as int,
                sources@,
                r,
            ),
    {
        let target = &self.targets[target_index];
        match target.generate(sources) {
            Ok(img) => {
                let path = self.output_path(root, asset, target);
                Ok((img, path))
            },
            Err(kind) => Err(
                RunError { base: asset.get_base().to_owned(), target_index, kind },
            ),
        }
    }
}

} // verus!
