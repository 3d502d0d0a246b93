//! Grouping texture files into assets.
//!
//! A reader holds a base pattern, whose first capture group extracts an
//! asset's base name out of a file name, and an ordered list of matchers,
//! each classifying a file name into a role. Resolving a list of files groups
//! them by captured base name; for every matcher that accepts a file name,
//! the file's path is recorded under the matcher's role, a later match
//! overwriting an earlier one.

use crate::paths::{file_name, parent_of, spec_file_name, spec_parent};
use crate::pattern::{pattern_capture, pattern_compiles, pattern_matches, Pattern};
use vstd::prelude::*;

verus! {

// ---------------------------------------------------------------------------
// Role-to-path association lists.
// ---------------------------------------------------------------------------
/// Some entry of `t` carries the key `id`.
pub open spec fn alist_has(t: Seq<(Seq<char>, Seq<char>)>, id: Seq<char>) -> bool {
    exists|i: int| 0 <= i < t.len() && t[i].0 == id
}

/// Index of the entry of `t` carrying the key `id`.
pub open spec fn alist_index(t: Seq<(Seq<char>, Seq<char>)>, id: Seq<char>) -> int {
    choose|i: int| 0 <= i < t.len() && t[i].0 == id
}

/// The value recorded under the key `id`.
pub open spec fn alist_get(t: Seq<(Seq<char>, Seq<char>)>, id: Seq<char>) -> Seq<char> {
    t[alist_index(t, id)].1
}

/// Keys are unique.
pub open spec fn alist_wf(t: Seq<(Seq<char>, Seq<char>)>) -> bool {
    forall|i: int, j: int| 0 <= i < j < t.len() ==> t[i].0 != t[j].0
}

/// `t` with `v` recorded under `id`: in place of the entry that carries `id`,
/// or appended when no entry does.
pub open spec fn alist_insert(
    t: Seq<(Seq<char>, Seq<char>)>,
    id: Seq<char>,
    v: Seq<char>,
) -> Seq<(Seq<char>, Seq<char>)> {
    if alist_has(t, id) {
        t.update(alist_index(t, id), (id, v))
    } else {
        t.push((id, v))
    }
}

/// Inserting keeps keys unique, records exactly the new value under `id`, and
/// leaves every other key's presence and value unchanged.
pub proof fn lemma_alist_insert(t: Seq<(Seq<char>, Seq<char>)>, id: Seq<char>, v: Seq<char>)
    requires
        alist_wf(t),
    ensures
        alist_wf(alist_insert(t, id, v)),
        alist_has(alist_insert(t, id, v), id),
        alist_get(alist_insert(t, id, v), id) == v,
        forall|o: Seq<char>| o != id ==> (alist_has(alist_insert(t, id, v), o) <==> alist_has(
            t,
            o,
        )),
        forall|o: Seq<char>| o != id && alist_has(t, o) ==> alist_get(alist_insert(t, id, v), o)
            == alist_get(t, o),
{
    let r = alist_insert(t, id, v);
    if alist_has(t, id) {
        let k = alist_index(t, id);
        assert(0 <= k < t.len() && t[k].0 == id);
        assert(r[k] == (id, v));
        assert(forall|i: int| 0 <= i < r.len() && i != k ==> r[i] == t[i]);
        assert(alist_wf(r));
        assert(r[alist_index(r, id)].0 == id);
        assert(alist_index(r, id) == k);
        assert forall|o: Seq<char>| o != id implies (alist_has(r, o) <==> alist_has(t, o)) by {
            if alist_has(r, o) {
                let i = choose|i: int| 0 <= i < r.len() && r[i].0 == o;
                assert(i != k);
                assert(t[i].0 == o);
            }
            if alist_has(t, o) {
                let i = choose|i: int| 0 <= i < t.len() && t[i].0 == o;
                assert(i != k);
                assert(r[i].0 == o);
            }
        }
        assert forall|o: Seq<char>| o != id && alist_has(t, o) implies alist_get(r, o)
            == alist_get(t, o) by {
            let i = alist_index(t, o);
            assert(0 <= i < t.len() && t[i].0 == o);
            assert(i != k);
            assert(r[i].0 == o);
            assert(alist_index(r, o) == i);
        }
    } else {
        let k = t.len() as int;
        assert(r[k] == (id, v));
        assert(forall|i: int| 0 <= i < k ==> r[i] == t[i]);
        assert forall|i: int, j: int| 0 <= i < j < r.len() implies r[i].0 != r[j].0 by {
            if j < k {
                assert(t[i].0 != t[j].0);
            } else {
                assert(r[j].0 == id);
                assert(t[i].0 != id);
            }
        }
        assert(r[alist_index(r, id)].0 == id);
        assert(alist_index(r, id) == k);
        assert forall|o: Seq<char>| o != id implies (alist_has(r, o) <==> alist_has(t, o)) by {
            if alist_has(r, o) {
                let i = choose|i: int| 0 <= i < r.len() && r[i].0 == o;
                assert(i != k);
                assert(t[i].0 == o);
            }
            if alist_has(t, o) {
                let i = choose|i: int| 0 <= i < t.len() && t[i].0 == o;
                assert(r[i].0 == o);
            }
        }
        assert forall|o: Seq<char>| o != id && alist_has(t, o) implies alist_get(r, o)
            == alist_get(t, o) by {
            let i = alist_index(t, o);
            assert(0 <= i < t.len() && t[i].0 == o);
            assert(r[i].0 == o);
            assert(alist_index(r, o) == i);
        }
    }
}

// ---------------------------------------------------------------------------
// Matchers.
// ---------------------------------------------------------------------------
/// Generalized file name matcher.
pub trait FileMatch {
    type Identifier;

    /// What testing a file name against this matcher returns.
    spec fn spec_matches(&self, filename: Seq<char>) -> bool;

    /// Tests whether `filename` is of the format this matcher expects.
    fn do_match(&self, filename: &str) -> (r: bool)
        ensures
            r == self.spec_matches(filename@),
    ;

    /// The role identifier this matcher classifies files into.
    fn get_identifier(&self) -> &Self::Identifier;
}

/// A matcher that classifies a file name into the role `id` when a regular
/// expression matches it.
pub struct RegexMatcher {
    pub id: String,
    matcher: Pattern,
}

impl RegexMatcher {
    /// The role identifier of this matcher.
    pub closed spec fn spec_id(&self) -> Seq<char> {
        self.id@
    }

    /// The source text of this matcher's pattern.
    pub closed spec fn spec_pattern(&self) -> Seq<char> {
        self.matcher.spec_source()
    }

    /// Compiles `pattern` into a matcher for the role `id`; fails exactly
    /// when the pattern does not compile.
    pub fn new(id: String, pattern: &str) -> (r: Option<RegexMatcher>)
        ensures
            r is Some <==> pattern_compiles(pattern@),
            r matches Some(m) ==> m.spec_id() == id@ && m.spec_pattern() == pattern@,
    {
        match Pattern::compile(pattern) {
            Some(p) => Some(RegexMatcher { id, matcher: p }),
            None => None,
        }
    }
}

impl FileMatch for RegexMatcher {
    type Identifier = String;

    open spec fn spec_matches(&self, filename: Seq<char>) -> bool {
        pattern_matches(self.spec_pattern(), filename)
    }

    fn do_match(&self, filename: &str) -> (r: bool) {
        self.matcher.is_match(filename)
    }

    fn get_identifier(&self) -> &String {
        &self.id
    }
}

// ---------------------------------------------------------------------------
// Assets.
// ---------------------------------------------------------------------------
/// The mathematical content of an asset: its base name and its role-to-path
/// records.
#[verifier::ext_equal]
pub ghost struct AssetModel {
    pub base: Seq<char>,
    pub textures: Seq<(Seq<char>, Seq<char>)>,
}

/// Generalized asset: related files grouped under one base name.
pub trait Asset {
    /// The asset's base name.
    spec fn spec_base(&self) -> Seq<char>;

    /// The asset's role records.
    spec fn spec_textures(&self) -> Seq<(Seq<char>, Seq<char>)>;

    /// Returns true exactly when this asset has no registered file.
    fn empty(&self) -> (r: bool)
        ensures
            r == (self.spec_textures().len() == 0),
    ;

    /// Returns the base name of the asset.
    fn get_base(&self) -> (r: &str)
        ensures
            r@ == self.spec_base(),
    ;

    /// Returns the parent folder of the first registered texture, if any.
    fn get_folder(&self) -> (r: Option<String>)
        ensures
            match r {
                Some(f) => self.spec_textures().len() > 0 && f@ == spec_parent(
                    self.spec_textures()[0].1,
                ),
                None => self.spec_textures().len() == 0,
            },
    ;
}

/// An asset holding one file path per role, with unique roles.
pub struct GenericAsset {
    base: String,
    textures: Vec<(String, String)>,
}

impl View for GenericAsset {
    type V = AssetModel;

    closed spec fn view(&self) -> AssetModel {
        AssetModel {
            base: self.base@,
            textures: self.textures@.map_values(|t: (String, String)| (t.0@, t.1@)),
        }
    }
}

/// The models of a sequence of assets.
pub open spec fn asset_views(s: Seq<GenericAsset>) -> Seq<AssetModel> {
    s.map_values(|a: GenericAsset| a@)
}

impl GenericAsset {
    /// Each role is recorded at most once.
    #[verifier::type_invariant]
    spec fn wf(self) -> bool {
        alist_wf(self@.textures)
    }

    /// An asset with no roles recorded yet.
    pub fn new(base: String) -> (r: GenericAsset)
        ensures
            r@.base == base@,
            r@.textures == Seq::<(Seq<char>, Seq<char>)>::empty(),
    {
        let r = GenericAsset { base, textures: Vec::new() };
        proof {
            assert(r@.textures =~= Seq::<(Seq<char>, Seq<char>)>::empty());
        }
        r
    }

    /// The path recorded for the role `id`, if one is.
    pub fn get_texture_path(&self, id: &String) -> (r: Option<&String>)
        ensures
            match r {
                Some(p) => alist_has(self@.textures, id@) && p@ == alist_get(
                    self@.textures,
                    id@,
                ),
                None => !alist_has(self@.textures, id@),
            },
    {
        proof {
            use_type_invariant(self);
        }
        let n = self.textures.len();
        let mut k: usize = 0;
        while k < n
            invariant
                0 <= k <= n,
                n == self.textures@.len(),
                alist_wf(self@.textures),
                forall|i: int| 0 <= i < k ==> self@.textures[i].0 != id@,
            decreases n - k,
        {
            let entry = &self.textures[k];
            if entry.0 == *id {
                proof {
                    assert(self@.textures[k as int].0 == id@);
                    assert(alist_has(self@.textures, id@));
                    let ci = alist_index(self@.textures, id@);
                    assert(0 <= ci < self@.textures.len() && self@.textures[ci].0 == id@);
                    if ci < k as int {
                        assert(false);
                    }
                    if (k as int) < ci {
                        assert(false);
                    }
                }
                return Some(&entry.1);
            }
            k += 1;
        }
        proof {
            assert(!alist_has(self@.textures, id@));
        }
        None
    }

    /// Records `path` under the role `id`, overwriting what the role held.
    pub fn insert_texture(&mut self, id: String, path: String)
        ensures
            final(self)@.base == old(self)@.base,
            final(self)@.textures == alist_insert(old(self)@.textures, id@, path@),
    {
        proof {
            use_type_invariant(&*self);
        }
        let ghost t0 = self@.textures;
        let mut tex: Vec<(String, String)> = Vec::new();
        core::mem::swap(&mut tex, &mut self.textures);
        let n = tex.len();
        let mut k: usize = 0;
        let mut found: bool = false;
        let mut idx: usize = 0;
        while k < n
            invariant
                0 <= k <= n,
                n == tex@.len(),
                t0 == tex@.map_values(|t: (String, String)| (t.0@, t.1@)),
                !found ==> forall|i: int| 0 <= i < k ==> t0[i].0 != id@,
                found ==> 0 <= idx < n && t0[idx as int].0 == id@,
            decreases n - k,
        {
            if !found && tex[k].0 == id {
                found = true;
                idx = k;
            }
            k += 1;
        }
        proof {
            lemma_alist_insert(t0, id@, path@);
        }
        if found {
            let _prev = tex.remove(idx);
            tex.insert(idx, (id, path));
            proof {
                assert(alist_has(t0, id@));
                let ci = alist_index(t0, id@);
                assert(0 <= ci < t0.len() && t0[ci].0 == id@);
                assert(alist_wf(t0));
                if ci < idx as int {
                    assert(false);
                }
                if (idx as int) < ci {
                    assert(false);
                }
                assert(tex@.map_values(|t: (String, String)| (t.0@, t.1@)) =~= alist_insert(
                    t0,
                    id@,
                    path@,
                ));
            }
        } else {
            tex.push((id, path));
            proof {
                assert(!alist_has(t0, id@));
                assert(tex@.map_values(|t: (String, String)| (t.0@, t.1@)) =~= alist_insert(
                    t0,
                    id@,
                    path@,
                ));
            }
        }
        self.textures = tex;
    }
}

impl Asset for GenericAsset {
    open spec fn spec_base(&self) -> Seq<char> {
        self@.base
    }

    open spec fn spec_textures(&self) -> Seq<(Seq<char>, Seq<char>)> {
        self@.textures
    }

    fn empty(&self) -> (r: bool) {
        self.textures.len() == 0
    }

    fn get_base(&self) -> (r: &str) {
        self.base.as_str()
    }

    fn get_folder(&self) -> (r: Option<String>) {
        if self.textures.len() == 0 {
            None
        } else {
            let entry = &self.textures[0];
            Some(parent_of(entry.1.as_str()).to_owned())
        }
    }
}

// ---------------------------------------------------------------------------
// The resolver.
// ---------------------------------------------------------------------------
/// Some already-resolved asset carries the base name `base`.
pub open spec fn models_has_base(assets: Seq<AssetModel>, base: Seq<char>) -> bool {
    exists|i: int| 0 <= i < assets.len() && assets[i].base == base
}

/// Index of the asset carrying the base name `base`.
pub open spec fn models_base_index(assets: Seq<AssetModel>, base: Seq<char>) -> int {
    choose|i: int| 0 <= i < assets.len() && assets[i].base == base
}

/// No two assets share a base name.
pub open spec fn models_distinct(assets: Seq<AssetModel>) -> bool {
    forall|i: int, j: int| 0 <= i < j < assets.len() ==> assets[i].base != assets[j].base
}

/// `t` after testing `filename` against every matcher in order: each matcher
/// that accepts it records `path` under the matcher's role, a later matcher
/// overwriting an earlier one.
pub open spec fn apply_matchers(
    t: Seq<(Seq<char>, Seq<char>)>,
    matchers: Seq<(Seq<char>, Seq<char>)>,
    filename: Seq<char>,
    path: Seq<char>,
) -> Seq<(Seq<char>, Seq<char>)>
    decreases matchers.len(),
{
    if matchers.len() == 0 {
        t
    } else {
        let rest = apply_matchers(t, matchers.drop_last(), filename, path);
        let m = matchers.last();
        if pattern_matches(m.1, filename) {
            alist_insert(rest, m.0, path)
        } else {
            rest
        }
    }
}

/// Matcher application keeps roles unique.
pub proof fn lemma_apply_matchers_wf(
    t: Seq<(Seq<char>, Seq<char>)>,
    matchers: Seq<(Seq<char>, Seq<char>)>,
    filename: Seq<char>,
    path: Seq<char>,
)
    requires
        alist_wf(t),
    ensures
        alist_wf(apply_matchers(t, matchers, filename, path)),
    decreases matchers.len(),
{
    if matchers.len() > 0 {
        lemma_apply_matchers_wf(t, matchers.drop_last(), filename, path);
        let m = matchers.last();
        if pattern_matches(m.1, filename) {
            lemma_alist_insert(
                apply_matchers(t, matchers.drop_last(), filename, path),
                m.0,
                path,
            );
        }
    }
}

/// Some matcher carrying the role `id` accepts the file name `f`.
pub open spec fn matcher_sets(
    matchers: Seq<(Seq<char>, Seq<char>)>,
    f: Seq<char>,
    id: Seq<char>,
) -> bool {
    exists|k: int| 0 <= k < matchers.len() && (#[trigger] matchers[k]).0 == id && pattern_matches(
        matchers[k].1,
        f,
    )
}

/// What one file contributes: a role `id` is recorded afterwards exactly when
/// it was recorded before or some matcher with that role accepts the file
/// name; a role the file sets records the file's path, any other role keeps
/// its value.
pub proof fn lemma_apply_matchers_roles(
    t: Seq<(Seq<char>, Seq<char>)>,
    matchers: Seq<(Seq<char>, Seq<char>)>,
    f: Seq<char>,
    p: Seq<char>,
    id: Seq<char>,
)
    requires
        alist_wf(t),
    ensures
        alist_has(apply_matchers(t, matchers, f, p), id) <==> (alist_has(t, id) || matcher_sets(
            matchers,
            f,
            id,
        )),
        matcher_sets(matchers, f, id) ==> alist_get(apply_matchers(t, matchers, f, p), id) == p,
        !matcher_sets(matchers, f, id) && alist_has(t, id) ==> alist_get(
            apply_matchers(t, matchers, f, p),
            id,
        ) == alist_get(t, id),
    decreases matchers.len(),
{
    if matchers.len() == 0 {
        assert(!matcher_sets(matchers, f, id));
    } else {
        let rest = matchers.drop_last();
        lemma_apply_matchers_roles(t, rest, f, p, id);
        lemma_apply_matchers_wf(t, rest, f, p);
        let ar = apply_matchers(t, rest, f, p);
        let m = matchers.last();
        assert(matchers[matchers.len() - 1] == m);
        assert(forall|k: int| 0 <= k < rest.len() ==> rest[k] == matchers[k]);
        if pattern_matches(m.1, f) {
            lemma_alist_insert(ar, m.0, p);
            if m.0 == id {
                assert(matcher_sets(matchers, f, id));
            } else {
                if matcher_sets(matchers, f, id) {
                    let k = choose|k: int|
                        0 <= k < matchers.len() && (#[trigger] matchers[k]).0 == id
                            && pattern_matches(matchers[k].1, f);
                    assert(k < matchers.len() - 1);
                    assert(rest[k] == matchers[k]);
                    assert(matcher_sets(rest, f, id));
                }
                if matcher_sets(rest, f, id) {
                    let k = choose|k: int|
                        0 <= k < rest.len() && (#[trigger] rest[k]).0 == id && pattern_matches(
                            rest[k].1,
                            f,
                        );
                    assert(matchers[k] == rest[k]);
                    assert(matcher_sets(matchers, f, id));
                }
            }
        } else {
            if matcher_sets(matchers, f, id) {
                let k = choose|k: int|
                    0 <= k < matchers.len() && (#[trigger] matchers[k]).0 == id && pattern_matches(
                        matchers[k].1,
                        f,
                    );
                assert(k < matchers.len() - 1);
                assert(rest[k] == matchers[k]);
                assert(matcher_sets(rest, f, id));
            }
            if matcher_sets(rest, f, id) {
                let k = choose|k: int|
                    0 <= k < rest.len() && (#[trigger] rest[k]).0 == id && pattern_matches(
                        rest[k].1,
                        f,
                    );
                assert(matchers[k] == rest[k]);
                assert(matcher_sets(matchers, f, id));
            }
        }
    }
}

/// One file folded into the asset list: its base name is extracted from its
/// file name by the base pattern's first capture group; a file without a
/// capture is ignored; otherwise the file's matcher records land on the asset
/// carrying that base name, a fresh one when none does yet.
pub open spec fn resolve_step(
    assets: Seq<AssetModel>,
    base_src: Seq<char>,
    matchers: Seq<(Seq<char>, Seq<char>)>,
    path: Seq<char>,
) -> Seq<AssetModel> {
    let filename = spec_file_name(path);
    match pattern_capture(base_src, filename) {
        None => assets,
        Some(b) => {
            if models_has_base(assets, b) {
                let i = models_base_index(assets, b);
                assets.update(
                    i,
                    AssetModel {
                        base: b,
                        textures: apply_matchers(assets[i].textures, matchers, filename, path),
                    },
                )
            } else {
                assets.push(
                    AssetModel {
                        base: b,
                        textures: apply_matchers(Seq::empty(), matchers, filename, path),
                    },
                )
            }
        },
    }
}

/// The asset list obtained by folding `files` in order into the empty list.
pub open spec fn resolve_models(
    base_src: Seq<char>,
    matchers: Seq<(Seq<char>, Seq<char>)>,
    files: Seq<Seq<char>>,
) -> Seq<AssetModel>
    decreases files.len(),
{
    if files.len() == 0 {
        Seq::empty()
    } else {
        resolve_step(
            resolve_models(base_src, matchers, files.drop_last()),
            base_src,
            matchers,
            files.last(),
        )
    }
}

/// Generalized assets reader: produces one asset per base name found.
pub trait AssetReader {
    /// The source text of the base pattern.
    spec fn spec_base(&self) -> Seq<char>;

    /// Role and pattern source of each matcher, in order.
    spec fn spec_matchers(&self) -> Seq<(Seq<char>, Seq<char>)>;

    /// Given a list of file paths, produces the assets they group into.
    fn resolve(&self, files: &Vec<String>) -> (r: Vec<GenericAsset>)
        ensures
            asset_views(r@) == resolve_models(
                self.spec_base(),
                self.spec_matchers(),
                files.deep_view(),
            ),
            models_distinct(asset_views(r@)),
    ;
}

/// Reader that extracts base names with a regex capture group and classifies
/// roles with [`RegexMatcher`]s.
pub struct GenericAssetReader {
    base: Pattern,
    matchers: Vec<RegexMatcher>,
}

impl GenericAssetReader {
    /// A reader whose base pattern captures everything before the last
    /// underscore, with no matchers; fails exactly when that pattern does not
    /// compile, so either always or never.
    pub fn new() -> (r: Option<GenericAssetReader>)
        ensures
            r is Some <==> pattern_compiles("(.*)_.*"@),
            r matches Some(g) ==> g.spec_base() == "(.*)_.*"@ && g.spec_matchers()
                == Seq::<(Seq<char>, Seq<char>)>::empty(),
    {
        match Pattern::compile("(.*)_.*") {
            Some(p) => {
                let g = GenericAssetReader { base: p, matchers: Vec::new() };
                proof {
                    assert(g.spec_matchers() =~= Seq::<(Seq<char>, Seq<char>)>::empty());
                }
                Some(g)
            },
            None => None,
        }
    }

    /// Sets the pattern whose first capture group extracts each asset's base
    /// name; fails exactly when the pattern does not compile.
    pub fn set_base(self, base: &str) -> (r: Option<GenericAssetReader>)
        ensures
            r is Some <==> pattern_compiles(base@),
            r matches Some(g) ==> g.spec_base() == base@ && g.spec_matchers()
                == self.spec_matchers(),
    {
        match Pattern::compile(base) {
            Some(p) => Some(GenericAssetReader { base: p, matchers: self.matchers }),
            None => None,
        }
    }

    /// Adds a matcher to this reader; every matcher is run on every file.
    pub fn add_matcher(self, matcher: RegexMatcher) -> (r: GenericAssetReader)
        ensures
            r.spec_base() == self.spec_base(),
            r.spec_matchers() == self.spec_matchers().push(
                (matcher.spec_id(), matcher.spec_pattern()),
            ),
    {
        let ghost m0 = self.spec_matchers();
        let mut matchers = self.matchers;
        matchers.push(matcher);
        let r = GenericAssetReader { base: self.base, matchers };
        proof {
            assert(r.spec_matchers() =~= m0.push((matcher.spec_id(), matcher.spec_pattern())));
        }
        r
    }

    /// Replaces the matcher list.
    pub fn set_matchers(self, matchers: Vec<RegexMatcher>) -> (r: GenericAssetReader)
        ensures
            r.spec_base() == self.spec_base(),
            r.spec_matchers() == matchers@.map_values(
                |m: RegexMatcher| (m.spec_id(), m.spec_pattern()),
            ),
    {
        GenericAssetReader { base: self.base, matchers }
    }
}

impl AssetReader for GenericAssetReader {
    closed spec fn spec_base(&self) -> Seq<char> {
        self.base.spec_source()
    }

    closed spec fn spec_matchers(&self) -> Seq<(Seq<char>, Seq<char>)> {
        self.matchers@.map_values(|m: RegexMatcher| (m.id@, m.spec_pattern()))
    }

    fn resolve(&self, files: &Vec<String>) -> (r: Vec<GenericAsset>) {
        let ghost bsrc = self.spec_base();
        let ghost ms = self.spec_matchers();
        let ghost fls = files.deep_view();
        let mut result: Vec<GenericAsset> = Vec::new();
        proof {
            assert(fls.take(0) =~= Seq::<Seq<char>>::empty());
            assert(asset_views(result@) =~= Seq::<AssetModel>::empty());
        }
        let nf = files.len();
        let mut fi: usize = 0;
        while fi < nf
            invariant
                0 <= fi <= nf,
                nf == files@.len(),
                fls == files.deep_view(),
                bsrc == self.spec_base(),
                ms == self.spec_matchers(),
                asset_views(result@) == resolve_models(bsrc, ms, fls.take(fi as int)),
                models_distinct(asset_views(result@)),
            decreases nf - fi,
        {
            let path: &String = &files[fi];
            proof {
                assert(fls[fi as int] == path@);
            }
            let filename: &str = file_name(path.as_str());
            let ghost before = asset_views(result@);
            match self.base.capture_first(filename) {
                None => {
                    proof {
                        assert(resolve_step(before, bsrc, ms, fls[fi as int]) == before);
                    }
                },
                Some(base) => {
                    let ghost b = base@;
                    // Find the asset this base name belongs to.
                    let na = result.len();
                    let mut k: usize = 0;
                    let mut found: bool = false;
                    let mut idx: usize = 0;
                    while k < na
                        invariant
                            0 <= k <= na,
                            na == result@.len(),
                            b == base@,
                            !found ==> forall|i: int| 0 <= i < k ==> asset_views(
                                result@,
                            )[i].base != b,
                            found ==> 0 <= idx < na && asset_views(result@)[idx as int].base == b,
                        decreases na - k,
                    {
                        if !found {
                            let candidate = &result[k];
                            if crate::paths::str_eq(candidate.get_base(), base.as_str()) {
                                found = true;
                                idx = k;
                            }
                        }
                        k += 1;
                    }
                    let mut asset: GenericAsset = if found {
                        result.remove(idx)
                    } else {
                        GenericAsset::new(base)
                    };
                    proof {
                        use_type_invariant(&asset);
                    }
                    let ghost t0 = asset@.textures;
                    let ghost abase = asset@.base;
                    // Record the file under every matching role.
                    let nm = self.matchers.len();
                    let mut mj: usize = 0;
                    while mj < nm
                        invariant
                            0 <= mj <= nm,
                            nm == self.matchers@.len(),
                            ms == self.spec_matchers(),
                            asset@.base == abase,
                            asset@.textures == apply_matchers(
                                t0,
                                ms.take(mj as int),
                                filename@,
                                path@,
                            ),
                        decreases nm - mj,
                    {
                        let m = &self.matchers[mj];
                        proof {
                            assert(ms[mj as int] == (m.id@, m.spec_pattern()));
                            assert(ms.take(mj as int + 1).drop_last() =~= ms.take(mj as int));
                            assert(ms.take(mj as int + 1).last() == ms[mj as int]);
                        }
                        if m.do_match(filename) {
                            asset.insert_texture(m.id.clone(), path.clone());
                        }
                        mj += 1;
                    }
                    proof {
                        assert(ms.take(nm as int) =~= ms);
                    }
                    // Put the asset back.
                    if found {
                        result.insert(idx, asset);
                    } else {
                        result.push(asset);
                    }
                    proof {
                        if found {
                            assert(models_has_base(before, b));
                            let ci = models_base_index(before, b);
                            assert(0 <= ci < before.len() && before[ci].base == b);
                            if ci < idx as int {
                                assert(false);
                            }
                            if (idx as int) < ci {
                                assert(false);
                            }
                            assert(asset_views(result@) =~= before.update(
                                idx as int,
                                AssetModel {
                                    base: b,
                                    textures: apply_matchers(
                                        before[idx as int].textures,
                                        ms,
                                        filename@,
                                        path@,
                                    ),
                                },
                            ));
                            assert(asset_views(result@) == resolve_step(
                                before,
                                bsrc,
                                ms,
                                fls[fi as int],
                            ));
                        } else {
                            assert(!models_has_base(before, b));
                            assert(t0 =~= Seq::<(Seq<char>, Seq<char>)>::empty());
                            assert(asset_views(result@) =~= before.push(
                                AssetModel {
                                    base: b,
                                    textures: apply_matchers(
                                        Seq::empty(),
                                        ms,
                                        filename@,
                                        path@,
                                    ),
                                },
                            ));
                            assert(asset_views(result@) == resolve_step(
                                before,
                                bsrc,
                                ms,
                                fls[fi as int],
                            ));
                        }
                        assert(models_distinct(asset_views(result@)));
                    }
                },
            }
            proof {
                assert(fls.take(fi as int + 1).drop_last() =~= fls.take(fi as int));
                assert(fls.take(fi as int + 1).last() == fls[fi as int]);
                assert(resolve_models(bsrc, ms, fls.take(fi as int + 1)) == resolve_step(
                    resolve_models(bsrc, ms, fls.take(fi as int)),
                    bsrc,
                    ms,
                    fls[fi as int],
                ));
            }
            fi += 1;
        }
        proof {
            assert(fls.take(nf as int) =~= fls);
        }
        result
    }
}

// ---------------------------------------------------------------------------
// Bundles: resolution over a whole directory tree.
// ---------------------------------------------------------------------------
/// The assets with at least one role recorded, in order.
pub open spec fn non_empty_models(assets: Seq<AssetModel>) -> Seq<AssetModel>
    decreases assets.len(),
{
    if assets.len() == 0 {
        Seq::empty()
    } else {
        let rest = non_empty_models(assets.drop_last());
        if assets.last().textures.len() != 0 {
            rest.push(assets.last())
        } else {
            rest
        }
    }
}

/// Per-directory resolution, concatenated in directory order. Each inner list
/// holds the file paths of one directory, so equal base names in different
/// directories never merge into one asset.
pub open spec fn resolve_listings(
    base_src: Seq<char>,
    matchers: Seq<(Seq<char>, Seq<char>)>,
    listings: Seq<Seq<Seq<char>>>,
) -> Seq<AssetModel>
    decreases listings.len(),
{
    if listings.len() == 0 {
        Seq::empty()
    } else {
        resolve_listings(base_src, matchers, listings.drop_last()) + resolve_models(
            base_src,
            matchers,
            listings.last(),
        )
    }
}

/// List of assets resolved relative to a given root folder.
pub struct AssetBundle {
    root: String,
    assets: Vec<GenericAsset>,
}

impl AssetBundle {
    /// The root folder the assets were found under.
    pub closed spec fn spec_root(&self) -> Seq<char> {
        self.root@
    }

    /// The models of the resolved assets.
    pub closed spec fn spec_assets(&self) -> Seq<AssetModel> {
        asset_views(self.assets@)
    }

    pub fn new(root: String, assets: Vec<GenericAsset>) -> (r: AssetBundle)
        ensures
            r.spec_root() == root@,
            r.spec_assets() == asset_views(assets@),
    {
        AssetBundle { root, assets }
    }

    pub fn get_root(&self) -> (r: &str)
        ensures
            r@ == self.spec_root(),
    {
        self.root.as_str()
    }

    pub fn get_assets(&self) -> (r: &Vec<GenericAsset>)
        ensures
            asset_views(r@) == self.spec_assets(),
    {
        &self.assets
    }
}

/// Resolves an already-listed directory tree into an asset bundle.
///
/// `listings` holds one list of file paths per directory, in the order the
/// walk visited the directories; every directory is resolved independently,
/// and assets that end up with no role recorded are discarded.
pub fn resolve_assets_dir(
    root: &str,
    listings: &Vec<Vec<String>>,
    resolver: &GenericAssetReader,
) -> (r: AssetBundle)
    ensures
        r.spec_root() == root@,
        r.spec_assets() == non_empty_models(
            resolve_listings(
                resolver.spec_base(),
                resolver.spec_matchers(),
                listings.deep_view(),
            ),
        ),
{
    let ghost bsrc = resolver.spec_base();
    let ghost ms = resolver.spec_matchers();
    let ghost lv = listings.deep_view();
    let mut all: Vec<GenericAsset> = Vec::new();
    proof {
        assert(lv.take(0) =~= Seq::<Seq<Seq<char>>>::empty());
        assert(asset_views(all@) =~= Seq::<AssetModel>::empty());
    }
    let nl = listings.len();
    let mut li: usize = 0;
    while li < nl
        invariant
            0 <= li <= nl,
            nl == listings@.len(),
            lv == listings.deep_view(),
            bsrc == resolver.spec_base(),
            ms == resolver.spec_matchers(),
            asset_views(all@) == resolve_listings(bsrc, ms, lv.take(li as int)),
        decreases nl - li,
    {
        let ghost before = asset_views(all@);
        let mut part = resolver.resolve(&listings[li]);
        let ghost pv = asset_views(part@);
        proof {
            assert(lv[li as int] =~= listings@[li as int].deep_view());
        }
        all.append(&mut part);
        proof {
            assert(asset_views(all@) =~= before + pv);
            assert(lv.take(li as int + 1).drop_last() =~= lv.take(li as int));
            assert(lv.take(li as int + 1).last() == lv[li as int]);
        }
        li += 1;
    }
    proof {
        assert(lv.take(nl as int) =~= lv);
    }
    // Discard assets that gathered no role.
    let ghost allv = asset_views(all@);
    let mut kept: Vec<GenericAsset> = Vec::new();
    let ghost total = allv.len();
    let mut ci: usize = 0;
    proof {
        assert(allv.take(0) =~= Seq::<AssetModel>::empty());
        assert(asset_views(kept@) =~= Seq::<AssetModel>::empty());
        assert(allv.skip(0) =~= allv);
    }
    proof {
        vstd::std_specs::vec::axiom_spec_len(&all);
    }
    while all.len() > 0
        invariant
            0 <= ci,
            ci as int + all@.len() == total,
            total == allv.len(),
            total <= usize::MAX,
            asset_views(all@) == allv.skip(ci as int),
            asset_views(kept@) == non_empty_models(allv.take(ci as int)),
        decreases all@.len(),
    {
        let ghost av0 = all@;
        let a = all.remove(0);
        proof {
            assert(asset_views(av0)[0] == a@);
            assert(a@ == allv.skip(ci as int)[0]);
            assert(a@ == allv[ci as int]);
            assert forall|k: int| 0 <= k < all@.len() implies asset_views(all@)[k] == allv.skip(
                ci as int + 1,
            )[k] by {
                assert(all@[k] == av0[k + 1]);
                assert(asset_views(all@)[k] == all@[k]@);
                assert(asset_views(av0)[k + 1] == av0[k + 1]@);
                assert(asset_views(av0)[k + 1] == allv.skip(ci as int)[k + 1]);
                assert(allv.skip(ci as int)[k + 1] == allv[ci as int + 1 + k]);
                assert(allv.skip(ci as int + 1)[k] == allv[ci as int + 1 + k]);
            }
            assert(asset_views(all@) =~= allv.skip(ci as int + 1));
            assert(allv.take(ci as int + 1).drop_last() =~= allv.take(ci as int));
            assert(allv.take(ci as int + 1).last() == allv[ci as int]);
        }
        let ghost kept_before = asset_views(kept@);
        if !a.empty() {
            kept.push(a);
            proof {
                assert(asset_views(kept@) =~= kept_before.push(allv[ci as int]));
            }
        }
        ci += 1;
    }
    proof {
        assert(allv.take(total as int) =~= allv);
    }
    AssetBundle::new(root.to_owned(), kept)
}

/// Resolution never produces two assets with one base name, and records each
/// role at most once per asset.
pub proof fn lemma_resolve_models_invariants(
    base_src: Seq<char>,
    matchers: Seq<(Seq<char>, Seq<char>)>,
    files: Seq<Seq<char>>,
)
    ensures
        models_distinct(resolve_models(base_src, matchers, files)),
        forall|i: int| 0 <= i < resolve_models(base_src, matchers, files).len() ==> alist_wf(
            #[trigger] resolve_models(base_src, matchers, files)[i].textures,
        ),
    decreases files.len(),
{
    if files.len() > 0 {
        let rest = files.drop_last();
        lemma_resolve_models_invariants(base_src, matchers, rest);
        let prev = resolve_models(base_src, matchers, rest);
        let cur = resolve_models(base_src, matchers, files);
        let last = files.last();
        let filename = spec_file_name(last);
        match pattern_capture(base_src, filename) {
            None => {},
            Some(b) => {
                if models_has_base(prev, b) {
                    let u = models_base_index(prev, b);
                    assert(0 <= u < prev.len() && prev[u].base == b);
                    lemma_apply_matchers_wf(prev[u].textures, matchers, filename, last);
                    assert(forall|i: int| 0 <= i < cur.len() ==> cur[i].base == prev[i].base);
                } else {
                    lemma_apply_matchers_wf(Seq::empty(), matchers, filename, last);
                }
            },
        }
    }
}

/// A file of base `b` that some matcher with role `id` accepts.
pub open spec fn file_sets(
    base_src: Seq<char>,
    matchers: Seq<(Seq<char>, Seq<char>)>,
    path: Seq<char>,
    b: Seq<char>,
    id: Seq<char>,
) -> bool {
    &&& pattern_capture(base_src, spec_file_name(path)) == Some(b)
    &&& matcher_sets(matchers, spec_file_name(path), id)
}

/// What an asset's role records say once the whole list is resolved: the
/// asset for base `b` carries role `id` exactly when some file of that base
/// sets it, and the recorded path is the path of the last such file.
pub proof fn lemma_resolve_roles(
    base_src: Seq<char>,
    matchers: Seq<(Seq<char>, Seq<char>)>,
    files: Seq<Seq<char>>,
    b: Seq<char>,
    id: Seq<char>,
)
    requires
        models_has_base(resolve_models(base_src, matchers, files), b),
    ensures
        alist_has(
            resolve_models(base_src, matchers, files)[models_base_index(
                resolve_models(base_src, matchers, files),
                b,
            )].textures,
            id,
        ) <==> exists|j: int|
            0 <= j < files.len() && file_sets(base_src, matchers, #[trigger] files[j], b, id),
        alist_has(
            resolve_models(base_src, matchers, files)[models_base_index(
                resolve_models(base_src, matchers, files),
                b,
            )].textures,
            id,
        ) ==> exists|j: int|
            {
                &&& 0 <= j < files.len()
                &&& file_sets(base_src, matchers, #[trigger] files[j], b, id)
                &&& alist_get(
                    resolve_models(base_src, matchers, files)[models_base_index(
                        resolve_models(base_src, matchers, files),
                        b,
                    )].textures,
                    id,
                ) == files[j]
                &&& forall|j2: int| j < j2 < files.len() ==> !file_sets(
                    base_src,
                    matchers,
                    #[trigger] files[j2],
                    b,
                    id,
                )
            },
    decreases files.len(),
{
    let cur = resolve_models(base_src, matchers, files);
    if files.len() == 0 {
        assert(false);
    } else {
        let rest = files.drop_last();
        let prev = resolve_models(base_src, matchers, rest);
        let last = files.last();
        let filename = spec_file_name(last);
        lemma_resolve_models_invariants(base_src, matchers, rest);
        lemma_resolve_models_invariants(base_src, matchers, files);
        let i = models_base_index(cur, b);
        assert(0 <= i < cur.len() && cur[i].base == b);
        assert(forall|j: int| 0 <= j < rest.len() ==> rest[j] == files[j]);
        match pattern_capture(base_src, filename) {
            None => {
                assert(cur == prev);
                lemma_resolve_roles(base_src, matchers, rest, b, id);
                assert(!file_sets(base_src, matchers, last, b, id));
                lemma_roles_extend(base_src, matchers, files, b, id);
            },
            Some(b2) => {
                if b2 == b {
                    if models_has_base(prev, b) {
                        let u = models_base_index(prev, b);
                        assert(0 <= u < prev.len() && prev[u].base == b);
                        assert(cur[u].base == b);
                        if i != u {
                            assert(cur[i] == prev[i]);
                            assert(prev[i].base == b);
                            assert(false);
                        }
                        assert(cur[i].textures == apply_matchers(
                            prev[u].textures,
                            matchers,
                            filename,
                            last,
                        ));
                        lemma_apply_matchers_roles(prev[u].textures, matchers, filename, last, id);
                        lemma_resolve_roles(base_src, matchers, rest, b, id);
                        if matcher_sets(matchers, filename, id) {
                            // The last file sets the role and wins.
                            assert(file_sets(base_src, matchers, files[files.len() - 1], b, id));
                            assert(alist_get(cur[i].textures, id) == last);
                        } else {
                            assert(!file_sets(base_src, matchers, last, b, id));
                            if alist_has(prev[u].textures, id) {
                                lemma_roles_extend(base_src, matchers, files, b, id);
                                assert(alist_get(cur[i].textures, id) == alist_get(
                                    prev[u].textures,
                                    id,
                                ));
                            }
                        }
                    } else {
                        // A fresh asset: only the last file contributes.
                        assert(i == prev.len());
                        assert(cur[i].textures == apply_matchers(
                            Seq::empty(),
                            matchers,
                            filename,
                            last,
                        ));
                        lemma_apply_matchers_roles(Seq::empty(), matchers, filename, last, id);
                        assert(!alist_has(Seq::empty(), id));
                        lemma_resolve_membership(base_src, matchers, rest, b);
                        assert(forall|j: int| 0 <= j < rest.len() ==> !file_sets(
                            base_src,
                            matchers,
                            #[trigger] files[j],
                            b,
                            id,
                        ));
                        if matcher_sets(matchers, filename, id) {
                            assert(file_sets(base_src, matchers, files[files.len() - 1], b, id));
                            assert(alist_get(cur[i].textures, id) == last);
                        }
                    }
                } else {
                    // The last file belongs to another asset; the one for `b`
                    // is untouched.
                    if models_has_base(prev, b2) {
                        let u = models_base_index(prev, b2);
                        assert(0 <= u < prev.len() && prev[u].base == b2);
                        if i == u {
                            assert(cur[i].base == b2);
                            assert(false);
                        }
                        assert(cur[i] == prev[i]);
                    } else {
                        if i == prev.len() {
                            assert(cur[i].base == b2);
                            assert(false);
                        }
                        assert(cur[i] == prev[i]);
                    }
                    assert(models_has_base(prev, b));
                    lemma_resolve_models_invariants(base_src, matchers, rest);
                    let up = models_base_index(prev, b);
                    assert(0 <= up < prev.len() && prev[up].base == b);
                    if up < i {
                        assert(false);
                    }
                    if i < up {
                        assert(false);
                    }
                    lemma_resolve_roles(base_src, matchers, rest, b, id);
                    assert(!file_sets(base_src, matchers, last, b, id));
                    lemma_roles_extend(base_src, matchers, files, b, id);
                }
            },
        }
    }
}

/// Extends a last-setter witness over `files.drop_last()` to one over
/// `files`, when the dropped file does not set the role, and carries the
/// role's recorded value along unchanged.
proof fn lemma_roles_extend(
    base_src: Seq<char>,
    matchers: Seq<(Seq<char>, Seq<char>)>,
    files: Seq<Seq<char>>,
    b: Seq<char>,
    id: Seq<char>,
)
    requires
        files.len() > 0,
        !file_sets(base_src, matchers, files.last(), b, id),
    ensures
        (exists|j: int|
            0 <= j < files.drop_last().len() && file_sets(
                base_src,
                matchers,
                #[trigger] files.drop_last()[j],
                b,
                id,
            )) <==> (exists|j: int|
            0 <= j < files.len() && file_sets(base_src, matchers, #[trigger] files[j], b, id)),
{
    let rest = files.drop_last();
    assert(forall|j: int| 0 <= j < rest.len() ==> rest[j] == files[j]);
    if exists|j: int|
        0 <= j < files.len() && file_sets(base_src, matchers, #[trigger] files[j], b, id) {
        let j = choose|j: int|
            0 <= j < files.len() && file_sets(base_src, matchers, #[trigger] files[j], b, id);
        assert(files[files.len() - 1] == files.last());
        assert(j < files.len() - 1);
        assert(rest[j] == files[j]);
        assert(file_sets(base_src, matchers, rest[j], b, id));
    }
    if exists|j: int|
        0 <= j < rest.len() && file_sets(base_src, matchers, #[trigger] rest[j], b, id) {
        let j = choose|j: int|
            0 <= j < rest.len() && file_sets(base_src, matchers, #[trigger] rest[j], b, id);
        assert(files[j] == rest[j]);
        assert(file_sets(base_src, matchers, files[j], b, id));
    }
}

/// An asset with base name `b` comes out of resolution exactly when the base
/// pattern captures `b` out of some file's name.
pub proof fn lemma_resolve_membership(
    base_src: Seq<char>,
    matchers: Seq<(Seq<char>, Seq<char>)>,
    files: Seq<Seq<char>>,
    b: Seq<char>,
)
    ensures
        models_has_base(resolve_models(base_src, matchers, files), b) <==> exists|j: int|
            0 <= j < files.len() && pattern_capture(base_src, spec_file_name(files[j])) == Some(b),
    decreases files.len(),
{
    if files.len() == 0 {
    } else {
        let rest = files.drop_last();
        lemma_resolve_membership(base_src, matchers, rest, b);
        let prev = resolve_models(base_src, matchers, rest);
        let cur = resolve_models(base_src, matchers, files);
        let last = files.last();
        let cap = pattern_capture(base_src, spec_file_name(last));
        if models_has_base(cur, b) {
            if cap == Some(b) {
                assert(pattern_capture(base_src, spec_file_name(files[files.len() - 1])) == Some(
                    b,
                ));
            } else {
                let i = choose|i: int| 0 <= i < cur.len() && cur[i].base == b;
                match cap {
                    None => {
                        assert(prev[i].base == b);
                    },
                    Some(b2) => {
                        if models_has_base(prev, b2) {
                            let u = models_base_index(prev, b2);
                            assert(0 <= u < prev.len() && prev[u].base == b2);
                            if i == u {
                                assert(cur[i].base == b2);
                                assert(false);
                            }
                            assert(prev[i].base == b);
                        } else {
                            if i < prev.len() {
                                assert(prev[i].base == b);
                            } else {
                                assert(cur[i].base == b2);
                                assert(false);
                            }
                        }
                    },
                }
                assert(models_has_base(prev, b));
                let j = choose|j: int|
                    0 <= j < rest.len() && pattern_capture(base_src, spec_file_name(rest[j]))
                        == Some(b);
                assert(files[j] == rest[j]);
            }
        }
        if exists|j: int|
            0 <= j < files.len() && pattern_capture(base_src, spec_file_name(files[j])) == Some(
            b,
        ) {
            let j = choose|j: int|
                0 <= j < files.len() && pattern_capture(base_src, spec_file_name(files[j]))
                    == Some(b);
            if j == files.len() - 1 {
                assert(cap == Some(b));
                match cap {
                    None => {},
                    Some(b2) => {
                        if models_has_base(prev, b2) {
                            let u = models_base_index(prev, b2);
                            assert(cur[u].base == b2);
                        } else {
                            assert(cur[cur.len() - 1].base == b2);
                        }
                        assert(models_has_base(cur, b));
                    },
                }
            } else {
                assert(rest[j] == files[j]);
                assert(models_has_base(prev, b));
                let i = models_base_index(prev, b);
                assert(0 <= i < prev.len() && prev[i].base == b);
                match cap {
                    None => {
                        assert(cur[i].base == b);
                    },
                    Some(b2) => {
                        if models_has_base(prev, b2) {
                            let u = models_base_index(prev, b2);
                            if u == i {
                                assert(cur[u].base == b2);
                                assert(b2 == b);
                            } else {
                                assert(cur[i].base == b);
                            }
                        } else {
                            assert(cur[i].base == b);
                        }
                    },
                }
                assert(models_has_base(cur, b));
            }
        }
    }
}

} // verus!
