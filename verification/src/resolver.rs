//! Fixed-role texture resolution.
//!
//! A small preset pipeline beside the configurable reader: files are grouped
//! by the part of their name before the last underscore, classified into the
//! fixed roles albedo, roughness and metalness, and a swizzler turns each
//! group into a ready-made swizzle command.

use crate::paths::str_eq;
use crate::pattern::{pattern_compiles, pattern_matches, Pattern};
use crate::session::writer::spec_slots;
use vstd::prelude::*;

verus! {

/// The texture paths found for one base name, by fixed role.
#[derive(Debug)]
pub struct Textures {
    pub albedo: Option<String>,
    pub roughness: Option<String>,
    pub metalness: Option<String>,
}

/// The mathematical content of a [`Textures`] record.
#[verifier::ext_equal]
pub ghost struct TexturesModel {
    pub albedo: Option<Seq<char>>,
    pub roughness: Option<Seq<char>>,
    pub metalness: Option<Seq<char>>,
}

impl View for Textures {
    type V = TexturesModel;

    open spec fn view(&self) -> TexturesModel {
        TexturesModel {
            albedo: match self.albedo {
                Some(ref a) => Some(a@),
                None => None,
            },
            roughness: match self.roughness {
                Some(ref r) => Some(r@),
                None => None,
            },
            metalness: match self.metalness {
                Some(ref m) => Some(m@),
                None => None,
            },
        }
    }
}

impl Textures {
    /// A record with no texture found yet.
    pub fn new() -> (r: Textures)
        ensures
            r@.albedo is None,
            r@.roughness is None,
            r@.metalness is None,
    {
        Textures { albedo: None, roughness: None, metalness: None }
    }
}

/// `i` is the position of the last `_` of `s`.
pub open spec fn is_last_underscore(s: Seq<char>, i: int) -> bool {
    &&& 0 <= i < s.len()
    &&& s[i] == '_'
    &&& forall|j: int| i < j < s.len() ==> s[j] != '_'
}

/// `s` contains an `_`.
pub open spec fn has_underscore(s: Seq<char>) -> bool {
    exists|i: int| is_last_underscore(s, i)
}

/// Everything before the last `_` of `s`.
pub open spec fn spec_base_of(s: Seq<char>) -> Seq<char> {
    s.take(choose|i: int| is_last_underscore(s, i))
}

proof fn lemma_last_underscore_unique(s: Seq<char>, i: int)
    requires
        is_last_underscore(s, i),
    ensures
        has_underscore(s),
        spec_base_of(s) == s.take(i),
{
    let i2 = choose|k: int| is_last_underscore(s, k);
    assert(is_last_underscore(s, i2));
    if i2 < i {
        assert(s[i] != '_');
        assert(false);
    }
    if i < i2 {
        assert(s[i2] != '_');
        assert(false);
    }
}

/// The pattern sources the fixed roles are recognized by.
pub open spec fn spec_rough_src() -> Seq<char> {
    "(?i)rough(ness)?"@
}

pub open spec fn spec_metal_src() -> Seq<char> {
    "(?i)metal(ness)?"@
}

/// One file folded into the groups: the group keyed by the file's base name
/// — a fresh one when none exists — records the file under the first fixed
/// role whose pattern matches, roughness before metalness.
pub open spec fn tex_step(
    acc: Seq<(Seq<char>, TexturesModel)>,
    f: Seq<char>,
) -> Seq<(Seq<char>, TexturesModel)> {
    let base = spec_base_of(f);
    let found = exists|k: int| 0 <= k < acc.len() && acc[k].0 == base;
    let cur = if found {
        acc[choose|k: int| 0 <= k < acc.len() && acc[k].0 == base].1
    } else {
        TexturesModel { albedo: None, roughness: None, metalness: None }
    };
    let updated = if pattern_matches(spec_rough_src(), f) {
        TexturesModel { roughness: Some(f), ..cur }
    } else if pattern_matches(spec_metal_src(), f) {
        TexturesModel { metalness: Some(f), ..cur }
    } else {
        cur
    };
    if found {
        acc.update(choose|k: int| 0 <= k < acc.len() && acc[k].0 == base, (base, updated))
    } else {
        acc.push((base, updated))
    }
}

/// The groups obtained by folding `files` in order.
pub open spec fn tex_fold(files: Seq<Seq<char>>) -> Seq<(Seq<char>, TexturesModel)>
    decreases files.len(),
{
    if files.len() == 0 {
        Seq::empty()
    } else {
        tex_step(tex_fold(files.drop_last()), files.last())
    }
}

/// The models of a group list.
pub open spec fn tex_views(s: Seq<(String, Textures)>) -> Seq<(Seq<char>, TexturesModel)> {
    s.map_values(|t: (String, Textures)| (t.0@, t.1@))
}

/// Group keys are unique.
pub open spec fn tex_distinct(s: Seq<(Seq<char>, TexturesModel)>) -> bool {
    forall|i: int, j: int| 0 <= i < j < s.len() ==> s[i].0 != s[j].0
}

/// Groups texture files by the part of their name before the last
/// underscore and classifies them into the fixed roles.
pub trait TexturesResolver {
    /// Resolves `files` into one group per base name. Every file must
    /// contain an underscore. Fails exactly when a fixed role pattern does
    /// not compile — so either on every input or on none.
    fn resolve_textures(&self, files: &Vec<String>) -> (r: Option<Vec<(String, Textures)>>)
        requires
            forall|i: int| 0 <= i < files@.len() ==> has_underscore(
                #[trigger] files@[i].deep_view(),
            ),
        ensures
            r is Some <==> pattern_compiles(spec_rough_src()) && pattern_compiles(
                spec_metal_src(),
            ),
            r matches Some(groups) ==> tex_views(groups@) == tex_fold(files.deep_view()),
    ;
}

/// The stock [`TexturesResolver`].
pub struct DefaultTexturesResolver {}

impl DefaultTexturesResolver {
    pub fn new() -> DefaultTexturesResolver {
        DefaultTexturesResolver {  }
    }
}

impl TexturesResolver for DefaultTexturesResolver {
    fn resolve_textures(&self, files: &Vec<String>) -> (r: Option<Vec<(String, Textures)>>) {
        let rough = match Pattern::compile("(?i)rough(ness)?") {
            Some(p) => p,
            None => {
                return None;
            },
        };
        let metal = match Pattern::compile("(?i)metal(ness)?") {
            Some(p) => p,
            None => {
                return None;
            },
        };
        let ghost fls = files.deep_view();
        let mut groups: Vec<(String, Textures)> = Vec::new();
        proof {
            assert(fls.take(0) =~= Seq::<Seq<char>>::empty());
            assert(tex_views(groups@) =~= Seq::<(Seq<char>, TexturesModel)>::empty());
        }
        let nf = files.len();
        let mut fi: usize = 0;
        while fi < nf
            invariant
                0 <= fi <= nf,
                nf == files@.len(),
                fls == files.deep_view(),
                rough.spec_source() == spec_rough_src(),
                metal.spec_source() == spec_metal_src(),
                forall|i: int| 0 <= i < files@.len() ==> has_underscore(
                    #[trigger] files@[i].deep_view(),
                ),
                tex_views(groups@) == tex_fold(fls.take(fi as int)),
                tex_distinct(tex_views(groups@)),
            decreases nf - fi,
        {
            let f: &String = &files[fi];
            proof {
                assert(fls[fi as int] == f@);
                assert(has_underscore(f@));
            }
            let ghost before = tex_views(groups@);
            // The base name: everything before the last underscore.
            let n = f.as_str().unicode_len();
            let mut k: usize = n;
            let mut base_end: usize = 0;
            let mut seen: bool = false;
            while k > 0
                invariant
                    0 <= k <= n,
                    n == f@.len(),
                    seen ==> base_end < n && is_last_underscore(f@, base_end as int),
                    !seen ==> forall|j: int| k <= j < n ==> f@[j] != '_',
                decreases k,
            {
                if !seen && f.as_str().get_char(k - 1) == '_' {
                    seen = true;
                    base_end = k - 1;
                }
                k -= 1;
            }
            proof {
                if !seen {
                    assert(forall|i: int| !is_last_underscore(f@, i));
                    assert(false);
                }
                lemma_last_underscore_unique(f@, base_end as int);
            }
            let base: String = f.as_str().substring_char(0, base_end).to_owned();
            let ghost b = base@;
            // Find or create the group for this base.
            let ng = groups.len();
            let mut gi: usize = 0;
            let mut found: bool = false;
            let mut idx: usize = 0;
            while gi < ng
                invariant
                    0 <= gi <= ng,
                    ng == groups@.len(),
                    b == base@,
                    !found ==> forall|i: int| 0 <= i < gi ==> tex_views(groups@)[i].0 != b,
                    found ==> 0 <= idx < ng && tex_views(groups@)[idx as int].0 == b,
                decreases ng - gi,
            {
                if !found {
                    let g = &groups[gi];
                    if str_eq(g.0.as_str(), base.as_str()) {
                        found = true;
                        idx = gi;
                    }
                }
                gi += 1;
            }
            let entry: (String, Textures) = if found {
                groups.remove(idx)
            } else {
                (base, Textures::new())
            };
            let ghost cur = entry.1@;
            let mut tex = entry.1;
            if rough.is_match(f.as_str()) {
                tex = Textures { roughness: Some(f.clone()), ..tex };
            } else if metal.is_match(f.as_str()) {
                tex = Textures { metalness: Some(f.clone()), ..tex };
            }
            let updated: (String, Textures) = (entry.0, tex);
            if found {
                groups.insert(idx, updated);
            } else {
                groups.push(updated);
            }
            proof {
                if found {
                    let ci = choose|k: int| 0 <= k < before.len() && before[k].0 == b;
                    assert(0 <= ci < before.len() && before[ci].0 == b);
                    if ci < idx as int {
                        assert(false);
                    }
                    if (idx as int) < ci {
                        assert(false);
                    }
                    assert(tex_views(groups@) =~= tex_step(before, fls[fi as int]));
                } else {
                    assert(!exists|k: int| 0 <= k < before.len() && before[k].0 == b);
                    assert(tex_views(groups@) =~= tex_step(before, fls[fi as int]));
                }
                assert(tex_distinct(tex_views(groups@)));
                assert(fls.take(fi as int + 1).drop_last() =~= fls.take(fi as int));
                assert(fls.take(fi as int + 1).last() == fls[fi as int]);
            }
            fi += 1;
        }
        proof {
            assert(fls.take(nf as int) =~= fls);
        }
        Some(groups)
    }
}

/// Turns one resolved texture group into ready-made swizzle commands.
pub trait Swizzler {
    /// The command this swizzler emits for one group, if the group's
    /// textures suffice.
    spec fn spec_command(&self, textures: TexturesModel) -> Option<Seq<Option<(Seq<char>, u8)>>>;

    /// Appends the commands for `textures` to `out`.
    fn swizzle(&self, out: &mut Vec<Vec<Option<(String, u8)>>>, textures: &Textures)
        ensures
            match self.spec_command(textures@) {
                Some(cmd) => final(out)@.len() == old(out)@.len() + 1 && spec_slots(
                    final(out)@.last()@,
                ) == cmd && final(out)@.drop_last() == old(out)@,
                None => final(out)@ == old(out)@,
            },
    ;
}

/// Packs metalness into the first channel and roughness into the fourth, the
/// layout Unity's standard shader reads masks from.
pub struct UnitySwizzler {}

impl Swizzler for UnitySwizzler {
    open spec fn spec_command(&self, textures: TexturesModel) -> Option<
        Seq<Option<(Seq<char>, u8)>>,
    > {
        match (textures.metalness, textures.roughness) {
            (Some(m), Some(r)) => Some(
                seq![
                    Some((m, 0u8)),
                    None::<(Seq<char>, u8)>,
                    None::<(Seq<char>, u8)>,
                    Some((r, 0u8)),
                ],
            ),
            _ => None,
        }
    }

    fn swizzle(&self, out: &mut Vec<Vec<Option<(String, u8)>>>, textures: &Textures) {
        match (&textures.metalness, &textures.roughness) {
            (Some(m), Some(r)) => {
                let mut cmd: Vec<Option<(String, u8)>> = Vec::new();
                cmd.push(Some((m.clone(), 0u8)));
                cmd.push(None);
                cmd.push(None);
                cmd.push(Some((r.clone(), 0u8)));
                proof {
                    assert(spec_slots(cmd@) =~= self.spec_command(textures@)->Some_0);
                }
                let ghost before = out@;
                out.push(cmd);
                proof {
                    assert(out@.drop_last() =~= before);
                }
            },
            _ => {},
        }
    }
}

} // verus!
