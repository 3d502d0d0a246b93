//! Output targets.
//!
//! A target is a recipe: for each of up to four output channels, which role
//! and source channel to pull from an asset, plus an output format and an
//! optional file-name suffix. Generating pairs each declared slot with the
//! decoded image of the role's recorded file and feeds the slots to the
//! swizzle engine.

use crate::errors::ErrorKind;
use crate::format::OutputFormat;
use crate::raster::Image;
use crate::session::reader::{alist_get, alist_has, Asset, GenericAsset};
use crate::swizzle::{
    default_sample, is_present, some_present, spec_swizzle_sample, swizzle_post, ChannelDescriptor,
};
use vstd::prelude::*;

verus! {

/// How many of the declared slots a swizzle can use: at most four.
pub open spec fn used_slots(n: int) -> int {
    if n <= 4 {
        n
    } else {
        4
    }
}

/// Slot `i` is declared and its role's file was decoded.
pub open spec fn slot_filled(
    inputs: Seq<Option<(Seq<char>, u8)>>,
    sources: Seq<Option<Image>>,
    i: int,
) -> bool {
    0 <= i < inputs.len() && inputs[i] is Some && sources[i] is Some
}

/// Some slot is declared and filled.
pub open spec fn gen_some_filled(
    inputs: Seq<Option<(Seq<char>, u8)>>,
    sources: Seq<Option<Image>>,
) -> bool {
    exists|i: int| slot_filled(inputs, sources, i)
}

/// All filled slots carry images of one common size.
pub open spec fn gen_dims_agree(
    inputs: Seq<Option<(Seq<char>, u8)>>,
    sources: Seq<Option<Image>>,
) -> bool {
    forall|i: int, j: int|
        #![trigger slot_filled(inputs, sources, i), slot_filled(inputs, sources, j)]
        slot_filled(inputs, sources, i) && slot_filled(inputs, sources, j) ==> {
            &&& sources[i]->Some_0.spec_width() == sources[j]->Some_0.spec_width()
            &&& sources[i]->Some_0.spec_height() == sources[j]->Some_0.spec_height()
        }
}

/// Every filled slot asks for a channel its image actually has.
pub open spec fn gen_channels_ok(
    inputs: Seq<Option<(Seq<char>, u8)>>,
    sources: Seq<Option<Image>>,
) -> bool {
    forall|i: int| #[trigger] slot_filled(inputs, sources, i) ==> inputs[i]->Some_0.1
        < sources[i]->Some_0.spec_channels()
}

/// The value channel `i` of the output pixel at `(x, y)` must hold.
pub open spec fn gen_sample(
    inputs: Seq<Option<(Seq<char>, u8)>>,
    sources: Seq<Option<Image>>,
    x: int,
    y: int,
    i: int,
) -> u8 {
    if slot_filled(inputs, sources, i) {
        sources[i]->Some_0.spec_sample(x, y, inputs[i]->Some_0.1 as int)
    } else {
        default_sample(inputs.len() as int, i)
    }
}

/// What generating from declared slots and their decoded sources returns:
/// success exactly when some slot is filled, all filled slots agree on
/// dimensions and every requested channel exists; the output then has one
/// channel per slot, the common dimensions, and every sample pinned by
/// [`gen_sample`]. Otherwise the error names the first failed condition, in
/// that order.
pub open spec fn generate_post(
    inputs: Seq<Option<(Seq<char>, u8)>>,
    sources: Seq<Option<Image>>,
    r: Result<Image, ErrorKind>,
) -> bool {
    match r {
        Ok(out) => {
            &&& gen_some_filled(inputs, sources)
            &&& gen_dims_agree(inputs, sources)
            &&& gen_channels_ok(inputs, sources)
            &&& out.spec_channels() == inputs.len()
            &&& forall|i: int| #[trigger] slot_filled(inputs, sources, i) ==> {
                &&& sources[i]->Some_0.spec_width() == out.spec_width()
                &&& sources[i]->Some_0.spec_height() == out.spec_height()
            }
            &&& out.spec_data().len() == (out.spec_width() as int) * (out.spec_height() as int)
                * (inputs.len() as int)
            &&& forall|x: int, y: int, c: int|
                0 <= x < out.spec_width() && 0 <= y < out.spec_height() && 0 <= c < inputs.len()
                    ==> #[trigger] out.spec_sample(x, y, c) == gen_sample(inputs, sources, x, y, c)
        },
        Err(e) => {
            &&& !(gen_some_filled(inputs, sources) && gen_dims_agree(inputs, sources)
                && gen_channels_ok(inputs, sources))
            &&& e == (if !gen_some_filled(inputs, sources) {
                ErrorKind::EmptyDescriptor
            } else if !gen_dims_agree(inputs, sources) {
                ErrorKind::InvalidSize
            } else {
                ErrorKind::Invalid
            })
        },
    }
}

/// Generalized texture target: how to compose one output image out of an
/// asset's textures.
pub trait Target {
    /// The optional file-name suffix.
    spec fn spec_name(&self) -> Option<Seq<char>>;

    /// The output encoding.
    spec fn spec_format(&self) -> OutputFormat;

    /// The declared input slots: role and source channel, or nothing.
    spec fn spec_inputs(&self) -> Seq<Option<(Seq<char>, u8)>>;

    /// The file name a generated texture gets: the asset's base name followed
    /// by the suffix.
    fn get_filename(&self, asset: &GenericAsset) -> (r: String)
        ensures
            r@ == asset@.base + (match self.spec_name() {
                Some(n) => n,
                None => Seq::<char>::empty(),
            }),
    ;

    /// The encoding this target saves in.
    fn get_format(&self) -> (r: OutputFormat)
        ensures
            r == self.spec_format(),
    ;

    /// The path recorded on `asset` for each declared slot's role: nothing
    /// for an undeclared slot or an absent role.
    fn input_paths(&self, asset: &GenericAsset) -> (r: Vec<Option<String>>)
        ensures
            r@.len() == self.spec_inputs().len(),
            forall|i: int| 0 <= i < r@.len() ==> r@[i].deep_view() == (match self.spec_inputs()[i] {
                Some(slot) => if alist_has(asset@.textures, slot.0) {
                    Some(alist_get(asset@.textures, slot.0))
                } else {
                    None::<Seq<char>>
                },
                None => None::<Seq<char>>,
            }),
    ;

    /// Swizzles the decoded sources, one per slot, into the output image.
    fn generate(&self, sources: &Vec<Option<Image>>) -> (r: Result<Image, ErrorKind>)
        requires
            sources@.len() == self.spec_inputs().len(),
        ensures
            self.spec_inputs().len() == 0 ==> r == Result::<Image, ErrorKind>::Err(
                ErrorKind::NoInputs,
            ),
            self.spec_inputs().len() > 0 ==> generate_post(
                self.spec_inputs().take(used_slots(self.spec_inputs().len() as int)),
                sources@.take(used_slots(self.spec_inputs().len() as int)),
                r,
            ),
    ;
}

/// Generic implementation of the [`Target`] trait: plain data, built at run
/// time, for instance from a configuration file.
pub struct GenericTarget {
    /// Suffix appended to the asset's base name in the output file name.
    pub name: Option<String>,
    /// Encoding used when the texture is saved.
    pub output_format: OutputFormat,
    /// Swizzling inputs, one per output channel.
    pub inputs: Vec<Option<(String, u8)>>,
}

impl GenericTarget {
    /// A target reading the given slots, saved as PNG, with no suffix.
    pub fn new(inputs: Vec<Option<(String, u8)>>) -> (r: GenericTarget)
        ensures
            r.spec_name() is None,
            r.spec_format() == OutputFormat::Png,
            r.spec_inputs() == spec_slots(inputs@),
    {
        GenericTarget { name: None, output_format: OutputFormat::Png, inputs }
    }

    /// Sets the file-name suffix.
    pub fn set_name(self, name: String) -> (r: GenericTarget)
        ensures
            r.spec_name() == Some(name@),
            r.spec_format() == self.spec_format(),
            r.spec_inputs() == self.spec_inputs(),
    {
        GenericTarget { name: Some(name), ..self }
    }

    /// Sets the output encoding.
    pub fn set_output_format(self, format: OutputFormat) -> (r: GenericTarget)
        ensures
            r.spec_name() == self.spec_name(),
            r.spec_format() == format,
            r.spec_inputs() == self.spec_inputs(),
    {
        GenericTarget { output_format: format, ..self }
    }
}

/// The model of a slot list: each slot's role name and channel index.
pub open spec fn spec_slots(inputs: Seq<Option<(String, u8)>>) -> Seq<Option<(Seq<char>, u8)>> {
    inputs.map_values(
        |o: Option<(String, u8)>|
            match o {
                Some(p) => Some((p.0@, p.1)),
                None => None::<(Seq<char>, u8)>,
            },
    )
}

impl Target for GenericTarget {
    open spec fn spec_name(&self) -> Option<Seq<char>> {
        match self.name {
            Some(n) => Some(n@),
            None => None,
        }
    }

    open spec fn spec_format(&self) -> OutputFormat {
        self.output_format
    }

    open spec fn spec_inputs(&self) -> Seq<Option<(Seq<char>, u8)>> {
        spec_slots(self.inputs@)
    }

    fn get_filename(&self, asset: &GenericAsset) -> (r: String) {
        let mut filename = asset.get_base().to_owned();
        match &self.name {
            Some(n) => {
                filename.append(n.as_str());
            },
            None => {},
        }
        filename
    }

    fn get_format(&self) -> (r: OutputFormat) {
        self.output_format
    }

    fn input_paths(&self, asset: &GenericAsset) -> (r: Vec<Option<String>>) {
        let n = self.inputs.len();
        let mut out: Vec<Option<String>> = Vec::new();
        let mut i: usize = 0;
        while i < n
            invariant
                0 <= i <= n,
                n == self.inputs@.len(),
                out@.len() == i,
                forall|j: int| 0 <= j < i ==> out@[j].deep_view() == (match self.spec_inputs()[j] {
                    Some(slot) => if alist_has(asset@.textures, slot.0) {
                        Some(alist_get(asset@.textures, slot.0))
                    } else {
                        None::<Seq<char>>
                    },
                    None => None::<Seq<char>>,
                }),
            decreases n - i,
        {
            match &self.inputs[i] {
                Some(input) => {
                    match asset.get_texture_path(&input.0) {
                        Some(p) => out.push(Some(p.clone())),
                        None => out.push(None),
                    }
                },
                None => out.push(None),
            }
            i += 1;
        }
        out
    }

    fn generate(&self, sources: &Vec<Option<Image>>) -> (r: Result<Image, ErrorKind>) {
        let n = self.inputs.len();
        if n == 0 {
            return Err(ErrorKind::NoInputs);
        }
        let k = if n <= 4 {
            n
        } else {
            4
        };
        let ghost tin = self.spec_inputs().take(k as int);
        let ghost tsrc = sources@.take(k as int);
        let mut descs: Vec<Option<ChannelDescriptor>> = Vec::new();
        let mut i: usize = 0;
        while i < k
            invariant
                0 <= i <= k,
                1 <= k <= 4,
                k <= n,
                n == self.inputs@.len(),
                n == sources@.len(),
                tin == self.spec_inputs().take(k as int),
                tsrc == sources@.take(k as int),
                descs@.len() == i,
                forall|j: int| 0 <= j < i ==> match #[trigger] descs@[j] {
                    Some(d) => {
                        &&& slot_filled(tin, tsrc, j)
                        &&& d.channel == tin[j]->Some_0.1
                        &&& *d.img == tsrc[j]->Some_0
                    },
                    None => !slot_filled(tin, tsrc, j),
                },
            decreases k - i,
        {
            let slot_channel: Option<u8> = match &self.inputs[i] {
                Some(input) => Some(input.1),
                None => None,
            };
            match (slot_channel, &sources[i]) {
                (Some(channel), Some(img)) => {
                    descs.push(Some(ChannelDescriptor { channel, img }));
                },
                _ => {
                    descs.push(None);
                },
            }
            i += 1;
        }
        let r = crate::swizzle::to_dynamic(&descs);
        proof {
            lemma_descs_post(tin, tsrc, descs@, r);
        }
        r
    }
}

/// A target whose declared roles are all absent from an asset — so no slot
/// has a decoded source — fails exactly that pair, with the empty-input
/// error; and a pair whose filled slots agree on dimensions and channels
/// always succeeds. One asset's missing role never disturbs another pair,
/// since each pair's result depends on its own slots and sources alone.
pub proof fn lemma_absent_roles_fail_alone(
    inputs: Seq<Option<(Seq<char>, u8)>>,
    sources: Seq<Option<Image>>,
    r: Result<Image, ErrorKind>,
)
    requires
        generate_post(inputs, sources, r),
    ensures
        !gen_some_filled(inputs, sources) ==> r == Result::<Image, ErrorKind>::Err(
            ErrorKind::EmptyDescriptor,
        ),
        gen_some_filled(inputs, sources) && gen_dims_agree(inputs, sources) && gen_channels_ok(
            inputs,
            sources,
        ) ==> r is Ok,
{
}

/// Two generation results over the same slots and sources are
/// interchangeable: the same error, or images that agree on dimensions and
/// channel count and hold identical bytes. Re-running a target over unchanged
/// inputs changes nothing.
pub proof fn lemma_generate_deterministic(
    inputs: Seq<Option<(Seq<char>, u8)>>,
    sources: Seq<Option<Image>>,
    r1: Result<Image, ErrorKind>,
    r2: Result<Image, ErrorKind>,
)
    requires
        generate_post(inputs, sources, r1),
        generate_post(inputs, sources, r2),
    ensures
        r1 is Ok <==> r2 is Ok,
        r1 is Err ==> r1->Err_0 == r2->Err_0,
        r1 is Ok ==> {
            &&& r1->Ok_0.spec_width() == r2->Ok_0.spec_width()
            &&& r1->Ok_0.spec_height() == r2->Ok_0.spec_height()
            &&& r1->Ok_0.spec_channels() == r2->Ok_0.spec_channels()
            &&& r1->Ok_0.spec_data() == r2->Ok_0.spec_data()
        },
{
    if r1 is Ok && r2 is Ok {
        let a = r1->Ok_0;
        let b = r2->Ok_0;
        let i0 = choose|i: int| slot_filled(inputs, sources, i);
        assert(slot_filled(inputs, sources, i0));
        let w: int = a.spec_width() as int;
        let h: int = a.spec_height() as int;
        let ni: int = inputs.len() as int;
        assert(b.spec_width() == w && b.spec_height() == h);
        assert forall|k: int| 0 <= k < a.spec_data().len() implies a.spec_data()[k]
            == b.spec_data()[k] by {
            Image::lemma_flat_index_decompose(w, h, ni, k);
            let c: int = k % ni;
            let x: int = (k / ni) % w;
            let yy: int = (k / ni) / w;
            Image::lemma_sample_is_data(a, x, yy, c);
            Image::lemma_sample_is_data(b, x, yy, c);
            assert(a.spec_sample(x, yy, c) == gen_sample(inputs, sources, x, yy, c));
            assert(b.spec_sample(x, yy, c) == gen_sample(inputs, sources, x, yy, c));
        }
        assert(a.spec_data() =~= b.spec_data());
    }
}

/// Pointwise-matching descriptors give a swizzle result that meets
/// [`generate_post`].
proof fn lemma_descs_post(
    tin: Seq<Option<(Seq<char>, u8)>>,
    tsrc: Seq<Option<Image>>,
    descs: Seq<Option<ChannelDescriptor>>,
    r: Result<Image, ErrorKind>,
)
    requires
        tin.len() == tsrc.len(),
        descs.len() == tin.len(),
        1 <= descs.len() <= 4,
        forall|j: int| 0 <= j < descs.len() ==> match #[trigger] descs[j] {
            Some(d) => {
                &&& slot_filled(tin, tsrc, j)
                &&& d.channel == tin[j]->Some_0.1
                &&& *d.img == tsrc[j]->Some_0
            },
            None => !slot_filled(tin, tsrc, j),
        },
        swizzle_post(descs, r),
    ensures
        generate_post(tin, tsrc, r),
{
    assert forall|i: int| is_present(descs, i) == slot_filled(tin, tsrc, i) by {
        if 0 <= i < descs.len() {
            assert(match descs[i] {
                Some(d) => slot_filled(tin, tsrc, i),
                None => !slot_filled(tin, tsrc, i),
            });
        }
    }
    assert(some_present(descs) == gen_some_filled(tin, tsrc)) by {
        if some_present(descs) {
            let i = choose|i: int| is_present(descs, i);
            assert(slot_filled(tin, tsrc, i));
        }
        if gen_some_filled(tin, tsrc) {
            let i = choose|i: int| slot_filled(tin, tsrc, i);
            assert(is_present(descs, i));
        }
    }
    assert(crate::swizzle::dims_agree(descs) == gen_dims_agree(tin, tsrc)) by {
        if crate::swizzle::dims_agree(descs) {
            assert forall|i: int, j: int|
                slot_filled(tin, tsrc, i) && slot_filled(tin, tsrc, j) implies {
                &&& tsrc[i]->Some_0.spec_width() == tsrc[j]->Some_0.spec_width()
                &&& tsrc[i]->Some_0.spec_height() == tsrc[j]->Some_0.spec_height()
            } by {
                assert(is_present(descs, i) && is_present(descs, j));
            }
        }
        if gen_dims_agree(tin, tsrc) {
            assert forall|i: int, j: int| is_present(descs, i) && is_present(descs, j) implies {
                &&& descs[i]->Some_0.img.spec_width() == descs[j]->Some_0.img.spec_width()
                &&& descs[i]->Some_0.img.spec_height() == descs[j]->Some_0.img.spec_height()
            } by {
                assert(slot_filled(tin, tsrc, i) && slot_filled(tin, tsrc, j));
            }
        }
    }
    assert(crate::swizzle::channels_in_range(descs) == gen_channels_ok(tin, tsrc)) by {
        if crate::swizzle::channels_in_range(descs) {
            assert forall|i: int| slot_filled(tin, tsrc, i) implies tin[i]->Some_0.1
                < tsrc[i]->Some_0.spec_channels() by {
                assert(is_present(descs, i));
            }
        }
        if gen_channels_ok(tin, tsrc) {
            assert forall|i: int| is_present(descs, i) implies descs[i]->Some_0.channel
                < descs[i]->Some_0.img.spec_channels() by {
                assert(slot_filled(tin, tsrc, i));
            }
        }
    }
    match r {
        Ok(out) => {
            assert forall|i: int| #[trigger] slot_filled(tin, tsrc, i) implies {
                &&& tsrc[i]->Some_0.spec_width() == out.spec_width()
                &&& tsrc[i]->Some_0.spec_height() == out.spec_height()
            } by {
                assert(is_present(descs, i));
            }
            assert forall|x: int, y: int, c: int|
                0 <= x < out.spec_width() && 0 <= y < out.spec_height() && 0 <= c
                    < tin.len() implies #[trigger] out.spec_sample(x, y, c) == gen_sample(
                tin,
                tsrc,
                x,
                y,
                c,
            ) by {
                assert(out.spec_sample(x, y, c) == spec_swizzle_sample(descs, x, y, c));
                assert(match descs[c] {
                    Some(d) => slot_filled(tin, tsrc, c) && d.channel == tin[c]->Some_0.1
                        && *d.img == tsrc[c]->Some_0,
                    None => !slot_filled(tin, tsrc, c),
                });
            }
        },
        Err(_) => {},
    }
}

} // verus!
