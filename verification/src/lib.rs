//! In-memory representation of 3D scene assets: colors, materials, geometry
//! entries, models and scenes, meant to be filled in by file-format loaders
//! and read by renderers or editors. The library's own responsibilities are
//! the reversible packed-color codec and the identity-based deduplication of
//! shared materials across an asset graph.
//!
//! Materials are shared through reference-counted handles meant for
//! single-threaded construction and use; sharing a scene across threads
//! would need an atomically counted, immutable-after-construction handle
//! instead.

use std::rc::Rc;
use vstd::prelude::*;

pub mod color;

pub use crate::color::{Color, ColorConversionError};

verus! {

/// An appearance descriptor shared by reference among geometry entries.
/// Sharing is by identity, not by value: every material carries a stable
/// opaque `id`, assigned once at creation, and two materials are the same
/// material exactly when their ids are equal. Distinct instances with equal
/// remaining fields stay distinct.
#[derive(Clone, Debug)]
pub struct PbrMaterial {
    /// The material's identity: loaders assign each created material its own
    /// id and never reuse one.
    pub id: u64,
    /// Name.
    pub name: String,
    /// Base color.
    pub albedo: Color,
}

/// A unit of mesh data, optionally tied to one shared material.
#[derive(Clone, Debug)]
pub struct TriMesh {
    /// Name.
    pub name: String,
    /// The shared material this geometry is rendered with, if any. Many
    /// geometry entries may hold handles to the same material instance.
    pub material: Option<Rc<PbrMaterial>>,
}

/// One track of animation key frames. Its contents are produced and consumed
/// by loaders and players; the asset graph only keeps the tracks in order.
#[derive(Clone, Debug)]
pub struct KeyFrames {
    /// Name of the animated target, if the loader gave one.
    pub name: Option<String>,
}

/// A named, ordered sequence of geometry entries. The order is significant
/// and is preserved by every query.
#[derive(Clone, Debug)]
pub struct Model {
    /// Name.
    pub name: String,
    /// The geometry entries, in rendering order.
    pub geometries: Vec<TriMesh>,
}

/// An ordered sequence of animation tracks plus an ordered sequence of
/// models.
#[derive(Clone, Debug)]
pub struct Scene {
    /// The animation tracks, in order.
    pub animations: Vec<KeyFrames>,
    /// The models, in order.
    pub models: Vec<Model>,
}

/// The failure kinds of asset construction and loading. The graph's own
/// validating constructors raise the first four; the remaining kinds travel
/// through this error channel on behalf of the loader collaborators, which
/// this library never reinterprets.
#[derive(Debug, Clone, PartialEq)]
pub enum Error {
    /// An asset buffer's length is not the expected one: subject name,
    /// expected length, actual length.
    InvalidBufferLength(String, usize, usize),
    /// A triangle index list's length is not a multiple of 3.
    InvalidNumberOfIndices(usize),
    /// An index points beyond the vertices: offending index, vertex count.
    InvalidIndices(usize, usize),
    /// A transformation matrix cannot be inverted.
    FailedInvertingTransformationMatrix,
    /// A volume file holds data of the wrong size.
    VolCorruptData,
    /// An asset was used before being loaded or added: its name.
    NotLoaded(String),
    /// A capability the asset needs is not available: its name.
    FeatureMissing(String),
    /// A file could not be deserialized: its name.
    FailedDeserialize(String),
    /// A file could not be serialized: its name.
    FailedSerialize(String),
}

/// Whether a material with identity `id` already stands in `mats`.
pub open spec fn seen_id(mats: Seq<Rc<PbrMaterial>>, id: u64) -> bool {
    exists|k: int| 0 <= k < mats.len() && mats[k].id == id
}

/// One step of the deduplicating scan: an entry without a material changes
/// nothing, and an entry whose material's identity was already seen changes
/// nothing; otherwise the material is appended.
pub open spec fn dedup_step(mats: Seq<Rc<PbrMaterial>>, entry: TriMesh) -> Seq<Rc<PbrMaterial>> {
    match entry.material {
        Option::None => mats,
        Option::Some(m) => if seen_id(mats, m.id) {
            mats
        } else {
            mats.push(m)
        },
    }
}

/// The distinct materials referenced by `entries`, each exactly once, in the
/// order of each identity's first occurrence.
pub open spec fn dedup_materials(entries: Seq<TriMesh>) -> Seq<Rc<PbrMaterial>>
    decreases entries.len(),
{
    if entries.len() == 0 {
        Seq::empty()
    } else {
        dedup_step(dedup_materials(entries.drop_last()), entries.last())
    }
}

/// All geometry entries of `models`, flattened in model order and, within a
/// model, in entry order.
pub open spec fn scene_entries(models: Seq<Model>) -> Seq<TriMesh>
    decreases models.len(),
{
    if models.len() == 0 {
        Seq::empty()
    } else {
        scene_entries(models.drop_last()) + models.last().geometries@
    }
}

/// Relies on `Rc::clone` (std's `<Rc<_> as Clone>::clone`, which vstd leaves
/// unspecified): the returned handle shares the allocation of the argument,
/// so it holds the same material value, id included.
#[verifier::external_body]
fn clone_material_handle(m: &Rc<PbrMaterial>) -> (r: Rc<PbrMaterial>)
    ensures
        r == *m,
{
    m.clone()
}

/// Whether any material already collected in `mats` has identity `id`.
fn contains_material_id(mats: &Vec<Rc<PbrMaterial>>, id: u64) -> (r: bool)
    ensures
        r == seen_id(mats@, id),
{
    let mut k: usize = 0;
    while k < mats.len()
        invariant
            k <= mats@.len(),
            forall|j: int| 0 <= j < k ==> mats@[j].id != id,
        decreases mats@.len() - k,
    {
        if mats[k].id == id {
            return true;
        }
        k += 1;
    }
    false
}

/// Appends `entry`'s material to `mats` unless the entry has none or a
/// material of the same identity was collected before.
fn collect_entry_material(mats: &mut Vec<Rc<PbrMaterial>>, entry: &TriMesh)
    ensures
        final(mats)@ == dedup_step(old(mats)@, *entry),
{
    match &entry.material {
        None => {},
        Some(m) => {
            if !contains_material_id(mats, m.id) {
                let handle = clone_material_handle(m);
                mats.push(handle);
            }
        },
    }
}

impl Model {
    /// The distinct materials this model's geometry entries reference, each
    /// instance exactly once, in first-use order; entries without a material
    /// contribute nothing.
    pub fn materials(&self) -> (mats: Vec<Rc<PbrMaterial>>)
        ensures
            mats@ == dedup_materials(self.geometries@),
    {
        let mut mats: Vec<Rc<PbrMaterial>> = Vec::new();
        let mut i: usize = 0;
        while i < self.geometries.len()
            invariant
                i <= self.geometries@.len(),
                mats@ == dedup_materials(self.geometries@.take(i as int)),
            decreases self.geometries@.len() - i,
        {
            collect_entry_material(&mut mats, &self.geometries[i]);
            proof {
                let taken = self.geometries@.take(i + 1);
                assert(taken.drop_last() =~= self.geometries@.take(i as int));
                assert(taken.last() == self.geometries@[i as int]);
            }
            i += 1;
        }
        proof {
            assert(self.geometries@.take(self.geometries@.len() as int) =~= self.geometries@);
        }
        mats
    }
}

impl Scene {
    /// The distinct materials referenced anywhere in the scene, each instance
    /// exactly once, ordered by first use while scanning models in order and,
    /// within each model, geometry entries in order.
    pub fn materials(&self) -> (mats: Vec<Rc<PbrMaterial>>)
        ensures
            mats@ == dedup_materials(scene_entries(self.models@)),
    {
        let mut mats: Vec<Rc<PbrMaterial>> = Vec::new();
        let mut i: usize = 0;
        while i < self.models.len()
            invariant
                i <= self.models@.len(),
                mats@ == dedup_materials(scene_entries(self.models@.take(i as int))),
            decreases self.models@.len() - i,
        {
            let model = &self.models[i];
            let ghost prefix = scene_entries(self.models@.take(i as int));
            let mut j: usize = 0;
            while j < model.geometries.len()
                invariant
                    j <= model.geometries@.len(),
                    mats@ == dedup_materials(prefix + model.geometries@.take(j as int)),
                decreases model.geometries@.len() - j,
            {
                collect_entry_material(&mut mats, &model.geometries[j]);
                proof {
                    let grown = prefix + model.geometries@.take(j + 1);
                    assert(grown.drop_last() =~= prefix + model.geometries@.take(j as int));
                    assert(grown.last() == model.geometries@[j as int]);
                }
                j += 1;
            }
            proof {
                let taken = self.models@.take(i + 1);
                assert(taken.drop_last() =~= self.models@.take(i as int));
                assert(taken.last() == self.models@[i as int]);
                assert(model.geometries@.take(model.geometries@.len() as int)
                    =~= model.geometries@);
                assert(scene_entries(taken) == prefix + model.geometries@);
            }
            i += 1;
        }
        proof {
            assert(self.models@.take(self.models@.len() as int) =~= self.models@);
        }
        mats
    }
}

/// Whether `entry` references a material of identity `id`.
pub open spec fn entry_has_id(entry: TriMesh, id: u64) -> bool {
    match entry.material {
        Option::None => false,
        Option::Some(m) => m.id == id,
    }
}

/// Whether some entry of `entries` references the material instance `m`.
pub open spec fn referenced_by(entries: Seq<TriMesh>, m: Rc<PbrMaterial>) -> bool {
    exists|e: int| 0 <= e < entries.len() && entries[e].material == Some(m)
}

proof fn lemma_seen_push(mats: Seq<Rc<PbrMaterial>>, m: Rc<PbrMaterial>, id: u64)
    ensures
        seen_id(mats.push(m), id) <==> (seen_id(mats, id) || m.id == id),
{
    if seen_id(mats, id) {
        let k = choose|k: int| 0 <= k < mats.len() && mats[k].id == id;
        assert(mats.push(m)[k].id == id);
    }
    if m.id == id {
        assert(mats.push(m)[mats.len() as int].id == id);
    }
    if seen_id(mats.push(m), id) {
        let k = choose|k: int| 0 <= k < mats.push(m).len() && mats.push(m)[k].id == id;
        if k < mats.len() {
            assert(mats[k].id == id);
        }
    }
}

/// Law: deduplication is complete and keeps nothing foreign: an identity
/// stands in the deduplicated list exactly when some entry references a
/// material carrying it.
pub proof fn lemma_dedup_membership(entries: Seq<TriMesh>, id: u64)
    ensures
        seen_id(dedup_materials(entries), id) <==> (exists|e: int|
            0 <= e < entries.len() && entry_has_id(#[trigger] entries[e], id)),
    decreases entries.len(),
{
    if entries.len() == 0 {
    } else {
        let prefix = entries.drop_last();
        lemma_dedup_membership(prefix, id);
        let d = dedup_materials(prefix);
        if exists|e: int| 0 <= e < prefix.len() && entry_has_id(#[trigger] prefix[e], id) {
            let e = choose|e: int| 0 <= e < prefix.len() && entry_has_id(#[trigger] prefix[e], id);
            assert(entry_has_id(entries[e], id));
        }
        match entries.last().material {
            Option::None => {
                if exists|e: int| 0 <= e < entries.len() && entry_has_id(
                    #[trigger] entries[e],
                    id,
                ) {
                    let e = choose|e: int|
                        0 <= e < entries.len() && entry_has_id(#[trigger] entries[e], id);
                    assert(e < prefix.len() && entry_has_id(prefix[e], id));
                }
            },
            Option::Some(m) => {
                if entry_has_id(entries.last(), id) {
                    assert(entries[entries.len() - 1] == entries.last());
                }
                if !seen_id(d, m.id) {
                    lemma_seen_push(d, m, id);
                }
                if seen_id(dedup_materials(entries), id) && !entry_has_id(entries.last(), id) {
                    assert(seen_id(d, id));
                    let e = choose|e: int|
                        0 <= e < prefix.len() && entry_has_id(#[trigger] prefix[e], id);
                    assert(entry_has_id(entries[e], id));
                }
                if (exists|e: int|
                    0 <= e < entries.len() && entry_has_id(#[trigger] entries[e], id))
                    && !seen_id(dedup_materials(entries), id) {
                    let e = choose|e: int|
                        0 <= e < entries.len() && entry_has_id(#[trigger] entries[e], id);
                    if e < prefix.len() {
                        assert(entry_has_id(prefix[e], id));
                    } else {
                        assert(entry_has_id(entries.last(), id));
                    }
                }
            },
        }
    }
}

/// Law: the deduplicated list holds each identity at most once: no two of
/// its positions carry materials with the same id.
pub proof fn lemma_dedup_distinct_ids(entries: Seq<TriMesh>)
    ensures
        forall|i: int, j: int|
            0 <= i < j < dedup_materials(entries).len() ==> dedup_materials(entries)[i].id
                != dedup_materials(entries)[j].id,
    decreases entries.len(),
{
    if entries.len() == 0 {
    } else {
        let prefix = entries.drop_last();
        lemma_dedup_distinct_ids(prefix);
        let d = dedup_materials(prefix);
        match entries.last().material {
            Option::None => {},
            Option::Some(m) => {
                if !seen_id(d, m.id) {
                    assert forall|i: int, j: int|
                        0 <= i < j < d.push(m).len() implies d.push(m)[i].id != d.push(
                        m,
                    )[j].id by {
                        if j < d.len() {
                            assert(d.push(m)[i] == d[i] && d.push(m)[j] == d[j]);
                        } else {
                            assert(d.push(m)[i] == d[i] && d.push(m)[j] == m);
                            assert(d[i].id != m.id) by {
                                if d[i].id == m.id {
                                    assert(seen_id(d, m.id));
                                }
                            }
                        }
                    }
                }
            },
        }
    }
}

/// Law: everything in the deduplicated list came out of the scanned entries:
/// each element is the very material instance some entry references.
pub proof fn lemma_dedup_sound(entries: Seq<TriMesh>)
    ensures
        forall|k: int|
            0 <= k < dedup_materials(entries).len() ==> referenced_by(
                entries,
                #[trigger] dedup_materials(entries)[k],
            ),
    decreases entries.len(),
{
    if entries.len() == 0 {
    } else {
        let prefix = entries.drop_last();
        lemma_dedup_sound(prefix);
        let d = dedup_materials(prefix);
        assert forall|k: int|
            0 <= k < d.len() implies referenced_by(entries, #[trigger] d[k]) by {
            let e = choose|e: int| 0 <= e < prefix.len() && prefix[e].material == Some(d[k]);
            assert(entries[e].material == Some(d[k]));
        }
        match entries.last().material {
            Option::None => {},
            Option::Some(m) => {
                if !seen_id(d, m.id) {
                    assert(entries[entries.len() - 1].material == Some(m));
                    assert(referenced_by(entries, m));
                    assert forall|k: int|
                        0 <= k < d.push(m).len() implies referenced_by(
                        entries,
                        #[trigger] d.push(m)[k],
                    ) by {
                        if k < d.len() {
                            assert(d.push(m)[k] == d[k]);
                        } else {
                            assert(d.push(m)[k] == m);
                        }
                    }
                }
            },
        }
    }
}

/// Law: identity, not value equality, decides deduplication: two referenced
/// materials with distinct ids both stand in the deduplicated list, however
/// equal their remaining fields may be.
pub proof fn lemma_dedup_keeps_distinct_instances(entries: Seq<TriMesh>, i: int, j: int)
    requires
        0 <= i < entries.len(),
        0 <= j < entries.len(),
        entries[i].material is Some,
        entries[j].material is Some,
        entries[i].material->Some_0.id != entries[j].material->Some_0.id,
    ensures
        seen_id(dedup_materials(entries), entries[i].material->Some_0.id),
        seen_id(dedup_materials(entries), entries[j].material->Some_0.id),
{
    lemma_dedup_membership(entries, entries[i].material->Some_0.id);
    lemma_dedup_membership(entries, entries[j].material->Some_0.id);
    assert(entry_has_id(entries[i], entries[i].material->Some_0.id));
    assert(entry_has_id(entries[j], entries[j].material->Some_0.id));
}

/// Whether entry `e` of model `m` references a material of identity `id`.
pub open spec fn model_entry_has_id(models: Seq<Model>, m: int, e: int, id: u64) -> bool {
    0 <= m < models.len() && 0 <= e < models[m].geometries@.len() && entry_has_id(
        models[m].geometries@[e],
        id,
    )
}

proof fn lemma_scene_entries_membership(models: Seq<Model>, id: u64)
    ensures
        (exists|e: int|
            0 <= e < scene_entries(models).len() && entry_has_id(
                #[trigger] scene_entries(models)[e],
                id,
            )) <==> (exists|m: int, e: int| #[trigger] model_entry_has_id(models, m, e, id)),
    decreases models.len(),
{
    if models.len() == 0 {
    } else {
        let prefix = models.drop_last();
        lemma_scene_entries_membership(prefix, id);
        let s = scene_entries(prefix);
        let t = models.last().geometries@;
        let flat = scene_entries(models);
        assert(flat == s + t);
        if exists|e: int|
            0 <= e < flat.len() && entry_has_id(#[trigger] flat[e], id) {
            let e = choose|e: int| 0 <= e < flat.len() && entry_has_id(#[trigger] flat[e], id);
            if e < s.len() {
                assert(s[e] == flat[e]);
                let (m2, e2) = choose|m2: int, e2: int|
                    #[trigger] model_entry_has_id(prefix, m2, e2, id);
                assert(prefix[m2] == models[m2]);
                assert(model_entry_has_id(models, m2, e2, id));
            } else {
                assert(t[e - s.len()] == flat[e]);
                assert(models[models.len() - 1] == models.last());
                assert(model_entry_has_id(models, models.len() - 1, e - s.len(), id));
            }
        }
        if exists|m: int, e: int| #[trigger] model_entry_has_id(models, m, e, id) {
            let (m, e) = choose|m: int, e: int| #[trigger] model_entry_has_id(models, m, e, id);
            if m < models.len() - 1 {
                assert(prefix[m] == models[m]);
                assert(model_entry_has_id(prefix, m, e, id));
                let e2 = choose|e2: int|
                    0 <= e2 < s.len() && entry_has_id(#[trigger] s[e2], id);
                assert(flat[e2] == s[e2]);
            } else {
                assert(models[m] == models.last());
                assert(flat[s.len() + e] == t[e]);
            }
        }
    }
}

/// Law: a scene's deduplicated materials cover exactly its models: an
/// identity stands in them exactly when some geometry entry of some model in
/// the scene references a material carrying it.
pub proof fn lemma_scene_materials_membership(models: Seq<Model>, id: u64)
    ensures
        seen_id(dedup_materials(scene_entries(models)), id) <==> (exists|m: int, e: int|
            #[trigger] model_entry_has_id(models, m, e, id)),
{
    lemma_dedup_membership(scene_entries(models), id);
    lemma_scene_entries_membership(models, id);
}

} // verus!

