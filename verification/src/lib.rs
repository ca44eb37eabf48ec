pub mod document;
pub mod extension;
pub mod layout;
pub mod mapping;

use vstd::prelude::*;

use crate::document::PrimitiveInfo;
use crate::extension::DracoExt;
use crate::layout::AttrBlock;
use crate::mapping::{AccessorInfo, AttributeDataType, ComponentType, Semantic};

verus! {

/// Why a decode failed. Every failure of the pipeline is one of these;
/// none is retried.
#[derive(Debug, Clone, Copy, PartialEq, Eq, Structural)]
pub enum DracoLoadError {
    /// The primitive does not use the compression extension.
    NotDraco,
    /// The extension payload is missing a field or malformed.
    BadExtension,
    /// The named buffer view is absent from the document.
    BadBufferView(usize),
    /// The named buffer is absent from the caller's buffer list.
    BadBuffer(usize),
    /// The attribute mapping has no position accessor, which the vertex
    /// count is derived from.
    NoPositionAccessor,
    /// The indices accessor is missing from a triangle-list primitive.
    NoIndicesAccessor,
    /// The engine failed, or its output buffer is too short for the
    /// layout the descriptors require.
    DracoDecode,
    /// A decoded attribute id has no entry in the extension's attribute
    /// table.
    UnknownAttributeId(u32),
    /// Only triangle-list primitives are supported.
    UnsupportedMode,
}

/// One attribute descriptor handed to the engine: the engine-side
/// unique id, the component count of one element, and the engine's
/// small-integer scalar type code.
#[derive(Debug, Clone, Copy, PartialEq, Eq, Structural)]
pub struct AttrInfo {
    pub unique_id: u32,
    pub dim: u32,
    pub data_type: u8,
}

/// A byte range inside one of the caller's binary buffers: the
/// compressed payload lives at `[offset, offset + length)` of buffer
/// `buffer`. The caller slices it; as with any out-of-range slice, a
/// range that overruns its buffer panics at the slicing site.
#[derive(Debug, Clone, Copy, PartialEq, Eq, Structural)]
pub struct ByteRange {
    pub buffer: usize,
    pub offset: usize,
    pub length: usize,
}

/// The descriptor handed to the decompression engine. The order of
/// `attributes` is exactly the callers' descriptor order; the engine
/// lays its output sections out in this order, so the same list later
/// drives the layout reader.
#[derive(Debug, Clone)]
pub struct EngineConfig {
    pub vertex_count: u32,
    pub index_count: u32,
    pub attributes: Vec<(u32, mapping::AttributeDataType)>,
}

/// Everything the engine call needs, resolved and validated: where the
/// compressed bytes live, the descriptor to hand over, and what the
/// layout reader will need afterwards.
#[derive(Debug)]
pub struct DecodePlan {
    pub range: ByteRange,
    pub config: EngineConfig,
    pub index_comp: mapping::ComponentType,
    pub index_count: usize,
    pub vertex_count: usize,
    pub ext: extension::DracoExt,
}

/// Mathematical image of a `DecodePlan`.
pub struct PlanSpec {
    pub range: ByteRange,
    pub vertex_count: int,
    pub index_count: int,
    pub index_comp: mapping::ComponentType,
    pub config_vertex_count: u32,
    pub config_index_count: u32,
    pub config_attributes: Seq<(u32, mapping::AttributeDataType)>,
    pub ext: extension::DracoExtView,
}

/// An 8-bit index stream is always requested from the engine as
/// 16-bit: the engine has no 8-bit index path.
pub open spec fn spec_widen_index_comp(ct: mapping::ComponentType) -> mapping::ComponentType {
    if ct == mapping::ComponentType::U8 {
        mapping::ComponentType::U16
    } else {
        ct
    }
}

/// Where the compressed bytes of buffer view `index` live: the view is
/// looked up by exact index match, then its backing buffer must exist
/// in the caller's list of `buffer_count` buffers.
pub open spec fn spec_get_buffer(
    views: Seq<document::BufferViewInfo>,
    buffer_count: int,
    index: int,
) -> Result<ByteRange, DracoLoadError> {
    match document::spec_find_view(views, index) {
        None => Err(DracoLoadError::BadBufferView(index as usize)),
        Some(view) => {
            if view.buffer >= buffer_count {
                Err(DracoLoadError::BadBuffer(view.buffer))
            } else {
                Ok(ByteRange { buffer: view.buffer, offset: view.offset, length: view.length })
            }
        },
    }
}

/// Resolves the byte range a buffer view denotes.
pub fn get_buffer(
    views: &Vec<document::BufferViewInfo>,
    buffer_count: usize,
    index: usize,
) -> (r: Result<ByteRange, DracoLoadError>)
    ensures
        r == spec_get_buffer(views@, buffer_count as int, index as int),
{
    match document::find_view(views, index) {
        None => Err(DracoLoadError::BadBufferView(index)),
        Some(view) => {
            if view.buffer >= buffer_count {
                Err(DracoLoadError::BadBuffer(view.buffer))
            } else {
                Ok(ByteRange { buffer: view.buffer, offset: view.offset, length: view.length })
            }
        },
    }
}

/// What preparing a decode yields, before the engine runs: topology is
/// checked first, then the extension is located and parsed, its buffer
/// view resolved, and the two counts read off the position and indices
/// accessors. The descriptor keeps the callers' attribute order.
/// Counts wider than 32 bits are truncated in the descriptor, as the
/// engine takes 32-bit counts.
pub open spec fn spec_prepare(
    p: document::PrimitiveInfo,
    views: Seq<document::BufferViewInfo>,
    buffer_count: int,
    infos: Seq<AttrInfo>,
) -> Result<PlanSpec, DracoLoadError> {
    if p.mode != document::Mode::Triangles {
        Err(DracoLoadError::UnsupportedMode)
    } else {
        match p.draco_extension {
            None => Err(DracoLoadError::NotDraco),
            Some(j) => match extension::spec_parse_extension(j) {
                Err(e) => Err(e),
                Ok(ext) => match spec_get_buffer(views, buffer_count, ext.buffer_view) {
                    Err(e) => Err(e),
                    Ok(range) => match document::spec_find_accessor(
                        p.attributes@,
                        mapping::Semantic::Positions,
                    ) {
                        None => Err(DracoLoadError::NoPositionAccessor),
                        Some(pos) => match p.indices {
                            None => Err(DracoLoadError::NoIndicesAccessor),
                            Some(iacc) => Ok(
                                PlanSpec {
                                    range,
                                    vertex_count: pos.count as int,
                                    index_count: iacc.count as int,
                                    index_comp: spec_widen_index_comp(iacc.data_type),
                                    config_vertex_count: pos.count as u32,
                                    config_index_count: iacc.count as u32,
                                    config_attributes: infos.map_values(
                                        |a: AttrInfo|
                                            (a.dim, mapping::spec_map_draco_dt(a.data_type)),
                                    ),
                                    ext,
                                },
                            ),
                        },
                    },
                },
            },
        }
    }
}

/// Resolves and validates everything the engine call needs. Nothing of
/// the engine has run yet when this fails; a primitive without a
/// position accessor, in particular, is rejected here.
pub fn prepare_decode(
    p: &document::PrimitiveInfo,
    views: &Vec<document::BufferViewInfo>,
    buffer_count: usize,
    infos: &Vec<AttrInfo>,
) -> (r: Result<DecodePlan, DracoLoadError>)
    ensures
        match r {
            Ok(plan) => ({
                &&& spec_prepare(*p, views@, buffer_count as int, infos@) matches Ok(ps)
                &&& plan.range == ps.range
                &&& plan.vertex_count == ps.vertex_count
                &&& plan.index_count == ps.index_count
                &&& plan.index_comp == ps.index_comp
                &&& plan.config.vertex_count == ps.config_vertex_count
                &&& plan.config.index_count == ps.config_index_count
                &&& plan.config.attributes@ == ps.config_attributes
                &&& plan.ext@ == ps.ext
            }),
            Err(e) => spec_prepare(*p, views@, buffer_count as int, infos@) == Err::<
                PlanSpec,
                DracoLoadError,
            >(e),
        },
{
    if p.mode != document::Mode::Triangles {
        return Err(DracoLoadError::UnsupportedMode);
    }
    let ext_json = match &p.draco_extension {
        None => {
            return Err(DracoLoadError::NotDraco);
        },
        Some(j) => j,
    };
    let ext = match extension::parse_extension(ext_json) {
        Err(e) => {
            return Err(e);
        },
        Ok(ext) => ext,
    };
    let range = match get_buffer(views, buffer_count, ext.buffer_view) {
        Err(e) => {
            return Err(e);
        },
        Ok(range) => range,
    };
    let pos = match document::find_accessor(p, mapping::Semantic::Positions) {
        None => {
            return Err(DracoLoadError::NoPositionAccessor);
        },
        Some(pos) => pos,
    };
    let vertex_count = pos.count;
    let iacc = match &p.indices {
        None => {
            return Err(DracoLoadError::NoIndicesAccessor);
        },
        Some(iacc) => *iacc,
    };
    let index_count = iacc.count;
    let index_comp = if iacc.data_type == mapping::ComponentType::U8 {
        mapping::ComponentType::U16
    } else {
        iacc.data_type
    };
    let mut attributes: Vec<(u32, mapping::AttributeDataType)> = Vec::new();
    let mut i: usize = 0;
    while i < infos.len()
        invariant
            0 <= i <= infos@.len(),
            attributes@.len() == i,
            forall|j: int|
                0 <= j < i ==> #[trigger] attributes@[j] == (
                    infos@[j].dim,
                    mapping::spec_map_draco_dt(infos@[j].data_type),
                ),
        decreases infos@.len() - i,
    {
        attributes.push((infos[i].dim, mapping::map_draco_dt(infos[i].data_type)));
        i += 1;
    }
    proof {
        assert(attributes@ =~= infos@.map_values(
            |a: AttrInfo| (a.dim, mapping::spec_map_draco_dt(a.data_type)),
        ));
    }
    let config = EngineConfig {
        vertex_count: #[verifier::truncate] (vertex_count as u32),
        index_count: #[verifier::truncate] (index_count as u32),
        attributes,
    };
    Ok(DecodePlan { range, config, index_comp, index_count, vertex_count, ext })
}

/// One color channel set, as decoded. 32-bit float sources are copied
/// as their little-endian bit patterns; any other source is taken as
/// 8-bit-per-channel color, which consumers normalize by dividing each
/// channel by 255.
#[derive(Debug, PartialEq)]
pub enum ColorValues {
    Float32(Vec<(u32, u32, u32, u32)>),
    Normalized8(Vec<(u8, u8, u8, u8)>),
}

/// Mathematical image of `ColorValues`.
pub enum ColorView {
    Float32(Seq<(u32, u32, u32, u32)>),
    Normalized8(Seq<(u8, u8, u8, u8)>),
}

impl View for ColorValues {
    type V = ColorView;

    open spec fn view(&self) -> ColorView {
        match self {
            ColorValues::Float32(v) => ColorView::Float32(v@),
            ColorValues::Normalized8(v) => ColorView::Normalized8(v@),
        }
    }
}

/// One weight channel set, as decoded. 32-bit float sources are copied
/// as bit patterns; 16-bit sources are normalized by consumers against
/// 65535, 8-bit sources against 255.
#[derive(Debug, PartialEq)]
pub enum WeightValues {
    Float32(Vec<(u32, u32, u32, u32)>),
    Normalized16(Vec<(u16, u16, u16, u16)>),
    Normalized8(Vec<(u8, u8, u8, u8)>),
}

/// Mathematical image of `WeightValues`.
pub enum WeightView {
    Float32(Seq<(u32, u32, u32, u32)>),
    Normalized16(Seq<(u16, u16, u16, u16)>),
    Normalized8(Seq<(u8, u8, u8, u8)>),
}

impl View for WeightValues {
    type V = WeightView;

    open spec fn view(&self) -> WeightView {
        match self {
            WeightValues::Float32(v) => WeightView::Float32(v@),
            WeightValues::Normalized16(v) => WeightView::Normalized16(v@),
            WeightValues::Normalized8(v) => WeightView::Normalized8(v@),
        }
    }
}

/// A channel-keyed table as a sequence of pairs, each value replaced
/// by its own mathematical image.
pub open spec fn chan_view<V: View>(m: Seq<(u32, V)>) -> Seq<(u32, V::V)> {
    m.map_values(|e: (u32, V)| (e.0, e.1@))
}

/// The decoded primitive. Index order and attribute values are exactly
/// what the engine emitted, converted per semantic; 32-bit float
/// components are carried as their little-endian bit patterns, since
/// that is how they stand in the engine's output. Channel-keyed tables
/// (one entry per channel set) keep first-registration order, and a
/// re-registered channel set replaces its entry in place.
#[derive(Debug, PartialEq)]
pub struct DecodedPrimitive {
    pub indices: Vec<u32>,
    pub positions: Option<Vec<(u32, u32, u32)>>,
    pub normals: Option<Vec<(u32, u32, u32)>>,
    pub tangents: Option<Vec<(u32, u32, u32, u32)>>,
    pub texcoords: Vec<(u32, Vec<(u32, u32)>)>,
    pub colors: Vec<(u32, ColorValues)>,
    pub joints: Vec<(u32, Vec<(u16, u16, u16, u16)>)>,
    pub weights: Vec<(u32, WeightValues)>,
}

/// Mathematical image of a `DecodedPrimitive`.
pub struct DecodedView {
    pub indices: Seq<u32>,
    pub positions: Option<Seq<(u32, u32, u32)>>,
    pub normals: Option<Seq<(u32, u32, u32)>>,
    pub tangents: Option<Seq<(u32, u32, u32, u32)>>,
    pub texcoords: Seq<(u32, Seq<(u32, u32)>)>,
    pub colors: Seq<(u32, ColorView)>,
    pub joints: Seq<(u32, Seq<(u16, u16, u16, u16)>)>,
    pub weights: Seq<(u32, WeightView)>,
}

impl View for DecodedPrimitive {
    type V = DecodedView;

    open spec fn view(&self) -> DecodedView {
        DecodedView {
            indices: self.indices@,
            positions: match self.positions {
                Some(v) => Some(v@),
                None => None,
            },
            normals: match self.normals {
                Some(v) => Some(v@),
                None => None,
            },
            tangents: match self.tangents {
                Some(v) => Some(v@),
                None => None,
            },
            texcoords: chan_view(self.texcoords@),
            colors: chan_view(self.colors@),
            joints: chan_view(self.joints@),
            weights: chan_view(self.weights@),
        }
    }
}

/// Registers `v` under key `k`: a present key's entry is replaced in
/// place, a new key is appended.
pub open spec fn chan_insert<W>(m: Seq<(u32, W)>, k: u32, v: W) -> Seq<(u32, W)>
    decreases m.len(),
{
    if m.len() == 0 {
        seq![(k, v)]
    } else if m[0].0 == k {
        seq![(k, v)] + m.skip(1)
    } else {
        seq![m[0]] + chan_insert(m.skip(1), k, v)
    }
}

proof fn lemma_chan_insert_push<W>(m: Seq<(u32, W)>, k: u32, v: W)
    requires
        forall|j: int| 0 <= j < m.len() ==> (#[trigger] m[j]).0 != k,
    ensures
        chan_insert(m, k, v) =~= m.push((k, v)),
    decreases m.len(),
{
    if m.len() > 0 {
        assert(forall|j: int|
            0 <= j < m.skip(1).len() ==> (#[trigger] m.skip(1)[j]).0 != k) by {
            assert(forall|j: int|
                0 <= j < m.skip(1).len() ==> #[trigger] m.skip(1)[j] == m[j + 1]);
        }
        lemma_chan_insert_push(m.skip(1), k, v);
        assert(chan_insert(m, k, v) =~= seq![m[0]] + m.skip(1).push((k, v)));
    }
}

proof fn lemma_chan_insert_update<W>(m: Seq<(u32, W)>, k: u32, v: W, idx: int)
    requires
        0 <= idx < m.len(),
        m[idx].0 == k,
        forall|j: int| 0 <= j < idx ==> (#[trigger] m[j]).0 != k,
    ensures
        chan_insert(m, k, v) =~= m.update(idx, (k, v)),
    decreases idx,
{
    if idx == 0 {
        assert(chan_insert(m, k, v) =~= m.update(0, (k, v)));
    } else {
        assert(forall|j: int| 0 <= j < m.skip(1).len() ==> #[trigger] m.skip(1)[j] == m[j + 1]);
        lemma_chan_insert_update(m.skip(1), k, v, idx - 1);
        assert(chan_insert(m, k, v) =~= seq![m[0]] + m.skip(1).update(idx - 1, (k, v)));
    }
}

/// Registers a value under a channel-set key: a present key's entry is
/// replaced in place, a new key is appended.
fn upsert_chan<V: View>(m: &mut Vec<(u32, V)>, k: u32, v: V)
    ensures
        chan_view(final(m)@) == chan_insert(chan_view(old(m)@), k, v@),
{
    let ghost m0 = m@;
    let mut i: usize = 0;
    while i < m.len()
        invariant
            0 <= i <= m@.len(),
            m@ == m0,
            old(m)@ == m0,
            forall|j: int| 0 <= j < i ==> (#[trigger] m@[j]).0 != k,
        decreases m@.len() - i,
    {
        if m[i].0 == k {
            m.remove(i);
            m.insert(i, (k, v));
            proof {
                assert(m@ =~= m0.update(i as int, (k, v)));
                assert(forall|j: int|
                    0 <= j < i ==> (#[trigger] chan_view(m0)[j]).0 != k);
                lemma_chan_insert_update(chan_view(m0), k, v@, i as int);
                assert(chan_view(m@) =~= chan_view(m0).update(i as int, (k, v@)));
            }
            return ;
        }
        i += 1;
    }
    m.push((k, v));
    proof {
        assert(forall|j: int| 0 <= j < m0.len() ==> (#[trigger] chan_view(m0)[j]).0 != k);
        lemma_chan_insert_push(chan_view(m0), k, v@);
        assert(chan_view(m@) =~= chan_view(m0).push((k, v@)));
    }
}

/// Registers a plain-valued entry under a key: a present key's entry
/// is replaced in place, a new key is appended.
fn upsert_plain<V: Copy>(m: &mut Vec<(u32, V)>, k: u32, v: V)
    ensures
        final(m)@ == chan_insert(old(m)@, k, v),
{
    let ghost m0 = m@;
    let mut i: usize = 0;
    while i < m.len()
        invariant
            0 <= i <= m@.len(),
            m@ == m0,
            old(m)@ == m0,
            forall|j: int| 0 <= j < i ==> (#[trigger] m@[j]).0 != k,
        decreases m@.len() - i,
    {
        if m[i].0 == k {
            m.remove(i);
            m.insert(i, (k, v));
            proof {
                assert(m@ =~= m0.update(i as int, (k, v)));
                lemma_chan_insert_update(m0, k, v, i as int);
            }
            return ;
        }
        i += 1;
    }
    m.push((k, v));
    proof {
        lemma_chan_insert_push(m0, k, v);
    }
}

/// First target registered under an engine-side id, if any.
pub open spec fn spec_rmap_get(m: Seq<(u32, (Semantic, AccessorInfo))>, id: u32) -> Option<
    (Semantic, AccessorInfo),
>
    decreases m.len(),
{
    if m.len() == 0 {
        None
    } else if m[0].0 == id {
        Some(m[0].1)
    } else {
        spec_rmap_get(m.skip(1), id)
    }
}

fn rmap_get(m: &Vec<(u32, (Semantic, AccessorInfo))>, id: u32) -> (r: Option<
    (Semantic, AccessorInfo),
>)
    ensures
        r == spec_rmap_get(m@, id),
{
    let mut i: usize = 0;
    assert(m@.skip(0) =~= m@);
    while i < m.len()
        invariant
            0 <= i <= m@.len(),
            spec_rmap_get(m@, id) == spec_rmap_get(m@.skip(i as int), id),
        decreases m@.len() - i,
    {
        proof {
            assert(m@.skip(i as int)[0] == m@[i as int]);
            assert(m@.skip(i as int).skip(1) =~= m@.skip(i as int + 1));
        }
        if m[i].0 == id {
            return Some(m[i].1);
        }
        i += 1;
    }
    None
}

/// The reverse map the remaining attribute-table entries build on top
/// of `m`: each key that names a semantic the primitive has an
/// accessor for registers that pair under the entry's id; other
/// entries are dropped silently.
pub open spec fn spec_build_rmap_from(
    m: Seq<(u32, (Semantic, AccessorInfo))>,
    attrs: Seq<(Seq<u8>, u32)>,
    prim_attrs: Seq<(Semantic, AccessorInfo)>,
) -> Seq<(u32, (Semantic, AccessorInfo))>
    decreases attrs.len(),
{
    if attrs.len() == 0 {
        m
    } else {
        let step = match mapping::spec_key_semantic(attrs[0].0) {
            None => m,
            Some(sem) => match document::spec_find_accessor(prim_attrs, sem) {
                None => m,
                Some(acc) => chan_insert(m, attrs[0].1, (sem, acc)),
            },
        };
        spec_build_rmap_from(step, attrs.skip(1), prim_attrs)
    }
}

/// The reverse map of an extension's attribute table: engine-side id
/// to the semantic and accessor it stands for.
pub open spec fn spec_build_rmap(
    attrs: Seq<(Seq<u8>, u32)>,
    prim_attrs: Seq<(Semantic, AccessorInfo)>,
) -> Seq<(u32, (Semantic, AccessorInfo))> {
    spec_build_rmap_from(Seq::empty(), attrs, prim_attrs)
}

/// Correlates the extension's attribute table with the primitive's
/// accessors: each key that names a semantic the primitive carries
/// registers `(semantic, accessor)` under the engine-side id; entries
/// whose key is unrecognized or whose semantic has no accessor are
/// dropped silently.
pub fn build_reverse_map(ext: &DracoExt, p: &PrimitiveInfo) -> (r: Vec<
    (u32, (Semantic, AccessorInfo)),
>)
    ensures
        r@ == spec_build_rmap(ext@.attributes, p.attributes@),
{
    let mut rmap: Vec<(u32, (Semantic, AccessorInfo))> = Vec::new();
    let mut i: usize = 0;
    proof {
        assert(ext@.attributes.skip(0) =~= ext@.attributes);
    }
    while i < ext.attributes.len()
        invariant
            0 <= i <= ext.attributes@.len(),
            ext@.attributes.len() == ext.attributes@.len(),
            forall|j: int|
                0 <= j < ext.attributes@.len() ==> #[trigger] ext@.attributes[j] == (
                    ext.attributes@[j].0@,
                    ext.attributes@[j].1,
                ),
            spec_build_rmap_from(rmap@, ext@.attributes.skip(i as int), p.attributes@)
                == spec_build_rmap(ext@.attributes, p.attributes@),
        decreases ext.attributes@.len() - i,
    {
        proof {
            assert(ext@.attributes.skip(i as int)[0] == ext@.attributes[i as int]);
            assert(ext@.attributes.skip(i as int).skip(1) =~= ext@.attributes.skip(i as int + 1));
        }
        let id = ext.attributes[i].1;
        match mapping::dracokey_to_semantic(ext.attributes[i].0.as_slice()) {
            None => {},
            Some(sem) => match document::find_accessor(p, sem) {
                None => {},
                Some(acc) => {
                    upsert_plain(&mut rmap, id, (sem, acc));
                },
            },
        }
        i += 1;
    }
    rmap
}

/// `acc` with the section under `sem` converted and stored. Position,
/// normal and tangent streams are 32-bit floats, copied as bit
/// patterns; texture coordinates likewise, two per element. Colors
/// keep float sources as bit patterns, else take 8-bit channels.
/// Joints keep 16-bit sources and widen anything else from 8 bits with
/// no scaling. Weights keep float sources as bit patterns, else take
/// 16-bit, else 8-bit channels.
pub open spec fn spec_convert(
    acc: DecodedView,
    sem: Semantic,
    dt: AttributeDataType,
    bytes: Seq<u8>,
) -> DecodedView {
    match sem {
        Semantic::Positions => DecodedView {
            positions: Some(mapping::spec_words_x3(bytes)),
            ..acc
        },
        Semantic::Normals => DecodedView { normals: Some(mapping::spec_words_x3(bytes)), ..acc },
        Semantic::Tangents => DecodedView { tangents: Some(mapping::spec_words_x4(bytes)), ..acc },
        Semantic::TexCoords(set) => DecodedView {
            texcoords: chan_insert(acc.texcoords, set, mapping::spec_words_x2(bytes)),
            ..acc
        },
        Semantic::Colors(set) => DecodedView {
            colors: chan_insert(
                acc.colors,
                set,
                if dt == AttributeDataType::Float32 {
                    ColorView::Float32(mapping::spec_words_x4(bytes))
                } else {
                    ColorView::Normalized8(mapping::spec_bytes_x4(bytes))
                },
            ),
            ..acc
        },
        Semantic::Joints(set) => DecodedView {
            joints: chan_insert(
                acc.joints,
                set,
                if dt == AttributeDataType::UInt16 {
                    mapping::spec_shorts_x4(bytes)
                } else {
                    mapping::spec_widen_x4(bytes)
                },
            ),
            ..acc
        },
        Semantic::Weights(set) => DecodedView {
            weights: chan_insert(
                acc.weights,
                set,
                if dt == AttributeDataType::Float32 {
                    WeightView::Float32(mapping::spec_words_x4(bytes))
                } else if dt == AttributeDataType::UInt16 {
                    WeightView::Normalized16(mapping::spec_shorts_x4(bytes))
                } else {
                    WeightView::Normalized8(mapping::spec_bytes_x4(bytes))
                },
            ),
            ..acc
        },
    }
}

/// The aggregate after every attribute section is matched against the
/// reverse map and converted, in section order; an id absent from the
/// reverse map fails the whole decode.
pub open spec fn spec_fill(
    acc: DecodedView,
    blocks: Seq<AttrBlock>,
    raw: Seq<u8>,
    rmap: Seq<(u32, (Semantic, AccessorInfo))>,
) -> Result<DecodedView, DracoLoadError>
    decreases blocks.len(),
{
    if blocks.len() == 0 {
        Ok(acc)
    } else {
        match spec_rmap_get(rmap, blocks[0].unique_id) {
            None => Err(DracoLoadError::UnknownAttributeId(blocks[0].unique_id)),
            Some((sem, _acc)) => spec_fill(
                spec_convert(
                    acc,
                    sem,
                    blocks[0].dt,
                    raw.subrange(blocks[0].start as int, blocks[0].end as int),
                ),
                blocks.skip(1),
                raw,
                rmap,
            ),
        }
    }
}

/// Converts each attribute section per its matched semantic and stores
/// it in the aggregate. The single hard correlation check between
/// engine output and container metadata happens here: a section whose
/// id the reverse map does not know fails the decode.
pub fn fill_primitive(
    p: &mut DecodedPrimitive,
    raw: &[u8],
    blocks: &Vec<AttrBlock>,
    rmap: &Vec<(u32, (Semantic, AccessorInfo))>,
) -> (r: Result<(), DracoLoadError>)
    requires
        forall|i: int|
            0 <= i < blocks@.len() ==> (#[trigger] blocks@[i]).start <= blocks@[i].end
                <= raw@.len(),
    ensures
        match r {
            Ok(_) => spec_fill(old(p)@, blocks@, raw@, rmap@) == Ok::<
                DecodedView,
                DracoLoadError,
            >(final(p)@),
            Err(e) => spec_fill(old(p)@, blocks@, raw@, rmap@) == Err::<
                DecodedView,
                DracoLoadError,
            >(e),
        },
{
    let ghost target = spec_fill(old(p)@, blocks@, raw@, rmap@);
    let mut i: usize = 0;
    proof {
        assert(blocks@.skip(0) =~= blocks@);
    }
    while i < blocks.len()
        invariant
            0 <= i <= blocks@.len(),
            forall|k: int|
                0 <= k < blocks@.len() ==> (#[trigger] blocks@[k]).start <= blocks@[k].end
                    <= raw@.len(),
            target == spec_fill(old(p)@, blocks@, raw@, rmap@),
            spec_fill(p@, blocks@.skip(i as int), raw@, rmap@) == target,
        decreases blocks@.len() - i,
    {
        proof {
            assert(blocks@.skip(i as int)[0] == blocks@[i as int]);
            assert(blocks@.skip(i as int).skip(1) =~= blocks@.skip(i as int + 1));
        }
        let blk = blocks[i];
        let (sem, _acc) = match rmap_get(rmap, blk.unique_id) {
            None => {
                return Err(DracoLoadError::UnknownAttributeId(blk.unique_id));
            },
            Some(t) => t,
        };
        let bytes = vstd::slice::slice_subrange(raw, blk.start, blk.end);
        let ghost before = p@;
        match sem {
            Semantic::Positions => {
                p.positions = Some(mapping::words_x3(bytes));
            },
            Semantic::Normals => {
                p.normals = Some(mapping::words_x3(bytes));
            },
            Semantic::Tangents => {
                p.tangents = Some(mapping::words_x4(bytes));
            },
            Semantic::TexCoords(set) => {
                upsert_chan(&mut p.texcoords, set, mapping::words_x2(bytes));
            },
            Semantic::Colors(set) => {
                let v = if blk.dt == AttributeDataType::Float32 {
                    ColorValues::Float32(mapping::words_x4(bytes))
                } else {
                    ColorValues::Normalized8(mapping::bytes_x4(bytes))
                };
                upsert_chan(&mut p.colors, set, v);
            },
            Semantic::Joints(set) => {
                let v = if blk.dt == AttributeDataType::UInt16 {
                    mapping::shorts_x4(bytes)
                } else {
                    mapping::widen_x4(bytes)
                };
                upsert_chan(&mut p.joints, set, v);
            },
            Semantic::Weights(set) => {
                let v = if blk.dt == AttributeDataType::Float32 {
                    WeightValues::Float32(mapping::words_x4(bytes))
                } else if blk.dt == AttributeDataType::UInt16 {
                    WeightValues::Normalized16(mapping::shorts_x4(bytes))
                } else {
                    WeightValues::Normalized8(mapping::bytes_x4(bytes))
                };
                upsert_chan(&mut p.weights, set, v);
            },
        }
        proof {
            assert(p@ == spec_convert(before, sem, blk.dt, bytes@));
        }
        i += 1;
    }
    proof {
        assert(blocks@.skip(blocks@.len() as int).len() == 0);
    }
    Ok(())
}

/// What reading the engine's whole output yields: the index section
/// is decoded first, then the attribute sections are carved in
/// descriptor order and each is matched through the reverse map and
/// converted. A buffer too short at any step fails the decode; bytes
/// past the last section are ignored.
pub open spec fn spec_finish(
    raw: Seq<u8>,
    index_comp: ComponentType,
    index_count: int,
    vertex_count: int,
    infos: Seq<AttrInfo>,
    prim_attrs: Seq<(Semantic, AccessorInfo)>,
    ext_attrs: Seq<(Seq<u8>, u32)>,
) -> Result<DecodedView, DracoLoadError> {
    let index_bytes = index_count * mapping::spec_comp_size(index_comp);
    match layout::spec_decode_indices(raw, index_bytes, index_comp) {
        Err(e) => Err(e),
        Ok(inds) => {
            if index_bytes + layout::spec_prefix_len(infos, vertex_count, infos.len() as int)
                > raw.len() {
                Err(DracoLoadError::DracoDecode)
            } else {
                spec_fill(
                    DecodedView {
                        indices: inds,
                        positions: None,
                        normals: None,
                        tangents: None,
                        texcoords: Seq::empty(),
                        colors: Seq::empty(),
                        joints: Seq::empty(),
                        weights: Seq::empty(),
                    },
                    layout::spec_blocks(infos, vertex_count, index_bytes),
                    raw,
                    spec_build_rmap(ext_attrs, prim_attrs),
                )
            }
        },
    }
}

/// Reads the engine's output buffer back into typed per-attribute
/// values: the index section, then one attribute section per
/// descriptor, in exactly the order the descriptors were registered.
pub fn finish_decode(
    raw: &[u8],
    index_comp: ComponentType,
    index_count: usize,
    vertex_count: usize,
    infos: &Vec<AttrInfo>,
    p: &PrimitiveInfo,
    ext: &DracoExt,
) -> (r: Result<DecodedPrimitive, DracoLoadError>)
    requires
        forall|i: int| 0 <= i < infos@.len() ==> 1 <= (#[trigger] infos@[i]).dim <= 4,
    ensures
        match r {
            Ok(d) => spec_finish(
                raw@,
                index_comp,
                index_count as int,
                vertex_count as int,
                infos@,
                p.attributes@,
                ext@.attributes,
            ) == Ok::<DecodedView, DracoLoadError>(d@),
            Err(e) => spec_finish(
                raw@,
                index_comp,
                index_count as int,
                vertex_count as int,
                infos@,
                p.attributes@,
                ext@.attributes,
            ) == Err::<DecodedView, DracoLoadError>(e),
        },
{
    let cs = mapping::comp_size_bytes(index_comp);
    if index_count > raw.len() / cs {
        proof {
            layout::lemma_div_mul_gt(index_count as int, raw@.len() as int, cs as int);
        }
        return Err(DracoLoadError::DracoDecode);
    }
    proof {
        layout::lemma_div_mul_le(index_count as int, raw@.len() as int, cs as int);
    }
    let index_bytes = index_count * cs;
    let indices = match layout::get_indices(raw, index_bytes, index_comp) {
        Err(e) => {
            return Err(e);
        },
        Ok(v) => v,
    };
    let blocks = match layout::slice_attr_blocks(raw.len(), index_bytes, vertex_count, infos) {
        Err(e) => {
            return Err(e);
        },
        Ok(b) => b,
    };
    let rmap = build_reverse_map(ext, p);
    let mut out = DecodedPrimitive {
        indices,
        positions: None,
        normals: None,
        tangents: None,
        texcoords: Vec::new(),
        colors: Vec::new(),
        joints: Vec::new(),
        weights: Vec::new(),
    };
    proof {
        assert(chan_view(out.texcoords@) =~= Seq::<(u32, Seq<(u32, u32)>)>::empty());
        assert(chan_view(out.colors@) =~= Seq::<(u32, ColorView)>::empty());
        assert(chan_view(out.joints@) =~= Seq::<(u32, Seq<(u16, u16, u16, u16)>)>::empty());
        assert(chan_view(out.weights@) =~= Seq::<(u32, WeightView)>::empty());
        assert forall|i: int| 0 <= i < blocks@.len() implies (#[trigger] blocks@[i]).start
            <= blocks@[i].end <= raw@.len() by {
            layout::lemma_prefix_len_mono(infos@, vertex_count as int, 0, i);
            layout::lemma_prefix_len_mono(infos@, vertex_count as int, i, i + 1);
            layout::lemma_prefix_len_mono(infos@, vertex_count as int, i + 1, infos@.len() as int);
        }
    }
    match fill_primitive(&mut out, raw, &blocks, &rmap) {
        Err(e) => Err(e),
        Ok(_) => Ok(out),
    }
}

/// An 8-bit index accessor is always requested from the engine as a
/// 16-bit one: no plan this library prepares carries an 8-bit index
/// component type, whatever the primitive declares.
pub proof fn lemma_no_eight_bit_index_requested(
    p: document::PrimitiveInfo,
    views: Seq<document::BufferViewInfo>,
    buffer_count: int,
    infos: Seq<AttrInfo>,
)
    ensures
        spec_prepare(p, views, buffer_count, infos) matches Ok(plan) ==> plan.index_comp
            != mapping::ComponentType::U8,
{
}

/// Decoding is a pure function of its inputs. Preparing the engine
/// call twice over one primitive, document and descriptor list
/// resolves the same plan, and reading one engine output back twice
/// over one set of metadata yields the same decoded primitive; no
/// state persists between calls.
pub proof fn lemma_decode_deterministic(
    p: document::PrimitiveInfo,
    views: Seq<document::BufferViewInfo>,
    buffer_count: int,
    infos: Seq<AttrInfo>,
    raw: Seq<u8>,
    index_comp: ComponentType,
    index_count: int,
    vertex_count: int,
    prim_attrs: Seq<(Semantic, AccessorInfo)>,
    ext_attrs: Seq<(Seq<u8>, u32)>,
    plan1: Result<PlanSpec, DracoLoadError>,
    plan2: Result<PlanSpec, DracoLoadError>,
    out1: Result<DecodedView, DracoLoadError>,
    out2: Result<DecodedView, DracoLoadError>,
)
    requires
        plan1 == spec_prepare(p, views, buffer_count, infos),
        plan2 == spec_prepare(p, views, buffer_count, infos),
        out1 == spec_finish(
            raw,
            index_comp,
            index_count,
            vertex_count,
            infos,
            prim_attrs,
            ext_attrs,
        ),
        out2 == spec_finish(
            raw,
            index_comp,
            index_count,
            vertex_count,
            infos,
            prim_attrs,
            ext_attrs,
        ),
    ensures
        plan1 == plan2,
        out1 == out2,
{
}

/// An empty decoded primitive: no indices and no attribute values.
impl Default for DecodedPrimitive {
    fn default() -> (r: Self)
        ensures
            r@.indices.len() == 0,
            r@.positions is None,
            r@.normals is None,
            r@.tangents is None,
            r@.texcoords.len() == 0,
            r@.colors.len() == 0,
            r@.joints.len() == 0,
            r@.weights.len() == 0,
    {
        DecodedPrimitive {
            indices: Vec::new(),
            positions: None,
            normals: None,
            tangents: None,
            texcoords: Vec::new(),
            colors: Vec::new(),
            joints: Vec::new(),
            weights: Vec::new(),
        }
    }
}

} // verus!
