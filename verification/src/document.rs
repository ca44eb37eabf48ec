use vstd::prelude::*;

use crate::extension::JsonVal;
use crate::mapping::{AccessorInfo, Semantic};

verus! {

/// Topology of a primitive. Only triangle lists are decoded.
#[derive(Debug, Clone, Copy, PartialEq, Eq, Structural)]
pub enum Mode {
    Points,
    Lines,
    LineLoop,
    LineStrip,
    Triangles,
    TriangleStrip,
    TriangleFan,
}

/// One buffer view of the container document: a contiguous byte range
/// within one of the caller's binary buffers.
#[derive(Debug, Clone, Copy, PartialEq, Eq, Structural)]
pub struct BufferViewInfo {
    /// The view's own index in the document's buffer-view list.
    pub index: usize,
    /// Index of the backing buffer in the caller's buffer list.
    pub buffer: usize,
    /// Start of the range within the backing buffer.
    pub offset: usize,
    /// Length of the range in bytes.
    pub length: usize,
}

/// What the pipeline reads from one primitive of the container
/// document: its topology, its attribute accessors keyed by semantic,
/// its indices accessor, and the raw payload of the compression
/// extension, when present.
#[derive(Debug)]
pub struct PrimitiveInfo {
    pub mode: Mode,
    pub attributes: Vec<(Semantic, AccessorInfo)>,
    pub indices: Option<AccessorInfo>,
    pub draco_extension: Option<JsonVal>,
}

/// First accessor registered under `sem`, if any.
pub open spec fn spec_find_accessor(
    attrs: Seq<(Semantic, AccessorInfo)>,
    sem: Semantic,
) -> Option<AccessorInfo>
    decreases attrs.len(),
{
    if attrs.len() == 0 {
        None
    } else if attrs[0].0 == sem {
        Some(attrs[0].1)
    } else {
        spec_find_accessor(attrs.skip(1), sem)
    }
}

/// Looks up the primitive's accessor for a semantic.
pub fn find_accessor(p: &PrimitiveInfo, sem: Semantic) -> (r: Option<AccessorInfo>)
    ensures
        r == spec_find_accessor(p.attributes@, sem),
{
    let mut i: usize = 0;
    assert(p.attributes@.skip(0) =~= p.attributes@);
    while i < p.attributes.len()
        invariant
            0 <= i <= p.attributes@.len(),
            spec_find_accessor(p.attributes@, sem) == spec_find_accessor(
                p.attributes@.skip(i as int),
                sem,
            ),
        decreases p.attributes@.len() - i,
    {
        proof {
            assert(p.attributes@.skip(i as int)[0] == p.attributes@[i as int]);
            assert(p.attributes@.skip(i as int).skip(1) =~= p.attributes@.skip(i as int + 1));
        }
        if p.attributes[i].0 == sem {
            return Some(p.attributes[i].1);
        }
        i += 1;
    }
    None
}

/// First buffer view whose own index equals `index`, if any.
pub open spec fn spec_find_view(views: Seq<BufferViewInfo>, index: int) -> Option<BufferViewInfo>
    decreases views.len(),
{
    if views.len() == 0 {
        None
    } else if views[0].index == index {
        Some(views[0])
    } else {
        spec_find_view(views.skip(1), index)
    }
}

/// Looks up a buffer view by its own index.
pub fn find_view(views: &Vec<BufferViewInfo>, index: usize) -> (r: Option<BufferViewInfo>)
    ensures
        r == spec_find_view(views@, index as int),
{
    let mut i: usize = 0;
    assert(views@.skip(0) =~= views@);
    while i < views.len()
        invariant
            0 <= i <= views@.len(),
            spec_find_view(views@, index as int) == spec_find_view(
                views@.skip(i as int),
                index as int,
            ),
        decreases views@.len() - i,
    {
        proof {
            assert(views@.skip(i as int)[0] == views@[i as int]);
            assert(views@.skip(i as int).skip(1) =~= views@.skip(i as int + 1));
        }
        if views[i].index == index {
            return Some(views[i]);
        }
        i += 1;
    }
    None
}

} // verus!
