use vstd::prelude::*;

use crate::mapping::{
    spec_comp_size, spec_elem_size, spec_le16, spec_le32, spec_map_draco_dt, AttributeDataType,
    ComponentType,
};
use crate::{AttrInfo, DracoLoadError};

verus! {

/// One attribute section of the engine's flat output buffer: which
/// engine-side id it carries, where its bytes lie, and how one element
/// is shaped.
#[derive(Debug, Clone, Copy, PartialEq, Eq, Structural)]
pub struct AttrBlock {
    pub unique_id: u32,
    pub start: usize,
    pub end: usize,
    pub dim: u32,
    pub dt: AttributeDataType,
}

/// The index values stored in the first `index_bytes` bytes of the
/// engine's output: little-endian, each widened to 32 bits. A buffer
/// shorter than the index section, or an index component type other
/// than the three unsigned widths, is a decode failure.
pub open spec fn spec_decode_indices(
    raw: Seq<u8>,
    index_bytes: int,
    comp: ComponentType,
) -> Result<Seq<u32>, DracoLoadError> {
    if index_bytes > raw.len() || index_bytes < 0 {
        Err(DracoLoadError::DracoDecode)
    } else {
        let ib = raw.take(index_bytes);
        match comp {
            ComponentType::U16 => Ok(
                Seq::new(ib.len() / 2, |j: int| spec_le16(ib[2 * j], ib[2 * j + 1]) as u32),
            ),
            ComponentType::U32 => Ok(
                Seq::new(
                    ib.len() / 4,
                    |j: int| spec_le32(ib[4 * j], ib[4 * j + 1], ib[4 * j + 2], ib[4 * j + 3]),
                ),
            ),
            ComponentType::U8 => Ok(Seq::new(ib.len(), |j: int| ib[j] as u32)),
            _ => Err(DracoLoadError::DracoDecode),
        }
    }
}

/// Decodes the index section: the first `index_bytes` bytes of the
/// engine's output, read little-endian and widened to 32 bits. Index
/// order is kept exactly as emitted.
pub fn get_indices(raw: &[u8], index_bytes: usize, index_comp: ComponentType) -> (r: Result<
    Vec<u32>,
    DracoLoadError,
>)
    ensures
        match r {
            Ok(v) => spec_decode_indices(raw@, index_bytes as int, index_comp) == Ok::<
                Seq<u32>,
                DracoLoadError,
            >(v@),
            Err(e) => spec_decode_indices(raw@, index_bytes as int, index_comp) == Err::<
                Seq<u32>,
                DracoLoadError,
            >(e),
        },
{
    if index_bytes > raw.len() {
        return Err(DracoLoadError::DracoDecode);
    }
    let ghost ib = raw@.take(index_bytes as int);
    match index_comp {
        ComponentType::U16 => {
            let n = index_bytes / 2;
            let mut v: Vec<u32> = Vec::new();
            let mut j: usize = 0;
            while j < n
                invariant
                    n == index_bytes / 2,
                    index_bytes <= raw@.len() <= usize::MAX,
                    ib == raw@.take(index_bytes as int),
                    j <= n,
                    v@.len() == j,
                    forall|k: int| 0 <= k < j ==> v@[k] == spec_le16(ib[2 * k], ib[2 * k + 1]) as u32,
                decreases n - j,
            {
                assert(2 * j + 2 <= index_bytes);
                let base = j * 2;
                let w = crate::mapping::read_le16(raw, base);
                assert(ib[2 * j as int] == raw@[2 * j as int] && ib[2 * j as int + 1] == raw@[
                    2 * j as int + 1
                ]);
                v.push(w as u32);
                j += 1;
            }
            proof {
                assert(Ok::<Seq<u32>, DracoLoadError>(v@) == spec_decode_indices(
                    raw@,
                    index_bytes as int,
                    index_comp,
                )) by {
                    assert(v@ =~= Seq::new(
                        ib.len() / 2,
                        |j: int| spec_le16(ib[2 * j], ib[2 * j + 1]) as u32,
                    ));
                }
            }
            Ok(v)
        },
        ComponentType::U32 => {
            let n = index_bytes / 4;
            let mut v: Vec<u32> = Vec::new();
            let mut j: usize = 0;
            while j < n
                invariant
                    n == index_bytes / 4,
                    index_bytes <= raw@.len() <= usize::MAX,
                    ib == raw@.take(index_bytes as int),
                    j <= n,
                    v@.len() == j,
                    forall|k: int|
                        0 <= k < j ==> v@[k] == spec_le32(
                            ib[4 * k],
                            ib[4 * k + 1],
                            ib[4 * k + 2],
                            ib[4 * k + 3],
                        ),
                decreases n - j,
            {
                assert(4 * j + 4 <= index_bytes);
                let base = j * 4;
                let w = crate::mapping::read_le32(raw, base);
                assert(ib[4 * j as int] == raw@[4 * j as int] && ib[4 * j as int + 1] == raw@[
                    4 * j as int + 1
                ] && ib[4 * j as int + 2] == raw@[4 * j as int + 2] && ib[4 * j as int + 3] == raw@[
                    4 * j as int + 3
                ]);
                v.push(w);
                j += 1;
            }
            proof {
                assert(Ok::<Seq<u32>, DracoLoadError>(v@) == spec_decode_indices(
                    raw@,
                    index_bytes as int,
                    index_comp,
                )) by {
                    assert(v@ =~= Seq::new(
                        ib.len() / 4,
                        |j: int|
                            spec_le32(ib[4 * j], ib[4 * j + 1], ib[4 * j + 2], ib[4 * j + 3]),
                    ));
                }
            }
            Ok(v)
        },
        ComponentType::U8 => {
            let mut v: Vec<u32> = Vec::new();
            let mut j: usize = 0;
            while j < index_bytes
                invariant
                    index_bytes <= raw@.len() <= usize::MAX,
                    ib == raw@.take(index_bytes as int),
                    j <= index_bytes,
                    v@.len() == j,
                    forall|k: int| 0 <= k < j ==> v@[k] == ib[k] as u32,
                decreases index_bytes - j,
            {
                let b = raw[j];
                v.push(b as u32);
                j += 1;
            }
            proof {
                assert(Ok::<Seq<u32>, DracoLoadError>(v@) == spec_decode_indices(
                    raw@,
                    index_bytes as int,
                    index_comp,
                )) by {
                    assert(v@ =~= Seq::new(ib.len(), |j: int| ib[j] as u32));
                }
            }
            Ok(v)
        },
        _ => Err(DracoLoadError::DracoDecode),
    }
}

/// Bytes one attribute section occupies: one element per vertex, each
/// of `dim` components of the descriptor's scalar width.
pub open spec fn spec_attr_len(info: AttrInfo, vertex_count: int) -> int {
    vertex_count * info.dim * spec_elem_size(spec_map_draco_dt(info.data_type))
}

/// Bytes the first `i` attribute sections occupy together.
pub open spec fn spec_prefix_len(infos: Seq<AttrInfo>, vertex_count: int, i: int) -> int
    decreases i,
{
    if i <= 0 {
        0
    } else {
        spec_prefix_len(infos, vertex_count, i - 1) + spec_attr_len(infos[i - 1], vertex_count)
    }
}

/// Total bytes the engine's output must hold: the index section
/// followed by every attribute section.
pub open spec fn spec_total_len(
    comp: ComponentType,
    index_count: int,
    vertex_count: int,
    infos: Seq<AttrInfo>,
) -> int {
    index_count * spec_comp_size(comp) + spec_prefix_len(infos, vertex_count, infos.len() as int)
}

/// The attribute sections' places in the engine's output, in
/// descriptor order, when the first section starts at `index_bytes`.
pub open spec fn spec_blocks(infos: Seq<AttrInfo>, vertex_count: int, index_bytes: int) -> Seq<
    AttrBlock,
> {
    Seq::new(
        infos.len(),
        |i: int|
            AttrBlock {
                unique_id: infos[i].unique_id,
                start: (index_bytes + spec_prefix_len(infos, vertex_count, i)) as usize,
                end: (index_bytes + spec_prefix_len(infos, vertex_count, i + 1)) as usize,
                dim: infos[i].dim,
                dt: spec_map_draco_dt(infos[i].data_type),
            },
    )
}

proof fn lemma_attr_len_nonneg(info: AttrInfo, vertex_count: int)
    requires
        vertex_count >= 0,
    ensures
        spec_attr_len(info, vertex_count) >= 0,
{
    vstd::arithmetic::mul::lemma_mul_nonnegative(vertex_count, info.dim as int);
    vstd::arithmetic::mul::lemma_mul_nonnegative(
        vertex_count * info.dim,
        spec_elem_size(spec_map_draco_dt(info.data_type)) as int,
    );
}

/// Later prefixes are no shorter: every attribute section has
/// nonnegative length.
pub proof fn lemma_prefix_len_mono(infos: Seq<AttrInfo>, vertex_count: int, i: int, j: int)
    requires
        vertex_count >= 0,
        0 <= i <= j,
    ensures
        spec_prefix_len(infos, vertex_count, i) <= spec_prefix_len(infos, vertex_count, j),
    decreases j - i,
{
    if i < j {
        lemma_prefix_len_mono(infos, vertex_count, i, j - 1);
        lemma_attr_len_nonneg(infos[j - 1], vertex_count);
    }
}

pub(crate) proof fn lemma_div_mul_le(q: int, rem: int, d: int)
    requires
        d > 0,
        0 <= q,
        0 <= rem,
        q <= rem / d,
    ensures
        q * d <= rem,
{
    vstd::arithmetic::div_mod::lemma_fundamental_div_mod(rem, d);
    vstd::arithmetic::mul::lemma_mul_inequality(q, rem / d, d);
}

pub(crate) proof fn lemma_div_mul_gt(q: int, rem: int, d: int)
    requires
        d > 0,
        0 <= rem,
        q > rem / d,
    ensures
        q * d > rem,
{
    vstd::arithmetic::div_mod::lemma_fundamental_div_mod(rem, d);
    vstd::arithmetic::mul::lemma_mul_inequality(rem / d + 1, q, d);
    vstd::arithmetic::mul::lemma_mul_is_distributive_add_other_way(d, rem / d, 1);
    vstd::arithmetic::mul::lemma_mul_is_commutative(d, rem / d);
}

/// Walks the engine's output after the index section, carving one byte
/// range per descriptor, in descriptor order. Running out of bytes at
/// any step is a decode failure; surplus bytes past the last section
/// are left untouched.
pub fn slice_attr_blocks(
    raw_len: usize,
    index_bytes: usize,
    vertex_count: usize,
    infos: &Vec<AttrInfo>,
) -> (r: Result<Vec<AttrBlock>, DracoLoadError>)
    requires
        index_bytes <= raw_len,
        forall|i: int| 0 <= i < infos@.len() ==> 1 <= (#[trigger] infos@[i]).dim <= 4,
    ensures
        match r {
            Ok(blocks) => {
                &&& index_bytes + spec_prefix_len(
                    infos@,
                    vertex_count as int,
                    infos@.len() as int,
                ) <= raw_len
                &&& blocks@ == spec_blocks(infos@, vertex_count as int, index_bytes as int)
            },
            Err(e) => {
                &&& e == DracoLoadError::DracoDecode
                &&& index_bytes + spec_prefix_len(infos@, vertex_count as int, infos@.len() as int)
                    > raw_len
            },
        },
{
    let mut blocks: Vec<AttrBlock> = Vec::new();
    let mut cursor: usize = index_bytes;
    let mut i: usize = 0;
    while i < infos.len()
        invariant
            index_bytes <= raw_len,
            forall|k: int| 0 <= k < infos@.len() ==> 1 <= (#[trigger] infos@[k]).dim <= 4,
            0 <= i <= infos@.len(),
            cursor == index_bytes + spec_prefix_len(infos@, vertex_count as int, i as int),
            cursor <= raw_len,
            blocks@.len() == i,
            forall|k: int|
                0 <= k < i ==> #[trigger] blocks@[k] == spec_blocks(
                    infos@,
                    vertex_count as int,
                    index_bytes as int,
                )[k],
        decreases infos@.len() - i,
    {
        let info = infos[i];
        assert(1 <= info.dim <= 4);
        let elem_size: usize = match info.data_type {
            1 | 2 => 1,
            3 | 4 => 2,
            _ => 4,
        };
        assert(elem_size == spec_elem_size(spec_map_draco_dt(info.data_type)));
        let d: usize = (info.dim as usize) * elem_size;
        let remaining = raw_len - cursor;
        if vertex_count > remaining / d {
            proof {
                lemma_div_mul_gt(vertex_count as int, remaining as int, d as int);
                vstd::arithmetic::mul::lemma_mul_is_associative(
                    vertex_count as int,
                    info.dim as int,
                    elem_size as int,
                );
                assert(spec_attr_len(infos@[i as int], vertex_count as int) > remaining);
                lemma_prefix_len_mono(infos@, vertex_count as int, i as int + 1, infos@.len() as int);
            }
            return Err(DracoLoadError::DracoDecode);
        }
        proof {
            lemma_div_mul_le(vertex_count as int, remaining as int, d as int);
            vstd::arithmetic::mul::lemma_mul_is_associative(
                vertex_count as int,
                info.dim as int,
                elem_size as int,
            );
            assert(spec_attr_len(infos@[i as int], vertex_count as int) == vertex_count * d
                <= remaining);
        }
        let byte_len = vertex_count * d;
        let blk = AttrBlock {
            unique_id: info.unique_id,
            start: cursor,
            end: cursor + byte_len,
            dim: info.dim,
            dt: crate::mapping::map_draco_dt(info.data_type),
        };
        blocks.push(blk);
        cursor = cursor + byte_len;
        i += 1;
    }
    proof {
        assert(blocks@ =~= spec_blocks(infos@, vertex_count as int, index_bytes as int));
    }
    Ok(blocks)
}

/// The index section and the attribute sections account for the
/// engine's whole output: when the buffer's length equals the layout's
/// total, the first attribute section starts where the index section
/// ends, each further section starts where the one before it ends, and
/// the last one ends at the buffer's last byte. A buffer of exactly
/// that length is also accepted by the layout walk.
#[verifier::rlimit(50)]
pub proof fn lemma_sections_cover_buffer(
    raw_len: int,
    comp: ComponentType,
    index_count: int,
    vertex_count: int,
    infos: Seq<AttrInfo>,
)
    requires
        index_count >= 0,
        vertex_count >= 0,
        0 <= raw_len <= usize::MAX,
        raw_len == spec_total_len(comp, index_count, vertex_count, infos),
    ensures
        ({
            let ib = index_count * spec_comp_size(comp);
            let blocks = spec_blocks(infos, vertex_count, ib);
            &&& ib + spec_prefix_len(infos, vertex_count, infos.len() as int) <= raw_len
            &&& blocks.len() == infos.len()
            &&& forall|i: int| 0 <= i < blocks.len() ==> (#[trigger] blocks[i]).start == (
            if i == 0 {
                ib
            } else {
                blocks[i - 1].end as int
            })
            &&& (if blocks.len() == 0 {
                ib == raw_len
            } else {
                blocks[blocks.len() - 1].end == raw_len
            })
        }),
{
    let ib = index_count * spec_comp_size(comp);
    vstd::arithmetic::mul::lemma_mul_nonnegative(index_count, spec_comp_size(comp) as int);
    let blocks = spec_blocks(infos, vertex_count, ib);
    assert forall|i: int| 0 <= i <= infos.len() implies 0 <= ib + #[trigger] spec_prefix_len(
        infos,
        vertex_count,
        i,
    ) <= raw_len by {
        lemma_prefix_len_mono(infos, vertex_count, 0, i);
        lemma_prefix_len_mono(infos, vertex_count, i, infos.len() as int);
    }
    assert forall|i: int| 0 <= i < blocks.len() implies (#[trigger] blocks[i]).start == (
    if i == 0 {
        ib
    } else {
        blocks[i - 1].end as int
    }) by {
        if i > 0 {
            assert(blocks[i - 1].end == (ib + spec_prefix_len(infos, vertex_count, i)) as usize);
        }
    }
}

} // verus!