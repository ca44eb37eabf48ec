use vstd::prelude::*;

verus! {

/// Attribute meaning of one vertex stream, as named by the container
/// document. Numbered variants carry the channel-set number (a second
/// UV channel is `TexCoords(1)`, and so on).
#[derive(Debug, Clone, Copy, PartialEq, Eq, Structural)]
pub enum Semantic {
    Positions,
    Normals,
    Tangents,
    TexCoords(u32),
    Colors(u32),
    Joints(u32),
    Weights(u32),
}

/// Scalar type of one component of an engine-side attribute stream.
#[derive(Debug, Clone, Copy, PartialEq, Eq, Structural)]
pub enum AttributeDataType {
    Int8,
    UInt8,
    Int16,
    UInt16,
    Int32,
    UInt32,
    Float32,
}

/// Component type of a container accessor.
#[derive(Debug, Clone, Copy, PartialEq, Eq, Structural)]
pub enum ComponentType {
    I8,
    U8,
    I16,
    U16,
    U32,
    F32,
}

/// Element shape of a container accessor.
#[derive(Debug, Clone, Copy, PartialEq, Eq, Structural)]
pub enum Dimensions {
    Scalar,
    Vec2,
    Vec3,
    Vec4,
    Mat2,
    Mat3,
    Mat4,
}

/// What the pipeline reads from one container accessor: how many
/// elements it describes, and their component type and shape.
#[derive(Debug, Clone, Copy, PartialEq, Eq, Structural)]
pub struct AccessorInfo {
    pub count: usize,
    pub data_type: ComponentType,
    pub dimensions: Dimensions,
}

/// The engine-side scalar type that a small-integer type code denotes.
/// Codes outside the known range fall back to `Float32`; 64-bit codes
/// never occur in container vertex streams.
pub open spec fn spec_map_draco_dt(dt_u8: u8) -> AttributeDataType {
    if dt_u8 == 1 {
        AttributeDataType::Int8
    } else if dt_u8 == 2 {
        AttributeDataType::UInt8
    } else if dt_u8 == 3 {
        AttributeDataType::Int16
    } else if dt_u8 == 4 {
        AttributeDataType::UInt16
    } else if dt_u8 == 5 {
        AttributeDataType::Int32
    } else if dt_u8 == 6 {
        AttributeDataType::UInt32
    } else {
        AttributeDataType::Float32
    }
}

/// Maps the engine's small-integer type code onto the scalar type it denotes.
pub fn map_draco_dt(dt_u8: u8) -> (r: AttributeDataType)
    ensures
        r == spec_map_draco_dt(dt_u8),
{
    match dt_u8 {
        1 => AttributeDataType::Int8,
        2 => AttributeDataType::UInt8,
        3 => AttributeDataType::Int16,
        4 => AttributeDataType::UInt16,
        5 => AttributeDataType::Int32,
        6 => AttributeDataType::UInt32,
        7 => AttributeDataType::Float32,
        _ => AttributeDataType::Float32,
    }
}

/// Width in bytes of one accessor component.
pub open spec fn spec_comp_size(ct: ComponentType) -> nat {
    match ct {
        ComponentType::I8 => 1,
        ComponentType::U8 => 1,
        ComponentType::I16 => 2,
        ComponentType::U16 => 2,
        ComponentType::U32 => 4,
        ComponentType::F32 => 4,
    }
}

/// Width in bytes of one accessor component.
pub fn comp_size_bytes(ct: ComponentType) -> (r: usize)
    ensures
        r == spec_comp_size(ct),
{
    match ct {
        ComponentType::I8 | ComponentType::U8 => 1,
        ComponentType::I16 | ComponentType::U16 => 2,
        ComponentType::U32 | ComponentType::F32 => 4,
    }
}

/// Component count of an accessor element. Matrix shapes do not occur in
/// the vertex streams handled here; they take the same fallback the
/// vector-of-four shape does.
pub open spec fn spec_dims_count(d: Dimensions) -> nat {
    match d {
        Dimensions::Scalar => 1,
        Dimensions::Vec2 => 2,
        Dimensions::Vec3 => 3,
        _ => 4,
    }
}

/// Component count of an accessor element.
pub fn dims_count(d: Dimensions) -> (r: usize)
    ensures
        r == spec_dims_count(d),
{
    match d {
        Dimensions::Scalar => 1,
        Dimensions::Vec2 => 2,
        Dimensions::Vec3 => 3,
        _ => 4,
    }
}

/// Width in bytes of one component of an engine-side attribute stream.
pub open spec fn spec_elem_size(dt: AttributeDataType) -> nat {
    match dt {
        AttributeDataType::Int8 => 1,
        AttributeDataType::UInt8 => 1,
        AttributeDataType::Int16 => 2,
        AttributeDataType::UInt16 => 2,
        _ => 4,
    }
}

/// The 16-bit value stored little-endian as the bytes `b0`, `b1`.
pub open spec fn spec_le16(b0: u8, b1: u8) -> u16 {
    (b0 + b1 * 256) as u16
}

/// The 32-bit value stored little-endian as the bytes `b0` .. `b3`.
pub open spec fn spec_le32(b0: u8, b1: u8, b2: u8, b3: u8) -> u32 {
    (b0 + b1 * 256 + b2 * 65536 + b3 * 16777216) as u32
}

/// Reads the 16-bit little-endian value at byte offset `off`.
pub fn read_le16(bytes: &[u8], off: usize) -> (r: u16)
    requires
        off + 2 <= bytes@.len(),
    ensures
        r == spec_le16(bytes@[off as int], bytes@[off as int + 1]),
{
    (bytes[off] as u16) + (bytes[off + 1] as u16) * 256
}

/// Reads the 32-bit little-endian value at byte offset `off`.
pub fn read_le32(bytes: &[u8], off: usize) -> (r: u32)
    requires
        off + 4 <= bytes@.len(),
    ensures
        r == spec_le32(
            bytes@[off as int],
            bytes@[off as int + 1],
            bytes@[off as int + 2],
            bytes@[off as int + 3],
        ),
{
    (bytes[off] as u32) + (bytes[off + 1] as u32) * 256 + (bytes[off + 2] as u32) * 65536 + (bytes[
        off + 3
    ] as u32) * 16777216
}

/// Groups of four 16-bit little-endian values, one group per eight input
/// bytes; a trailing partial group is dropped.
pub fn as_u16x4(bytes: &[u8]) -> (r: Vec<[u16; 4]>)
    ensures
        r@.len() == bytes@.len() / 8,
        forall|j: int|
            0 <= j < r@.len() ==> r@[j]@ =~= seq![
                spec_le16(bytes@[8 * j], bytes@[8 * j + 1]),
                spec_le16(bytes@[8 * j + 2], bytes@[8 * j + 3]),
                spec_le16(bytes@[8 * j + 4], bytes@[8 * j + 5]),
                spec_le16(bytes@[8 * j + 6], bytes@[8 * j + 7]),
            ],
{
    let n = bytes.len() / 8;
    let mut r: Vec<[u16; 4]> = Vec::new();
    let mut j: usize = 0;
    while j < n
        invariant
            n == bytes@.len() / 8,
            bytes@.len() <= usize::MAX,
            j <= n,
            r@.len() == j,
            forall|k: int|
                0 <= k < j ==> r@[k]@ =~= seq![
                    spec_le16(bytes@[8 * k], bytes@[8 * k + 1]),
                    spec_le16(bytes@[8 * k + 2], bytes@[8 * k + 3]),
                    spec_le16(bytes@[8 * k + 4], bytes@[8 * k + 5]),
                    spec_le16(bytes@[8 * k + 6], bytes@[8 * k + 7]),
                ],
        decreases n - j,
    {
        assert(8 * j + 8 <= bytes@.len());
        let base = j * 8;
        let quad: [u16; 4] = [
            read_le16(bytes, base),
            read_le16(bytes, base + 2),
            read_le16(bytes, base + 4),
            read_le16(bytes, base + 6),
        ];
        r.push(quad);
        j += 1;
    }
    r
}

/// Pairs of 32-bit little-endian words, one pair per eight input bytes.
/// Each word is the raw bit pattern of one 32-bit float component.
pub open spec fn spec_words_x2(b: Seq<u8>) -> Seq<(u32, u32)> {
    Seq::new(
        b.len() / 8,
        |j: int|
            (
                spec_le32(b[8 * j], b[8 * j + 1], b[8 * j + 2], b[8 * j + 3]),
                spec_le32(b[8 * j + 4], b[8 * j + 5], b[8 * j + 6], b[8 * j + 7]),
            ),
    )
}

/// Triples of 32-bit little-endian words, one triple per twelve input bytes.
pub open spec fn spec_words_x3(b: Seq<u8>) -> Seq<(u32, u32, u32)> {
    Seq::new(
        b.len() / 12,
        |j: int|
            (
                spec_le32(b[12 * j], b[12 * j + 1], b[12 * j + 2], b[12 * j + 3]),
                spec_le32(b[12 * j + 4], b[12 * j + 5], b[12 * j + 6], b[12 * j + 7]),
                spec_le32(b[12 * j + 8], b[12 * j + 9], b[12 * j + 10], b[12 * j + 11]),
            ),
    )
}

/// Quadruples of 32-bit little-endian words, one per sixteen input bytes.
pub open spec fn spec_words_x4(b: Seq<u8>) -> Seq<(u32, u32, u32, u32)> {
    Seq::new(
        b.len() / 16,
        |j: int|
            (
                spec_le32(b[16 * j], b[16 * j + 1], b[16 * j + 2], b[16 * j + 3]),
                spec_le32(b[16 * j + 4], b[16 * j + 5], b[16 * j + 6], b[16 * j + 7]),
                spec_le32(b[16 * j + 8], b[16 * j + 9], b[16 * j + 10], b[16 * j + 11]),
                spec_le32(b[16 * j + 12], b[16 * j + 13], b[16 * j + 14], b[16 * j + 15]),
            ),
    )
}

/// Quadruples of 16-bit little-endian values, one per eight input bytes.
pub open spec fn spec_shorts_x4(b: Seq<u8>) -> Seq<(u16, u16, u16, u16)> {
    Seq::new(
        b.len() / 8,
        |j: int|
            (
                spec_le16(b[8 * j], b[8 * j + 1]),
                spec_le16(b[8 * j + 2], b[8 * j + 3]),
                spec_le16(b[8 * j + 4], b[8 * j + 5]),
                spec_le16(b[8 * j + 6], b[8 * j + 7]),
            ),
    )
}

/// Quadruples of bytes widened to 16 bits with no scaling, one per four
/// input bytes.
pub open spec fn spec_widen_x4(b: Seq<u8>) -> Seq<(u16, u16, u16, u16)> {
    Seq::new(
        b.len() / 4,
        |j: int|
            (
                b[4 * j] as u16,
                b[4 * j + 1] as u16,
                b[4 * j + 2] as u16,
                b[4 * j + 3] as u16,
            ),
    )
}

/// Quadruples of raw bytes, one per four input bytes.
pub open spec fn spec_bytes_x4(b: Seq<u8>) -> Seq<(u8, u8, u8, u8)> {
    Seq::new(b.len() / 4, |j: int| (b[4 * j], b[4 * j + 1], b[4 * j + 2], b[4 * j + 3]))
}

/// Reads two-component elements of 32-bit little-endian words.
pub fn words_x2(bytes: &[u8]) -> (r: Vec<(u32, u32)>)
    ensures
        r@ =~= spec_words_x2(bytes@),
{
    let n = bytes.len() / 8;
    let mut r: Vec<(u32, u32)> = Vec::new();
    let mut j: usize = 0;
    while j < n
        invariant
            n == bytes@.len() / 8,
            bytes@.len() <= usize::MAX,
            j <= n,
            r@.len() == j,
            forall|k: int| 0 <= k < j ==> r@[k] == spec_words_x2(bytes@)[k],
        decreases n - j,
    {
        assert(8 * j + 8 <= bytes@.len());
        let base = j * 8;
        r.push((read_le32(bytes, base), read_le32(bytes, base + 4)));
        j += 1;
    }
    r
}

/// Reads three-component elements of 32-bit little-endian words.
pub fn words_x3(bytes: &[u8]) -> (r: Vec<(u32, u32, u32)>)
    ensures
        r@ =~= spec_words_x3(bytes@),
{
    let n = bytes.len() / 12;
    let mut r: Vec<(u32, u32, u32)> = Vec::new();
    let mut j: usize = 0;
    while j < n
        invariant
            n == bytes@.len() / 12,
            bytes@.len() <= usize::MAX,
            j <= n,
            r@.len() == j,
            forall|k: int| 0 <= k < j ==> r@[k] == spec_words_x3(bytes@)[k],
        decreases n - j,
    {
        assert(12 * j + 12 <= bytes@.len());
        let base = j * 12;
        r.push((read_le32(bytes, base), read_le32(bytes, base + 4), read_le32(bytes, base + 8)));
        j += 1;
    }
    r
}

/// Reads four-component elements of 32-bit little-endian words.
pub fn words_x4(bytes: &[u8]) -> (r: Vec<(u32, u32, u32, u32)>)
    ensures
        r@ =~= spec_words_x4(bytes@),
{
    let n = bytes.len() / 16;
    let mut r: Vec<(u32, u32, u32, u32)> = Vec::new();
    let mut j: usize = 0;
    while j < n
        invariant
            n == bytes@.len() / 16,
            bytes@.len() <= usize::MAX,
            j <= n,
            r@.len() == j,
            forall|k: int| 0 <= k < j ==> r@[k] == spec_words_x4(bytes@)[k],
        decreases n - j,
    {
        assert(16 * j + 16 <= bytes@.len());
        let base = j * 16;
        r.push(
            (
                read_le32(bytes, base),
                read_le32(bytes, base + 4),
                read_le32(bytes, base + 8),
                read_le32(bytes, base + 12),
            ),
        );
        j += 1;
    }
    r
}

/// Reads four-component elements of 16-bit little-endian values.
pub fn shorts_x4(bytes: &[u8]) -> (r: Vec<(u16, u16, u16, u16)>)
    ensures
        r@ =~= spec_shorts_x4(bytes@),
{
    let n = bytes.len() / 8;
    let mut r: Vec<(u16, u16, u16, u16)> = Vec::new();
    let mut j: usize = 0;
    while j < n
        invariant
            n == bytes@.len() / 8,
            bytes@.len() <= usize::MAX,
            j <= n,
            r@.len() == j,
            forall|k: int| 0 <= k < j ==> r@[k] == spec_shorts_x4(bytes@)[k],
        decreases n - j,
    {
        assert(8 * j + 8 <= bytes@.len());
        let base = j * 8;
        r.push(
            (
                read_le16(bytes, base),
                read_le16(bytes, base + 2),
                read_le16(bytes, base + 4),
                read_le16(bytes, base + 6),
            ),
        );
        j += 1;
    }
    r
}

/// Widens four-component byte elements to 16 bits with no scaling.
pub fn widen_x4(bytes: &[u8]) -> (r: Vec<(u16, u16, u16, u16)>)
    ensures
        r@ =~= spec_widen_x4(bytes@),
{
    let n = bytes.len() / 4;
    let mut r: Vec<(u16, u16, u16, u16)> = Vec::new();
    let mut j: usize = 0;
    while j < n
        invariant
            n == bytes@.len() / 4,
            bytes@.len() <= usize::MAX,
            j <= n,
            r@.len() == j,
            forall|k: int| 0 <= k < j ==> r@[k] == spec_widen_x4(bytes@)[k],
        decreases n - j,
    {
        assert(4 * j + 4 <= bytes@.len());
        let base = j * 4;
        r.push(
            (
                bytes[base] as u16,
                bytes[base + 1] as u16,
                bytes[base + 2] as u16,
                bytes[base + 3] as u16,
            ),
        );
        j += 1;
    }
    r
}

/// Reads four-component elements of raw bytes.
pub fn bytes_x4(bytes: &[u8]) -> (r: Vec<(u8, u8, u8, u8)>)
    ensures
        r@ =~= spec_bytes_x4(bytes@),
{
    let n = bytes.len() / 4;
    let mut r: Vec<(u8, u8, u8, u8)> = Vec::new();
    let mut j: usize = 0;
    while j < n
        invariant
            n == bytes@.len() / 4,
            bytes@.len() <= usize::MAX,
            j <= n,
            r@.len() == j,
            forall|k: int| 0 <= k < j ==> r@[k] == spec_bytes_x4(bytes@)[k],
        decreases n - j,
    {
        assert(4 * j + 4 <= bytes@.len());
        let base = j * 4;
        r.push((bytes[base], bytes[base + 1], bytes[base + 2], bytes[base + 3]));
        j += 1;
    }
    r
}

/// Groups of four bytes, one group per four input bytes; a trailing
/// partial group is dropped.
pub fn as_u8x4(bytes: &[u8]) -> (r: Vec<[u8; 4]>)
    ensures
        r@.len() == bytes@.len() / 4,
        forall|j: int|
            0 <= j < r@.len() ==> r@[j]@ =~= seq![
                bytes@[4 * j],
                bytes@[4 * j + 1],
                bytes@[4 * j + 2],
                bytes@[4 * j + 3],
            ],
{
    let n = bytes.len() / 4;
    let mut r: Vec<[u8; 4]> = Vec::new();
    let mut j: usize = 0;
    while j < n
        invariant
            n == bytes@.len() / 4,
            bytes@.len() <= usize::MAX,
            j <= n,
            r@.len() == j,
            forall|k: int|
                0 <= k < j ==> r@[k]@ =~= seq![
                    bytes@[4 * k],
                    bytes@[4 * k + 1],
                    bytes@[4 * k + 2],
                    bytes@[4 * k + 3],
                ],
        decreases n - j,
    {
        assert(4 * j + 4 <= bytes@.len());
        let base = j * 4;
        let quad: [u8; 4] = [bytes[base], bytes[base + 1], bytes[base + 2], bytes[base + 3]];
        r.push(quad);
        j += 1;
    }
    r
}

/// Whether `k` spells the fixed key "POSITION".
pub open spec fn is_position_key(k: Seq<u8>) -> bool {
    k =~= seq![80u8, 79u8, 83u8, 73u8, 84u8, 73u8, 79u8, 78u8]
}

/// Whether `k` spells the fixed key "NORMAL".
pub open spec fn is_normal_key(k: Seq<u8>) -> bool {
    k =~= seq![78u8, 79u8, 82u8, 77u8, 65u8, 76u8]
}

/// Whether `k` spells the fixed key "TANGENT".
pub open spec fn is_tangent_key(k: Seq<u8>) -> bool {
    k =~= seq![84u8, 65u8, 78u8, 71u8, 69u8, 78u8, 84u8]
}

/// Whether `k` spells the kind prefix "TEXCOORD".
pub open spec fn is_texcoord_kind(k: Seq<u8>) -> bool {
    k =~= seq![84u8, 69u8, 88u8, 67u8, 79u8, 79u8, 82u8, 68u8]
}

/// Whether `k` spells the kind prefix "COLOR".
pub open spec fn is_color_kind(k: Seq<u8>) -> bool {
    k =~= seq![67u8, 79u8, 76u8, 79u8, 82u8]
}

/// Whether `k` spells the kind prefix "JOINTS".
pub open spec fn is_joints_kind(k: Seq<u8>) -> bool {
    k =~= seq![74u8, 79u8, 73u8, 78u8, 84u8, 83u8]
}

/// Whether `k` spells the kind prefix "WEIGHTS".
pub open spec fn is_weights_kind(k: Seq<u8>) -> bool {
    k =~= seq![87u8, 69u8, 73u8, 71u8, 72u8, 84u8, 83u8]
}

/// Position of the first underscore byte at or after `i`, if any.
pub open spec fn first_underscore_from(k: Seq<u8>, i: int) -> Option<int>
    decreases k.len() - i,
{
    if i < 0 || i >= k.len() {
        None
    } else if k[i] == 95 {
        Some(i)
    } else {
        first_underscore_from(k, i + 1)
    }
}

/// Whether every byte of `s` is an ASCII decimal digit.
pub open spec fn all_digits(s: Seq<u8>) -> bool {
    forall|i: int| 0 <= i < s.len() ==> 48 <= #[trigger] s[i] <= 57
}

/// Value of a run of ASCII decimal digits, most significant first.
pub open spec fn dec_val(s: Seq<u8>) -> int
    decreases s.len(),
{
    if s.len() == 0 {
        0
    } else {
        dec_val(s.drop_last()) * 10 + (s.last() - 48)
    }
}

/// The number an unsigned decimal parse accepts: an optional leading
/// plus sign, then at least one digit, with a value that fits 32 bits.
pub open spec fn spec_parse_u32(s: Seq<u8>) -> Option<u32> {
    let body = if s.len() > 0 && s[0] == 43 {
        s.skip(1)
    } else {
        s
    };
    if body.len() == 0 || !all_digits(body) {
        None
    } else if dec_val(body) > u32::MAX {
        None
    } else {
        Some(dec_val(body) as u32)
    }
}

proof fn lemma_dec_val_nonneg(s: Seq<u8>)
    requires
        all_digits(s),
    ensures
        dec_val(s) >= 0,
    decreases s.len(),
{
    if s.len() > 0 {
        assert(all_digits(s.drop_last())) by {
            assert(forall|i: int|
                0 <= i < s.drop_last().len() ==> #[trigger] s.drop_last()[i] == s[i]);
        }
        lemma_dec_val_nonneg(s.drop_last());
    }
}

proof fn lemma_dec_val_prefix_le(s: Seq<u8>, k: int)
    requires
        all_digits(s),
        0 <= k <= s.len(),
    ensures
        dec_val(s.take(k)) <= dec_val(s),
    decreases s.len() - k,
{
    if k < s.len() {
        assert(all_digits(s.take(k))) by {
            assert(forall|i: int| 0 <= i < k ==> #[trigger] s.take(k)[i] == s[i]);
        }
        lemma_dec_val_nonneg(s.take(k));
        assert(s.take(k + 1).drop_last() =~= s.take(k));
        assert(s.take(k + 1).last() == s[k]);
        assert(dec_val(s.take(k + 1)) == dec_val(s.take(k)) * 10 + (s[k] - 48));
        assert(dec_val(s.take(k)) <= dec_val(s.take(k + 1)));
        lemma_dec_val_prefix_le(s, k + 1);
    } else {
        assert(s.take(k) =~= s);
    }
}

/// Parses an unsigned decimal number as the standard string-to-`u32`
/// conversion does: optional leading plus sign, one or more digits,
/// failure on any other byte or on 32-bit overflow.
pub fn parse_u32(s: &[u8]) -> (r: Option<u32>)
    ensures
        r == spec_parse_u32(s@),
{
    let start: usize = if s.len() > 0 && s[0] == 43 {
        1
    } else {
        0
    };
    let ghost body = if s@.len() > 0 && s@[0] == 43 {
        s@.skip(1)
    } else {
        s@
    };
    assert(body.len() == s@.len() - start);
    assert(forall|i: int| 0 <= i < body.len() ==> body[i] == s@[i + start]);
    if s.len() == start {
        return None;
    }
    let mut acc: u32 = 0;
    let mut i: usize = start;
    while i < s.len()
        invariant
            start <= i <= s@.len(),
            s@.len() <= usize::MAX,
            body == (if s@.len() > 0 && s@[0] == 43 {
                s@.skip(1)
            } else {
                s@
            }),
            body.len() > 0,
            body.len() == s@.len() - start,
            forall|j: int| 0 <= j < body.len() ==> body[j] == s@[j + start],
            all_digits(body.take(i - start)),
            acc == dec_val(body.take(i - start)),
        decreases s@.len() - i,
    {
        let c = s[i];
        if c < 48 || c > 57 {
            assert(!all_digits(body)) by {
                assert(body[i - start] == c);
            }
            return None;
        }
        let d = (c - 48) as u32;
        if acc > (u32::MAX - d) / 10 {
            proof {
                let k = i - start + 1;
                assert(body.take(k).drop_last() =~= body.take(k - 1));
                assert(body.take(k).last() == c);
                assert(all_digits(body.take(k)));
                assert(dec_val(body.take(k)) == acc * 10 + d);
                assert(acc * 10 + d > u32::MAX);
                if all_digits(body) {
                    lemma_dec_val_prefix_le(body, k);
                    assert(dec_val(body) > u32::MAX);
                }
            }
            return None;
        }
        proof {
            let k = i - start + 1;
            assert(body.take(k).drop_last() =~= body.take(k - 1));
            assert(body.take(k).last() == c);
        }
        acc = acc * 10 + d;
        i += 1;
    }
    proof {
        assert(body.take(i - start) =~= body);
    }
    Some(acc)
}

/// The semantic a compressed-stream key denotes: the three fixed keys
/// match exactly; any other key splits at its first underscore into a
/// kind and a channel-set number. Unrecognized kinds and unparsable
/// numbers match nothing.
pub open spec fn spec_key_semantic(k: Seq<u8>) -> Option<Semantic> {
    if is_position_key(k) {
        Some(Semantic::Positions)
    } else if is_normal_key(k) {
        Some(Semantic::Normals)
    } else if is_tangent_key(k) {
        Some(Semantic::Tangents)
    } else {
        match first_underscore_from(k, 0) {
            None => None,
            Some(p) => {
                let kind = k.take(p);
                match spec_parse_u32(k.skip(p + 1)) {
                    None => None,
                    Some(set) => {
                        if is_texcoord_kind(kind) {
                            Some(Semantic::TexCoords(set))
                        } else if is_color_kind(kind) {
                            Some(Semantic::Colors(set))
                        } else if is_joints_kind(kind) {
                            Some(Semantic::Joints(set))
                        } else if is_weights_kind(kind) {
                            Some(Semantic::Weights(set))
                        } else {
                            None
                        }
                    },
                }
            },
        }
    }
}

fn bytes_eq8(k: &[u8], b0: u8, b1: u8, b2: u8, b3: u8, b4: u8, b5: u8, b6: u8, b7: u8) -> (r:
    bool)
    ensures
        r == (k@ =~= seq![b0, b1, b2, b3, b4, b5, b6, b7]),
{
    k.len() == 8 && k[0] == b0 && k[1] == b1 && k[2] == b2 && k[3] == b3 && k[4] == b4 && k[5]
        == b5 && k[6] == b6 && k[7] == b7
}

fn bytes_eq7(k: &[u8], b0: u8, b1: u8, b2: u8, b3: u8, b4: u8, b5: u8, b6: u8) -> (r: bool)
    ensures
        r == (k@ =~= seq![b0, b1, b2, b3, b4, b5, b6]),
{
    k.len() == 7 && k[0] == b0 && k[1] == b1 && k[2] == b2 && k[3] == b3 && k[4] == b4 && k[5]
        == b5 && k[6] == b6
}

fn bytes_eq6(k: &[u8], b0: u8, b1: u8, b2: u8, b3: u8, b4: u8, b5: u8) -> (r: bool)
    ensures
        r == (k@ =~= seq![b0, b1, b2, b3, b4, b5]),
{
    k.len() == 6 && k[0] == b0 && k[1] == b1 && k[2] == b2 && k[3] == b3 && k[4] == b4 && k[5]
        == b5
}

fn bytes_eq5(k: &[u8], b0: u8, b1: u8, b2: u8, b3: u8, b4: u8) -> (r: bool)
    ensures
        r == (k@ =~= seq![b0, b1, b2, b3, b4]),
{
    k.len() == 5 && k[0] == b0 && k[1] == b1 && k[2] == b2 && k[3] == b3 && k[4] == b4
}

/// Maps one key of the extension's attribute table onto the semantic it
/// names, or nothing when the key is not recognized.
pub fn dracokey_to_semantic(key: &[u8]) -> (r: Option<Semantic>)
    ensures
        r == spec_key_semantic(key@),
{
    // "POSITION"
    if bytes_eq8(key, 80, 79, 83, 73, 84, 73, 79, 78) {
        return Some(Semantic::Positions);
    }
    // "NORMAL"
    if bytes_eq6(key, 78, 79, 82, 77, 65, 76) {
        return Some(Semantic::Normals);
    }
    // "TANGENT"
    if bytes_eq7(key, 84, 65, 78, 71, 69, 78, 84) {
        return Some(Semantic::Tangents);
    }
    let mut p: usize = 0;
    while p < key.len() && key[p] != 95
        invariant
            0 <= p <= key@.len(),
            first_underscore_from(key@, 0) == first_underscore_from(key@, p as int),
        decreases key@.len() - p,
    {
        p += 1;
    }
    if p == key.len() {
        return None;
    }
    let kind = vstd::slice::slice_subrange(key, 0, p);
    let rest = vstd::slice::slice_subrange(key, p + 1, key.len());
    assert(kind@ =~= key@.take(p as int));
    assert(rest@ =~= key@.skip(p as int + 1));
    let set = match parse_u32(rest) {
        None => {
            return None;
        },
        Some(v) => v,
    };
    // "TEXCOORD"
    if bytes_eq8(kind, 84, 69, 88, 67, 79, 79, 82, 68) {
        return Some(Semantic::TexCoords(set));
    }
    // "COLOR"
    if bytes_eq5(kind, 67, 79, 76, 79, 82) {
        return Some(Semantic::Colors(set));
    }
    // "JOINTS"
    if bytes_eq6(kind, 74, 79, 73, 78, 84, 83) {
        return Some(Semantic::Joints(set));
    }
    // "WEIGHTS"
    if bytes_eq7(kind, 87, 69, 73, 71, 72, 84, 83) {
        return Some(Semantic::Weights(set));
    }
    None
}

} // verus!
