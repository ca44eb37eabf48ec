use draco_gltf::document::{BufferViewInfo, Mode, PrimitiveInfo};
use draco_gltf::extension::{parse_extension, DracoExt, JsonVal};
use draco_gltf::mapping::{
    as_u16x4, as_u8x4, comp_size_bytes, dims_count, dracokey_to_semantic, map_draco_dt,
    AccessorInfo, AttributeDataType, ComponentType, Dimensions, Semantic,
};
use draco_gltf::{
    finish_decode, get_buffer, prepare_decode, AttrInfo, ColorValues, DracoLoadError,
    WeightValues,
};

fn acc(count: usize, data_type: ComponentType, dimensions: Dimensions) -> AccessorInfo {
    AccessorInfo { count, data_type, dimensions }
}

fn ext_json(buffer_view: u64, attrs: Vec<(&str, u64)>) -> JsonVal {
    JsonVal::Obj(vec![
        (b"bufferView".to_vec(), JsonVal::UInt(buffer_view)),
        (
            b"attributes".to_vec(),
            JsonVal::Obj(
                attrs
                    .into_iter()
                    .map(|(k, v)| (k.as_bytes().to_vec(), JsonVal::UInt(v)))
                    .collect(),
            ),
        ),
    ])
}

fn ext_of(attrs: Vec<(&str, u32)>) -> DracoExt {
    DracoExt {
        buffer_view: 0,
        attributes: attrs.into_iter().map(|(k, v)| (k.as_bytes().to_vec(), v)).collect(),
    }
}

fn prim(attrs: Vec<(Semantic, AccessorInfo)>) -> PrimitiveInfo {
    PrimitiveInfo {
        mode: Mode::Triangles,
        attributes: attrs,
        indices: Some(acc(0, ComponentType::U16, Dimensions::Scalar)),
        draco_extension: None,
    }
}

#[test]
fn test_dracokey_fixed_names() {
    assert_eq!(dracokey_to_semantic(b"POSITION"), Some(Semantic::Positions));
    assert_eq!(dracokey_to_semantic(b"NORMAL"), Some(Semantic::Normals));
    assert_eq!(dracokey_to_semantic(b"TANGENT"), Some(Semantic::Tangents));
}

#[test]
fn test_dracokey_numbered_names() {
    assert_eq!(dracokey_to_semantic(b"TEXCOORD_0"), Some(Semantic::TexCoords(0)));
    assert_eq!(dracokey_to_semantic(b"COLOR_1"), Some(Semantic::Colors(1)));
    assert_eq!(dracokey_to_semantic(b"JOINTS_0"), Some(Semantic::Joints(0)));
    assert_eq!(dracokey_to_semantic(b"WEIGHTS_2"), Some(Semantic::Weights(2)));
    assert_eq!(dracokey_to_semantic(b"TEXCOORD_+3"), Some(Semantic::TexCoords(3)));
    assert_eq!(dracokey_to_semantic(b"COLOR_4294967295"), Some(Semantic::Colors(u32::MAX)));
}

#[test]
fn test_dracokey_rejects_unknown() {
    assert_eq!(dracokey_to_semantic(b"TEXCOORD"), None);
    assert_eq!(dracokey_to_semantic(b"TEXCOORD_x"), None);
    assert_eq!(dracokey_to_semantic(b"TEXCOORD_"), None);
    assert_eq!(dracokey_to_semantic(b"FOO_1"), None);
    assert_eq!(dracokey_to_semantic(b"COLOR_4294967296"), None);
    assert_eq!(dracokey_to_semantic(b"position"), None);
    assert_eq!(dracokey_to_semantic(b""), None);
}

#[test]
fn test_map_draco_dt_codes() {
    assert_eq!(map_draco_dt(1), AttributeDataType::Int8);
    assert_eq!(map_draco_dt(2), AttributeDataType::UInt8);
    assert_eq!(map_draco_dt(3), AttributeDataType::Int16);
    assert_eq!(map_draco_dt(4), AttributeDataType::UInt16);
    assert_eq!(map_draco_dt(5), AttributeDataType::Int32);
    assert_eq!(map_draco_dt(6), AttributeDataType::UInt32);
    assert_eq!(map_draco_dt(7), AttributeDataType::Float32);
    assert_eq!(map_draco_dt(0), AttributeDataType::Float32);
    assert_eq!(map_draco_dt(200), AttributeDataType::Float32);
}

#[test]
fn test_component_sizes_and_dims() {
    assert_eq!(comp_size_bytes(ComponentType::I8), 1);
    assert_eq!(comp_size_bytes(ComponentType::U8), 1);
    assert_eq!(comp_size_bytes(ComponentType::I16), 2);
    assert_eq!(comp_size_bytes(ComponentType::U16), 2);
    assert_eq!(comp_size_bytes(ComponentType::U32), 4);
    assert_eq!(comp_size_bytes(ComponentType::F32), 4);
    assert_eq!(dims_count(Dimensions::Scalar), 1);
    assert_eq!(dims_count(Dimensions::Vec2), 2);
    assert_eq!(dims_count(Dimensions::Vec3), 3);
    assert_eq!(dims_count(Dimensions::Vec4), 4);
    assert_eq!(dims_count(Dimensions::Mat4), 4);
}

#[test]
fn test_as_u16x4_le() {
    let v = as_u16x4(&[1, 0, 2, 0, 3, 0, 0, 1, 9, 9]);
    assert_eq!(v, vec![[1u16, 2, 3, 256]]);
}

#[test]
fn test_as_u8x4_groups() {
    let v = as_u8x4(&[1, 2, 3, 4, 5, 6, 7, 8, 9]);
    assert_eq!(v, vec![[1u8, 2, 3, 4], [5u8, 6, 7, 8]]);
}

#[test]
fn test_parse_extension_good() {
    let ext = parse_extension(&ext_json(3, vec![("POSITION", 0), ("TEXCOORD_0", 1)])).unwrap();
    assert_eq!(ext.buffer_view, 3);
    assert_eq!(
        ext.attributes,
        vec![(b"POSITION".to_vec(), 0u32), (b"TEXCOORD_0".to_vec(), 1u32)]
    );
}

#[test]
fn test_parse_extension_malformed() {
    // not an object
    assert_eq!(
        parse_extension(&JsonVal::UInt(1)).unwrap_err(),
        DracoLoadError::BadExtension
    );
    // missing bufferView
    let v = JsonVal::Obj(vec![(b"attributes".to_vec(), JsonVal::Obj(vec![]))]);
    assert_eq!(parse_extension(&v).unwrap_err(), DracoLoadError::BadExtension);
    // bufferView of the wrong type
    let v = JsonVal::Obj(vec![
        (b"bufferView".to_vec(), JsonVal::Text(b"0".to_vec())),
        (b"attributes".to_vec(), JsonVal::Obj(vec![])),
    ]);
    assert_eq!(parse_extension(&v).unwrap_err(), DracoLoadError::BadExtension);
    // missing attributes
    let v = JsonVal::Obj(vec![(b"bufferView".to_vec(), JsonVal::UInt(0))]);
    assert_eq!(parse_extension(&v).unwrap_err(), DracoLoadError::BadExtension);
    // attribute id that does not fit 32 bits
    let v = JsonVal::Obj(vec![
        (b"bufferView".to_vec(), JsonVal::UInt(0)),
        (
            b"attributes".to_vec(),
            JsonVal::Obj(vec![(b"POSITION".to_vec(), JsonVal::UInt(1 << 40))]),
        ),
    ]);
    assert_eq!(parse_extension(&v).unwrap_err(), DracoLoadError::BadExtension);
    // attribute id that is not an unsigned integer
    let v = JsonVal::Obj(vec![
        (b"bufferView".to_vec(), JsonVal::UInt(0)),
        (
            b"attributes".to_vec(),
            JsonVal::Obj(vec![(b"POSITION".to_vec(), JsonVal::OtherNum)]),
        ),
    ]);
    assert_eq!(parse_extension(&v).unwrap_err(), DracoLoadError::BadExtension);
}

#[test]
fn test_parse_extension_ignores_extra_fields() {
    let v = JsonVal::Obj(vec![
        (b"ignored".to_vec(), JsonVal::Null),
        (b"bufferView".to_vec(), JsonVal::UInt(7)),
        (b"attributes".to_vec(), JsonVal::Obj(vec![])),
    ]);
    assert_eq!(parse_extension(&v).unwrap().buffer_view, 7);
}

#[test]
fn test_get_buffer_resolution() {
    let views = vec![
        BufferViewInfo { index: 2, buffer: 0, offset: 16, length: 8 },
        BufferViewInfo { index: 0, buffer: 5, offset: 0, length: 4 },
    ];
    let r = get_buffer(&views, 1, 2).unwrap();
    assert_eq!((r.buffer, r.offset, r.length), (0, 16, 8));
    assert_eq!(get_buffer(&views, 1, 3).unwrap_err(), DracoLoadError::BadBufferView(3));
    assert_eq!(get_buffer(&views, 1, 0).unwrap_err(), DracoLoadError::BadBuffer(5));
}

#[test]
fn test_prepare_rejects_non_triangles() {
    let mut p = prim(vec![(Semantic::Positions, acc(3, ComponentType::F32, Dimensions::Vec3))]);
    p.mode = Mode::LineStrip;
    p.draco_extension = Some(ext_json(0, vec![]));
    let views = vec![BufferViewInfo { index: 0, buffer: 0, offset: 0, length: 4 }];
    let r = prepare_decode(&p, &views, 1, &vec![]);
    assert_eq!(r.unwrap_err(), DracoLoadError::UnsupportedMode);
}

#[test]
fn test_prepare_rejects_missing_extension() {
    let p = prim(vec![(Semantic::Positions, acc(3, ComponentType::F32, Dimensions::Vec3))]);
    let views = vec![BufferViewInfo { index: 0, buffer: 0, offset: 0, length: 4 }];
    let r = prepare_decode(&p, &views, 1, &vec![]);
    assert_eq!(r.unwrap_err(), DracoLoadError::NotDraco);
}

#[test]
fn test_missing_position_accessor_fails_before_engine() {
    // Only a texture-coordinate accessor: the plan is refused before
    // any engine descriptor is built.
    let mut p = prim(vec![(Semantic::TexCoords(0), acc(3, ComponentType::F32, Dimensions::Vec2))]);
    p.draco_extension = Some(ext_json(0, vec![("TEXCOORD_0", 0)]));
    let views = vec![BufferViewInfo { index: 0, buffer: 0, offset: 0, length: 4 }];
    let r = prepare_decode(&p, &views, 1, &vec![]);
    assert_eq!(r.unwrap_err(), DracoLoadError::NoPositionAccessor);
}

#[test]
fn test_prepare_rejects_missing_indices() {
    let mut p = prim(vec![(Semantic::Positions, acc(3, ComponentType::F32, Dimensions::Vec3))]);
    p.indices = None;
    p.draco_extension = Some(ext_json(0, vec![("POSITION", 0)]));
    let views = vec![BufferViewInfo { index: 0, buffer: 0, offset: 0, length: 4 }];
    let r = prepare_decode(&p, &views, 1, &vec![]);
    assert_eq!(r.unwrap_err(), DracoLoadError::NoIndicesAccessor);
}

#[test]
fn test_eight_bit_indices_requested_as_sixteen() {
    let mut p = prim(vec![(Semantic::Positions, acc(5, ComponentType::F32, Dimensions::Vec3))]);
    p.indices = Some(acc(9, ComponentType::U8, Dimensions::Scalar));
    p.draco_extension = Some(ext_json(0, vec![("POSITION", 0)]));
    let views = vec![BufferViewInfo { index: 0, buffer: 0, offset: 0, length: 4 }];
    let infos = vec![AttrInfo { unique_id: 0, dim: 3, data_type: 7 }];
    let plan = prepare_decode(&p, &views, 1, &infos).unwrap();
    assert_eq!(plan.index_comp, ComponentType::U16);
    assert_eq!(plan.index_count, 9);
    assert_eq!(plan.vertex_count, 5);
    assert_eq!(plan.config.vertex_count, 5);
    assert_eq!(plan.config.index_count, 9);
    assert_eq!(plan.config.attributes, vec![(3u32, AttributeDataType::Float32)]);
}

#[test]
fn test_sixteen_bit_index_decoding() {
    // Two 16-bit indices, little endian: [01,00,02,00] decodes to [1, 2].
    let p = prim(vec![]);
    let ext = ext_of(vec![]);
    let out = finish_decode(&[1, 0, 2, 0], ComponentType::U16, 2, 0, &vec![], &p, &ext).unwrap();
    assert_eq!(out.indices, vec![1, 2]);
}

#[test]
fn test_thirty_two_bit_index_decoding() {
    let out = finish_decode(
        &[1, 0, 0, 0, 0, 1, 0, 0],
        ComponentType::U32,
        2,
        0,
        &vec![],
        &prim(vec![]),
        &ext_of(vec![]),
    )
    .unwrap();
    assert_eq!(out.indices, vec![1, 256]);
}

#[test]
fn test_float_index_type_is_rejected() {
    let r = finish_decode(&[], ComponentType::F32, 0, 0, &vec![], &prim(vec![]), &ext_of(vec![]));
    assert_eq!(r.unwrap_err(), DracoLoadError::DracoDecode);
}

#[test]
fn test_short_index_section_is_fatal() {
    let r = finish_decode(
        &[1, 0, 2],
        ComponentType::U16,
        2,
        0,
        &vec![],
        &prim(vec![]),
        &ext_of(vec![]),
    );
    assert_eq!(r.unwrap_err(), DracoLoadError::DracoDecode);
}

#[test]
fn test_layout_section_sum_matches_buffer() {
    // Index section: 3 indices of 2 bytes. Attribute sections: 2
    // vertices of 3 floats, then 2 vertices of 2 floats. The sections
    // sum to 6 + 24 + 16 = 46 bytes: a 46-byte buffer decodes, one
    // byte less is fatal, surplus bytes are ignored.
    let p = prim(vec![
        (Semantic::Positions, acc(2, ComponentType::F32, Dimensions::Vec3)),
        (Semantic::TexCoords(0), acc(2, ComponentType::F32, Dimensions::Vec2)),
    ]);
    let ext = ext_of(vec![("POSITION", 0), ("TEXCOORD_0", 1)]);
    let infos = vec![
        AttrInfo { unique_id: 0, dim: 3, data_type: 7 },
        AttrInfo { unique_id: 1, dim: 2, data_type: 7 },
    ];
    let exact = vec![0u8; 46];
    let out = finish_decode(&exact, ComponentType::U16, 3, 2, &infos, &p, &ext).unwrap();
    assert_eq!(out.indices, vec![0, 0, 0]);
    assert_eq!(out.positions.as_ref().unwrap().len(), 2);
    let short = vec![0u8; 45];
    let r = finish_decode(&short, ComponentType::U16, 3, 2, &infos, &p, &ext);
    assert_eq!(r.unwrap_err(), DracoLoadError::DracoDecode);
    let surplus = vec![0u8; 50];
    assert!(finish_decode(&surplus, ComponentType::U16, 3, 2, &infos, &p, &ext).is_ok());
}

#[test]
fn test_position_bit_patterns() {
    let mut raw: Vec<u8> = vec![1, 0]; // one 16-bit index
    for x in [1.0f32, -2.5f32, 0.25f32] {
        raw.extend_from_slice(&x.to_le_bytes());
    }
    let p = prim(vec![(Semantic::Positions, acc(1, ComponentType::F32, Dimensions::Vec3))]);
    let ext = ext_of(vec![("POSITION", 0)]);
    let infos = vec![AttrInfo { unique_id: 0, dim: 3, data_type: 7 }];
    let out = finish_decode(&raw, ComponentType::U16, 1, 1, &infos, &p, &ext).unwrap();
    let pos = out.positions.unwrap();
    assert_eq!(pos.len(), 1);
    assert_eq!(f32::from_bits(pos[0].0), 1.0);
    assert_eq!(f32::from_bits(pos[0].1), -2.5);
    assert_eq!(f32::from_bits(pos[0].2), 0.25);
}

#[test]
fn test_color_bytes_eight_bit_path() {
    // One vertex of 8-bit color [255,128,0,255]: the consumer divides
    // by 255, giving [1.0, 0.5019..., 0.0, 1.0].
    let raw: Vec<u8> = vec![255, 128, 0, 255];
    let p = prim(vec![
        (Semantic::Positions, acc(1, ComponentType::F32, Dimensions::Vec3)),
        (Semantic::Colors(0), acc(1, ComponentType::U8, Dimensions::Vec4)),
    ]);
    let ext = ext_of(vec![("COLOR_0", 9)]);
    let infos = vec![AttrInfo { unique_id: 9, dim: 4, data_type: 2 }];
    let out = finish_decode(&raw, ComponentType::U16, 0, 1, &infos, &p, &ext).unwrap();
    assert_eq!(out.colors.len(), 1);
    assert_eq!(out.colors[0].0, 0);
    match &out.colors[0].1 {
        ColorValues::Normalized8(v) => {
            assert_eq!(v, &vec![(255u8, 128u8, 0u8, 255u8)]);
            let (r, g, b, a) = v[0];
            assert_eq!(r as f32 / 255.0, 1.0);
            assert!((g as f32 / 255.0 - 0.5019608).abs() < 1e-6);
            assert_eq!(b as f32 / 255.0, 0.0);
            assert_eq!(a as f32 / 255.0, 1.0);
        },
        other => panic!("expected the 8-bit color path, got {:?}", other),
    }
}

#[test]
fn test_joint_bytes_widen_exactly() {
    let raw: Vec<u8> = vec![1, 2, 3, 4];
    let p = prim(vec![
        (Semantic::Positions, acc(1, ComponentType::F32, Dimensions::Vec3)),
        (Semantic::Joints(0), acc(1, ComponentType::U8, Dimensions::Vec4)),
    ]);
    let ext = ext_of(vec![("JOINTS_0", 2)]);
    let infos = vec![AttrInfo { unique_id: 2, dim: 4, data_type: 2 }];
    let out = finish_decode(&raw, ComponentType::U16, 0, 1, &infos, &p, &ext).unwrap();
    assert_eq!(out.joints, vec![(0u32, vec![(1u16, 2u16, 3u16, 4u16)])]);
}

#[test]
fn test_weight_sixteen_bit_normalization_bounds() {
    // All channels 65535 normalize to 1.0 each; all zero to 0.0.
    let mut raw: Vec<u8> = vec![255u8; 8];
    raw.extend_from_slice(&[0u8; 8]);
    let p = prim(vec![
        (Semantic::Positions, acc(2, ComponentType::F32, Dimensions::Vec3)),
        (Semantic::Weights(0), acc(2, ComponentType::U16, Dimensions::Vec4)),
    ]);
    let ext = ext_of(vec![("WEIGHTS_0", 4)]);
    let infos = vec![AttrInfo { unique_id: 4, dim: 4, data_type: 4 }];
    let out = finish_decode(&raw, ComponentType::U16, 0, 2, &infos, &p, &ext).unwrap();
    match &out.weights[0].1 {
        WeightValues::Normalized16(v) => {
            assert_eq!(v, &vec![(65535u16, 65535, 65535, 65535), (0u16, 0, 0, 0)]);
            assert_eq!(v[0].0 as f32 / 65535.0, 1.0);
            assert_eq!(v[1].0 as f32 / 65535.0, 0.0);
        },
        other => panic!("expected the 16-bit weight path, got {:?}", other),
    }
}

#[test]
fn test_unknown_attribute_id_fails() {
    // The decoded block carries unique id 5; the extension maps none.
    let raw: Vec<u8> = vec![0u8; 12];
    let p = prim(vec![(Semantic::Positions, acc(1, ComponentType::F32, Dimensions::Vec3))]);
    let ext = ext_of(vec![("POSITION", 0)]);
    let infos = vec![AttrInfo { unique_id: 5, dim: 3, data_type: 7 }];
    let r = finish_decode(&raw, ComponentType::U16, 0, 1, &infos, &p, &ext);
    assert_eq!(r.unwrap_err(), DracoLoadError::UnknownAttributeId(5));
}

#[test]
fn test_unmatched_extension_entries_dropped() {
    // An unrecognized key and a semantic without an accessor are both
    // dropped silently; the position stream still decodes.
    let raw: Vec<u8> = vec![0u8; 12];
    let p = prim(vec![(Semantic::Positions, acc(1, ComponentType::F32, Dimensions::Vec3))]);
    let ext = ext_of(vec![("WHATEVER_9", 1), ("NORMAL", 2), ("POSITION", 0)]);
    let infos = vec![AttrInfo { unique_id: 0, dim: 3, data_type: 7 }];
    let out = finish_decode(&raw, ComponentType::U16, 0, 1, &infos, &p, &ext).unwrap();
    assert!(out.positions.is_some());
    assert!(out.normals.is_none());
}

#[test]
fn test_repeated_channel_set_last_wins() {
    // Two blocks both map to the first texture-coordinate channel; the
    // later section replaces the earlier entry in place.
    let mut raw: Vec<u8> = Vec::new();
    for x in [1.0f32, 2.0, 3.0, 4.0] {
        raw.extend_from_slice(&x.to_le_bytes());
    }
    let p = prim(vec![
        (Semantic::Positions, acc(1, ComponentType::F32, Dimensions::Vec3)),
        (Semantic::TexCoords(0), acc(1, ComponentType::F32, Dimensions::Vec2)),
    ]);
    let ext = ext_of(vec![("TEXCOORD_0", 1)]);
    let infos = vec![
        AttrInfo { unique_id: 1, dim: 2, data_type: 7 },
        AttrInfo { unique_id: 1, dim: 2, data_type: 7 },
    ];
    let out = finish_decode(&raw, ComponentType::U16, 0, 1, &infos, &p, &ext).unwrap();
    assert_eq!(out.texcoords.len(), 1);
    let uv = &out.texcoords[0].1;
    assert_eq!(f32::from_bits(uv[0].0), 3.0);
    assert_eq!(f32::from_bits(uv[0].1), 4.0);
}

#[test]
fn test_decode_twice_is_bit_identical() {
    let mut raw: Vec<u8> = vec![1, 0, 2, 0, 0, 0];
    for x in [0.5f32, 1.5, -3.0, 9.0, 8.0] {
        raw.extend_from_slice(&x.to_le_bytes());
    }
    let p = prim(vec![
        (Semantic::Positions, acc(1, ComponentType::F32, Dimensions::Vec3)),
        (Semantic::TexCoords(0), acc(1, ComponentType::F32, Dimensions::Vec2)),
    ]);
    let ext = ext_of(vec![("POSITION", 0), ("TEXCOORD_0", 1)]);
    let infos = vec![
        AttrInfo { unique_id: 0, dim: 3, data_type: 7 },
        AttrInfo { unique_id: 1, dim: 2, data_type: 7 },
    ];
    let a = finish_decode(&raw, ComponentType::U16, 3, 1, &infos, &p, &ext).unwrap();
    let b = finish_decode(&raw, ComponentType::U16, 3, 1, &infos, &p, &ext).unwrap();
    assert_eq!(a, b);
    let views = vec![BufferViewInfo { index: 0, buffer: 0, offset: 0, length: raw.len() }];
    let mut p2 = prim(p.attributes.clone());
    p2.indices = Some(acc(3, ComponentType::U16, Dimensions::Scalar));
    p2.draco_extension = Some(ext_json(0, vec![("POSITION", 0), ("TEXCOORD_0", 1)]));
    let plan1 = prepare_decode(&p2, &views, 1, &infos).unwrap();
    let plan2 = prepare_decode(&p2, &views, 1, &infos).unwrap();
    assert_eq!(plan1.range, plan2.range);
    assert_eq!(plan1.config.attributes, plan2.config.attributes);
    assert_eq!(plan1.ext.attributes, plan2.ext.attributes);
}

#[test]
fn test_float_color_path_keeps_bit_patterns() {
    let mut raw: Vec<u8> = Vec::new();
    for x in [0.25f32, 0.5, 0.75, 1.0] {
        raw.extend_from_slice(&x.to_le_bytes());
    }
    let p = prim(vec![
        (Semantic::Positions, acc(1, ComponentType::F32, Dimensions::Vec3)),
        (Semantic::Colors(0), acc(1, ComponentType::F32, Dimensions::Vec4)),
    ]);
    let ext = ext_of(vec![("COLOR_0", 3)]);
    let infos = vec![AttrInfo { unique_id: 3, dim: 4, data_type: 7 }];
    let out = finish_decode(&raw, ComponentType::U16, 0, 1, &infos, &p, &ext).unwrap();
    match &out.colors[0].1 {
        ColorValues::Float32(v) => {
            assert_eq!(f32::from_bits(v[0].0), 0.25);
            assert_eq!(f32::from_bits(v[0].3), 1.0);
        },
        other => panic!("expected the float color path, got {:?}", other),
    }
}

#[test]
fn test_default_is_empty() {
    let d = draco_gltf::DecodedPrimitive::default();
    assert!(d.indices.is_empty());
    assert!(d.positions.is_none());
    assert!(d.texcoords.is_empty());
    assert!(d.weights.is_empty());
}
