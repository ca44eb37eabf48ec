use vstd::prelude::*;

use crate::DracoLoadError;

verus! {

/// A parsed JSON value, as far as the compression extension's payload
/// needs to be inspected. Strings and object keys are carried as their
/// UTF-8 bytes; numbers that are not unsigned integers never form a
/// valid buffer-view index or attribute id, so one variant stands for
/// all of them.
#[derive(Debug)]
pub enum JsonVal {
    Null,
    Bool(bool),
    UInt(u64),
    OtherNum,
    Text(Vec<u8>),
    Arr(Vec<JsonVal>),
    Obj(Vec<(Vec<u8>, JsonVal)>),
}

/// The compression extension's payload: the buffer view holding the
/// compressed bytes, and the table from semantic key to the engine's
/// unique attribute id.
#[derive(Debug, Clone)]
pub struct DracoExt {
    pub buffer_view: usize,
    pub attributes: Vec<(Vec<u8>, u32)>,
}

/// Mathematical image of `DracoExt`.
pub struct DracoExtView {
    pub buffer_view: int,
    pub attributes: Seq<(Seq<u8>, u32)>,
}

impl View for DracoExt {
    type V = DracoExtView;

    open spec fn view(&self) -> DracoExtView {
        DracoExtView {
            buffer_view: self.buffer_view as int,
            attributes: self.attributes@.map_values(|e: (Vec<u8>, u32)| (e.0@, e.1)),
        }
    }
}

/// Bytes of the object key "bufferView".
pub open spec fn buffer_view_key() -> Seq<u8> {
    seq![98u8, 117u8, 102u8, 102u8, 101u8, 114u8, 86u8, 105u8, 101u8, 119u8]
}

/// Bytes of the object key "attributes".
pub open spec fn attributes_key() -> Seq<u8> {
    seq![97u8, 116u8, 116u8, 114u8, 105u8, 98u8, 117u8, 116u8, 101u8, 115u8]
}

/// First value under `key` among an object's entries, if any.
pub open spec fn obj_lookup(entries: Seq<(Vec<u8>, JsonVal)>, key: Seq<u8>) -> Option<JsonVal>
    decreases entries.len(),
{
    if entries.len() == 0 {
        None
    } else if entries[0].0@ == key {
        Some(entries[0].1)
    } else {
        obj_lookup(entries.skip(1), key)
    }
}

/// Whether every value of an attribute table is an unsigned integer
/// that fits 32 bits.
pub open spec fn attrs_all_ids(entries: Seq<(Vec<u8>, JsonVal)>) -> bool {
    forall|i: int|
        0 <= i < entries.len() ==> ((#[trigger] entries[i].1) matches JsonVal::UInt(n) && n
            <= u32::MAX)
}

/// The attribute table read as pairs of key bytes and 32-bit id.
pub open spec fn attrs_pairs(entries: Seq<(Vec<u8>, JsonVal)>) -> Seq<(Seq<u8>, u32)> {
    entries.map_values(
        |e: (Vec<u8>, JsonVal)|
            (
                e.0@,
                match e.1 {
                    JsonVal::UInt(n) => n as u32,
                    _ => 0u32,
                },
            ),
    )
}

/// What parsing the extension payload yields: the expected shape is an
/// object holding an unsigned "bufferView" index and an "attributes"
/// object whose values are unsigned 32-bit ids; anything else is a
/// malformed extension.
pub open spec fn spec_parse_extension(v: JsonVal) -> Result<DracoExtView, DracoLoadError> {
    match v {
        JsonVal::Obj(entries) => {
            match obj_lookup(entries@, buffer_view_key()) {
                Some(JsonVal::UInt(bv)) => {
                    if bv > usize::MAX {
                        Err(DracoLoadError::BadExtension)
                    } else {
                        match obj_lookup(entries@, attributes_key()) {
                            Some(JsonVal::Obj(attrs)) => {
                                if attrs_all_ids(attrs@) {
                                    Ok(
                                        DracoExtView {
                                            buffer_view: bv as int,
                                            attributes: attrs_pairs(attrs@),
                                        },
                                    )
                                } else {
                                    Err(DracoLoadError::BadExtension)
                                }
                            },
                            _ => Err(DracoLoadError::BadExtension),
                        }
                    }
                },
                _ => Err(DracoLoadError::BadExtension),
            }
        },
        _ => Err(DracoLoadError::BadExtension),
    }
}

fn is_key(k: &[u8], k0: &[u8; 10]) -> (r: bool)
    ensures
        r == (k@ =~= k0@),
{
    if k.len() != 10 {
        return false;
    }
    let mut i: usize = 0;
    while i < 10
        invariant
            0 <= i <= 10,
            k@.len() == 10,
            forall|j: int| 0 <= j < i ==> k@[j] == k0@[j],
        decreases 10 - i,
    {
        if k[i] != k0[i] {
            return false;
        }
        i += 1;
    }
    true
}

/// First value under `key` among an object's entries, if any.
fn lookup_entry<'a>(entries: &'a Vec<(Vec<u8>, JsonVal)>, key: &[u8; 10]) -> (r: Option<
    &'a JsonVal,
>)
    ensures
        match r {
            Some(v) => obj_lookup(entries@, key@) == Some(*v),
            None => obj_lookup(entries@, key@) is None,
        },
{
    let mut i: usize = 0;
    assert(entries@.skip(0) =~= entries@);
    while i < entries.len()
        invariant
            0 <= i <= entries@.len(),
            obj_lookup(entries@, key@) == obj_lookup(entries@.skip(i as int), key@),
        decreases entries@.len() - i,
    {
        proof {
            assert(entries@.skip(i as int)[0] == entries@[i as int]);
            assert(entries@.skip(i as int).skip(1) =~= entries@.skip(i as int + 1));
        }
        if is_key(entries[i].0.as_slice(), key) {
            return Some(&entries[i].1);
        }
        i += 1;
    }
    proof {
        assert(entries@.skip(entries@.len() as int).len() == 0);
    }
    None
}

/// Parses the compression extension's payload. The expected shape is
/// `{"bufferView": <uint>, "attributes": {<key>: <uint>, ...}}`; extra
/// fields are ignored, and any departure from that shape is a malformed
/// extension.
pub fn parse_extension(v: &JsonVal) -> (r: Result<DracoExt, DracoLoadError>)
    ensures
        match r {
            Ok(ext) => spec_parse_extension(*v) == Ok::<DracoExtView, DracoLoadError>(ext@),
            Err(e) => spec_parse_extension(*v) == Err::<DracoExtView, DracoLoadError>(e),
        },
{
    // "bufferView"
    let bv_key: [u8; 10] = [98, 117, 102, 102, 101, 114, 86, 105, 101, 119];
    // "attributes"
    let at_key: [u8; 10] = [97, 116, 116, 114, 105, 98, 117, 116, 101, 115];
    proof {
        assert(bv_key@ =~= buffer_view_key());
        assert(at_key@ =~= attributes_key());
    }
    let entries = match v {
        JsonVal::Obj(entries) => entries,
        _ => {
            return Err(DracoLoadError::BadExtension);
        },
    };
    let bv: usize = match lookup_entry(entries, &bv_key) {
        Some(JsonVal::UInt(n)) => {
            if *n > usize::MAX as u64 {
                return Err(DracoLoadError::BadExtension);
            }
            *n as usize
        },
        _ => {
            return Err(DracoLoadError::BadExtension);
        },
    };
    let attrs = match lookup_entry(entries, &at_key) {
        Some(JsonVal::Obj(attrs)) => attrs,
        _ => {
            return Err(DracoLoadError::BadExtension);
        },
    };
    let mut pairs: Vec<(Vec<u8>, u32)> = Vec::new();
    let mut i: usize = 0;
    while i < attrs.len()
        invariant
            0 <= i <= attrs@.len(),
            pairs@.len() == i,
            spec_parse_extension(*v) == (if attrs_all_ids(attrs@) {
                Ok::<DracoExtView, DracoLoadError>(
                    DracoExtView { buffer_view: bv as int, attributes: attrs_pairs(attrs@) },
                )
            } else {
                Err::<DracoExtView, DracoLoadError>(DracoLoadError::BadExtension)
            }),
            forall|j: int|
                0 <= j < i ==> ((#[trigger] attrs@[j].1) matches JsonVal::UInt(n) && n
                    <= u32::MAX),
            forall|j: int|
                0 <= j < i ==> (#[trigger] pairs@[j]).0@ == attrs@[j].0@ && pairs@[j].1
                    == attrs_pairs(attrs@)[j].1,
        decreases attrs@.len() - i,
    {
        let id: u32 = match &attrs[i].1 {
            JsonVal::UInt(n) => {
                if *n > u32::MAX as u64 {
                    proof {
                        assert(!((attrs@[i as int].1) matches JsonVal::UInt(m) && m <= u32::MAX));
                        assert(!attrs_all_ids(attrs@));
                    }
                    return Err(DracoLoadError::BadExtension);
                }
                *n as u32
            },
            _ => {
                proof {
                    assert(!((attrs@[i as int].1) matches JsonVal::UInt(m) && m <= u32::MAX));
                    assert(!attrs_all_ids(attrs@));
                }
                return Err(DracoLoadError::BadExtension);
            },
        };
        let key = attrs[i].0.clone();
        assert(key@ == attrs@[i as int].0@);
        pairs.push((key, id));
        i += 1;
    }
    let ext = DracoExt { buffer_view: bv, attributes: pairs };
    proof {
        assert(attrs_all_ids(attrs@));
        assert(ext@.attributes =~= attrs_pairs(attrs@));
    }
    Ok(ext)
}

} // verus!
