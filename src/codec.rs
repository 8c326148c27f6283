//! Whole-buffer decoding of each message schema.
use vstd::prelude::*;
use crate::messages::{CameraInfo, CompressedImage, DeepviewDMABuf, Detect, FoxgloveImageAnnotations, ModelInfo, PointCloud2, RadarCube};
use crate::wire::{Decode, DecodeError, copy_range, is_prefix};

verus! {

/// The model of the `T` that `s` holds from its start in the byte order
/// `big`, if it holds a whole one. Bytes after it are ignored.
pub open spec fn message_of<T: Decode>(s: Seq<u8>, big: bool) -> Option<T::V> {
    match T::decoded(s, 0, big) {
        Some((v, _)) => Some(v),
        None => None,
    }
}

/// The byte order that a four-byte encapsulation header announces: byte 1
/// is 0 or 2 for big-endian (plain or parameter-list CDR), 1 or 3 for
/// little-endian. `None` for any other header, or fewer than four bytes.
pub open spec fn header_order(s: Seq<u8>) -> Option<bool> {
    if s.len() < 4 {
        None
    } else if s[1] == 0 || s[1] == 2 {
        Some(true)
    } else if s[1] == 1 || s[1] == 3 {
        Some(false)
    } else {
        None
    }
}

/// Splits a payload as the bus carries it into its CDR body and the byte
/// order of that body (`true`: big-endian): a four-byte encapsulation
/// header, then the body, whose alignment counts from its own start.
pub fn cdr_body(bytes: &[u8]) -> (r: Option<(Vec<u8>, bool)>)
    ensures
        match r {
            Some((body, big)) => header_order(bytes@) == Some(big)
                && body@ == bytes@.subrange(4, bytes@.len() as int),
            None => header_order(bytes@) is None,
        },
{
    if bytes.len() < 4 {
        return None;
    }
    let big = if bytes[1] == 0 || bytes[1] == 2 {
        true
    } else if bytes[1] == 1 || bytes[1] == 3 {
        false
    } else {
        return None;
    };
    Some((copy_range(bytes, 4, bytes.len()), big))
}

/// Decodes a `T` from the start of `bytes`, a CDR body in the byte order
/// that `big` names (`true`: big-endian); trailing bytes are ignored.
pub fn decode_message<T: Decode>(bytes: &[u8], big: bool) -> (r: Result<T, DecodeError>)
    ensures
        match r {
            Ok(v) => message_of::<T>(bytes@, big) == Some(v@),
            Err(e) => message_of::<T>(bytes@, big) is None && e == DecodeError::TruncatedInput,
        },
{
    let (v, _) = T::decode_at(bytes, 0, big)?;
    Ok(v)
}

/// Decodes a `CompressedImage` from the start of `bytes`, a CDR body in the byte order
/// that `big` names (`true`: big-endian).
pub fn deserialize_compressed_image(bytes: &[u8], big: bool) -> (r: Result<CompressedImage, DecodeError>)
    ensures
        match r {
            Ok(v) => message_of::<CompressedImage>(bytes@, big) == Some(v@),
            Err(e) => message_of::<CompressedImage>(bytes@, big) is None && e == DecodeError::TruncatedInput,
        },
{
    decode_message::<CompressedImage>(bytes, big)
}

/// Decodes a `PointCloud2` from the start of `bytes`, a CDR body in the byte order
/// that `big` names (`true`: big-endian).
pub fn deserialize_pointcloud2(bytes: &[u8], big: bool) -> (r: Result<PointCloud2, DecodeError>)
    ensures
        match r {
            Ok(v) => message_of::<PointCloud2>(bytes@, big) == Some(v@),
            Err(e) => message_of::<PointCloud2>(bytes@, big) is None && e == DecodeError::TruncatedInput,
        },
{
    decode_message::<PointCloud2>(bytes, big)
}

/// Decodes a `DeepviewDMABuf` from the start of `bytes`, a CDR body in the byte order
/// that `big` names (`true`: big-endian).
pub fn deserialize_dmabuf(bytes: &[u8], big: bool) -> (r: Result<DeepviewDMABuf, DecodeError>)
    ensures
        match r {
            Ok(v) => message_of::<DeepviewDMABuf>(bytes@, big) == Some(v@),
            Err(e) => message_of::<DeepviewDMABuf>(bytes@, big) is None && e == DecodeError::TruncatedInput,
        },
{
    decode_message::<DeepviewDMABuf>(bytes, big)
}

/// Decodes a `FoxgloveImageAnnotations` from the start of `bytes`, a CDR body in the byte order
/// that `big` names (`true`: big-endian).
pub fn deserialize_image_annotations(bytes: &[u8], big: bool) -> (r: Result<FoxgloveImageAnnotations, DecodeError>)
    ensures
        match r {
            Ok(v) => message_of::<FoxgloveImageAnnotations>(bytes@, big) == Some(v@),
            Err(e) => message_of::<FoxgloveImageAnnotations>(bytes@, big) is None && e == DecodeError::TruncatedInput,
        },
{
    decode_message::<FoxgloveImageAnnotations>(bytes, big)
}

/// Decodes a `CameraInfo` from the start of `bytes`, a CDR body in the byte order
/// that `big` names (`true`: big-endian).
pub fn deserialize_camera_info(bytes: &[u8], big: bool) -> (r: Result<CameraInfo, DecodeError>)
    ensures
        match r {
            Ok(v) => message_of::<CameraInfo>(bytes@, big) == Some(v@),
            Err(e) => message_of::<CameraInfo>(bytes@, big) is None && e == DecodeError::TruncatedInput,
        },
{
    decode_message::<CameraInfo>(bytes, big)
}

/// Decodes a `Detect` from the start of `bytes`, a CDR body in the byte order
/// that `big` names (`true`: big-endian).
pub fn deserialize_detect(bytes: &[u8], big: bool) -> (r: Result<Detect, DecodeError>)
    ensures
        match r {
            Ok(v) => message_of::<Detect>(bytes@, big) == Some(v@),
            Err(e) => message_of::<Detect>(bytes@, big) is None && e == DecodeError::TruncatedInput,
        },
{
    decode_message::<Detect>(bytes, big)
}

/// Decodes a `ModelInfo` from the start of `bytes`, a CDR body in the byte order
/// that `big` names (`true`: big-endian).
pub fn deserialize_model_info(bytes: &[u8], big: bool) -> (r: Result<ModelInfo, DecodeError>)
    ensures
        match r {
            Ok(v) => message_of::<ModelInfo>(bytes@, big) == Some(v@),
            Err(e) => message_of::<ModelInfo>(bytes@, big) is None && e == DecodeError::TruncatedInput,
        },
{
    decode_message::<ModelInfo>(bytes, big)
}

/// Decodes a `RadarCube` from the start of `bytes`, a CDR body in the byte order
/// that `big` names (`true`: big-endian).
pub fn deserialize_radar_cube(bytes: &[u8], big: bool) -> (r: Result<RadarCube, DecodeError>)
    ensures
        match r {
            Ok(v) => message_of::<RadarCube>(bytes@, big) == Some(v@),
            Err(e) => message_of::<RadarCube>(bytes@, big) is None && e == DecodeError::TruncatedInput,
        },
{
    decode_message::<RadarCube>(bytes, big)
}

/// Round trip and alignment: a buffer into which an encoder wrote the
/// message `v` from its start, in the byte order `big`, decodes to `v`.
/// `written` fixes only each primitive's bytes at its aligned offset and each
/// length prefix, so this holds whatever the padding bytes before a field
/// (say, a `float64` after a string) and the bytes after the encoding hold:
/// every field is read at its aligned offset, not at where the previous one
/// ended.
pub proof fn lemma_message_round_trip<T: Decode>(s: Seq<u8>, v: T::V, big: bool)
    requires
        T::written(s, 0, v, big),
    ensures
        message_of::<T>(s, big) == Some(v),
        T::decoded(s, 0, big) == Some((v, T::written_end(0, v))),
{
    T::lemma_round_trip(s, 0, v, big);
}

/// Truncation: where `s` holds a whole `T` that ends at offset `q`, every
/// prefix of `s` shorter than `q` fails to decode, so each decoder above
/// returns `TruncatedInput` on it.
pub proof fn lemma_truncated_prefix_fails<T: Decode>(s: Seq<u8>, k: nat, big: bool)
    requires
        T::decoded(s, 0, big) is Some,
        k < T::decoded(s, 0, big).unwrap().1,
    ensures
        message_of::<T>(s.subrange(0, k as int), big) is None,
{
    assert(s =~= s.subrange(0, s.len() as int));
    T::lemma_prefix(s, s, 0, big);
    let pre = s.subrange(0, k as int);
    assert(pre =~= s.subrange(0, pre.len() as int));
    T::lemma_prefix(pre, s, 0, big);
}

} // verus!
