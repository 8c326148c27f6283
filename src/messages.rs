//! The message schemas carried on the bus, and their decoders. Floating-point
//! fields are held as their IEEE-754 bit patterns (`f32` as `u32`, `f64` as
//! `u64`) and text as its bytes, exactly as they stand on the wire.
use vstd::prelude::*;
use crate::wire::{
    Decode, DecodeError, byte_run_at, decode_seq, decode_u64_array, items, lemma_byte_run_prefix, lemma_items_prefix,
    items_end, items_written, lemma_items_round_trip, lemma_run_round_trip, lemma_seq_prefix, lemma_seq_round_trip,
    models, read_byte_run, run_end, run_written, seq_at, seq_end, seq_written,
};

verus! {

/// A point in time: whole seconds and the nanoseconds past them.
#[derive(Debug, Clone, Copy, PartialEq, Eq)]
pub struct Time {
    pub sec: i32,
    pub nanosec: u32,
}

impl View for Time {
    type V = Time;

    open spec fn view(&self) -> Time {
        *self
    }
}

impl Decode for Time {
    open spec fn decoded(s: Seq<u8>, p: nat, big: bool) -> Option<(Time, nat)> {
        let sec = i32::decoded(s, p, big);
        let nanosec = u32::decoded(s, sec.unwrap().1, big);
        if sec is Some && nanosec is Some {
            Some((Time { sec: sec.unwrap().0, nanosec: nanosec.unwrap().0 }, nanosec.unwrap().1))
        } else {
            None
        }
    }

    open spec fn written(s: Seq<u8>, p: nat, v: Time, big: bool) -> bool {
        let sec_end = i32::written_end(p, v.sec);
        &&& i32::written(s, p, v.sec, big)
        &&& u32::written(s, sec_end, v.nanosec, big)
    }

    open spec fn written_end(p: nat, v: Time) -> nat {
        let sec_end = i32::written_end(p, v.sec);
        let nanosec_end = u32::written_end(sec_end, v.nanosec);
        nanosec_end
    }

    proof fn lemma_round_trip(s: Seq<u8>, p: nat, v: Time, big: bool) {
        let sec_end = i32::written_end(p, v.sec);
        i32::lemma_round_trip(s, p, v.sec, big);
        u32::lemma_round_trip(s, sec_end, v.nanosec, big);
    }

    proof fn lemma_prefix(s: Seq<u8>, t: Seq<u8>, p: nat, big: bool) {
        let sec = i32::decoded(s, p, big);
        i32::lemma_prefix(s, t, p, big);
        u32::lemma_prefix(s, t, sec.unwrap().1, big);
    }

    fn decode_at(buf: &[u8], p: usize, big: bool) -> (r: Result<(Time, usize), DecodeError>) {
        let (sec, p) = i32::decode_at(buf, p, big)?;
        let (nanosec, p) = u32::decode_at(buf, p, big)?;
        Ok((Time { sec, nanosec }, p))
    }
}

/// The stamp and coordinate frame that most messages start with.
#[derive(Debug, Clone, PartialEq, Eq)]
pub struct Header {
    pub stamp: Time,
    pub frame_id: Vec<u8>,
}

/// What a `Header` holds, in the terms that contracts use.
pub struct HeaderModel {
    pub stamp: Time,
    pub frame_id: Seq<u8>,
}

impl View for Header {
    type V = HeaderModel;

    open spec fn view(&self) -> HeaderModel {
        HeaderModel { stamp: self.stamp, frame_id: self.frame_id@ }
    }
}

impl Decode for Header {
    open spec fn decoded(s: Seq<u8>, p: nat, big: bool) -> Option<(HeaderModel, nat)> {
        let stamp = Time::decoded(s, p, big);
        let frame_id = Vec::<u8>::decoded(s, stamp.unwrap().1, big);
        if stamp is Some && frame_id is Some {
            Some((HeaderModel { stamp: stamp.unwrap().0, frame_id: frame_id.unwrap().0 }, frame_id.unwrap().1))
        } else {
            None
        }
    }

    open spec fn written(s: Seq<u8>, p: nat, v: HeaderModel, big: bool) -> bool {
        let stamp_end = Time::written_end(p, v.stamp);
        &&& Time::written(s, p, v.stamp, big)
        &&& Vec::<u8>::written(s, stamp_end, v.frame_id, big)
    }

    open spec fn written_end(p: nat, v: HeaderModel) -> nat {
        let stamp_end = Time::written_end(p, v.stamp);
        let frame_id_end = Vec::<u8>::written_end(stamp_end, v.frame_id);
        frame_id_end
    }

    proof fn lemma_round_trip(s: Seq<u8>, p: nat, v: HeaderModel, big: bool) {
        let stamp_end = Time::written_end(p, v.stamp);
        Time::lemma_round_trip(s, p, v.stamp, big);
        Vec::<u8>::lemma_round_trip(s, stamp_end, v.frame_id, big);
    }

    proof fn lemma_prefix(s: Seq<u8>, t: Seq<u8>, p: nat, big: bool) {
        let stamp = Time::decoded(s, p, big);
        Time::lemma_prefix(s, t, p, big);
        Vec::<u8>::lemma_prefix(s, t, stamp.unwrap().1, big);
    }

    fn decode_at(buf: &[u8], p: usize, big: bool) -> (r: Result<(Header, usize), DecodeError>) {
        let (stamp, p) = Time::decode_at(buf, p, big)?;
        let (frame_id, p) = Vec::<u8>::decode_at(buf, p, big)?;
        Ok((Header { stamp, frame_id }, p))
    }
}

/// An image in a compressed format such as `jpeg` or `png`.
#[derive(Debug, Clone, PartialEq, Eq)]
pub struct CompressedImage {
    pub header: Header,
    pub format: Vec<u8>,
    pub data: Vec<u8>,
}

/// What a `CompressedImage` holds, in the terms that contracts use.
pub struct CompressedImageModel {
    pub header: HeaderModel,
    pub format: Seq<u8>,
    pub data: Seq<u8>,
}

impl View for CompressedImage {
    type V = CompressedImageModel;

    open spec fn view(&self) -> CompressedImageModel {
        CompressedImageModel { header: self.header@, format: self.format@, data: self.data@ }
    }
}

impl Decode for CompressedImage {
    open spec fn decoded(s: Seq<u8>, p: nat, big: bool) -> Option<(CompressedImageModel, nat)> {
        let header = Header::decoded(s, p, big);
        let format = Vec::<u8>::decoded(s, header.unwrap().1, big);
        let data = byte_run_at(s, format.unwrap().1, big);
        if header is Some && format is Some && data is Some {
            Some((
                CompressedImageModel {
                    header: header.unwrap().0,
                    format: format.unwrap().0,
                    data: data.unwrap().0,
                },
                data.unwrap().1,
            ))
        } else {
            None
        }
    }

    open spec fn written(s: Seq<u8>, p: nat, v: CompressedImageModel, big: bool) -> bool {
        let header_end = Header::written_end(p, v.header);
        let format_end = Vec::<u8>::written_end(header_end, v.format);
        &&& Header::written(s, p, v.header, big)
        &&& Vec::<u8>::written(s, header_end, v.format, big)
        &&& run_written(s, format_end, v.data, big)
    }

    open spec fn written_end(p: nat, v: CompressedImageModel) -> nat {
        let header_end = Header::written_end(p, v.header);
        let format_end = Vec::<u8>::written_end(header_end, v.format);
        let data_end = run_end(format_end, v.data);
        data_end
    }

    proof fn lemma_round_trip(s: Seq<u8>, p: nat, v: CompressedImageModel, big: bool) {
        let header_end = Header::written_end(p, v.header);
        Header::lemma_round_trip(s, p, v.header, big);
        let format_end = Vec::<u8>::written_end(header_end, v.format);
        Vec::<u8>::lemma_round_trip(s, header_end, v.format, big);
        let data_end = run_end(format_end, v.data);
        lemma_run_round_trip(s, format_end, v.data, big);
    }

    proof fn lemma_prefix(s: Seq<u8>, t: Seq<u8>, p: nat, big: bool) {
        let header = Header::decoded(s, p, big);
        Header::lemma_prefix(s, t, p, big);
        let format = Vec::<u8>::decoded(s, header.unwrap().1, big);
        Vec::<u8>::lemma_prefix(s, t, header.unwrap().1, big);
        lemma_byte_run_prefix(s, t, format.unwrap().1, big);
    }

    fn decode_at(buf: &[u8], p: usize, big: bool) -> (r: Result<(CompressedImage, usize), DecodeError>) {
        let (header, p) = Header::decode_at(buf, p, big)?;
        let (format, p) = Vec::<u8>::decode_at(buf, p, big)?;
        let (data, p) = read_byte_run(buf, p, big)?;
        Ok((CompressedImage { header, format, data }, p))
    }
}

/// One field of each point in a `PointCloud2`: where it lies in the point and its type code.
#[derive(Debug, Clone, PartialEq, Eq)]
pub struct PointField {
    pub name: Vec<u8>,
    pub offset: u32,
    pub datatype: u8,
    pub count: u32,
}

/// What a `PointField` holds, in the terms that contracts use.
pub struct PointFieldModel {
    pub name: Seq<u8>,
    pub offset: u32,
    pub datatype: u8,
    pub count: u32,
}

impl View for PointField {
    type V = PointFieldModel;

    open spec fn view(&self) -> PointFieldModel {
        PointFieldModel { name: self.name@, offset: self.offset, datatype: self.datatype, count: self.count }
    }
}

impl Decode for PointField {
    open spec fn decoded(s: Seq<u8>, p: nat, big: bool) -> Option<(PointFieldModel, nat)> {
        let name = Vec::<u8>::decoded(s, p, big);
        let offset = u32::decoded(s, name.unwrap().1, big);
        let datatype = u8::decoded(s, offset.unwrap().1, big);
        let count = u32::decoded(s, datatype.unwrap().1, big);
        if name is Some && offset is Some && datatype is Some && count is Some {
            Some((
                PointFieldModel {
                    name: name.unwrap().0,
                    offset: offset.unwrap().0,
                    datatype: datatype.unwrap().0,
                    count: count.unwrap().0,
                },
                count.unwrap().1,
            ))
        } else {
            None
        }
    }

    open spec fn written(s: Seq<u8>, p: nat, v: PointFieldModel, big: bool) -> bool {
        let name_end = Vec::<u8>::written_end(p, v.name);
        let offset_end = u32::written_end(name_end, v.offset);
        let datatype_end = u8::written_end(offset_end, v.datatype);
        &&& Vec::<u8>::written(s, p, v.name, big)
        &&& u32::written(s, name_end, v.offset, big)
        &&& u8::written(s, offset_end, v.datatype, big)
        &&& u32::written(s, datatype_end, v.count, big)
    }

    open spec fn written_end(p: nat, v: PointFieldModel) -> nat {
        let name_end = Vec::<u8>::written_end(p, v.name);
        let offset_end = u32::written_end(name_end, v.offset);
        let datatype_end = u8::written_end(offset_end, v.datatype);
        let count_end = u32::written_end(datatype_end, v.count);
        count_end
    }

    proof fn lemma_round_trip(s: Seq<u8>, p: nat, v: PointFieldModel, big: bool) {
        let name_end = Vec::<u8>::written_end(p, v.name);
        Vec::<u8>::lemma_round_trip(s, p, v.name, big);
        let offset_end = u32::written_end(name_end, v.offset);
        u32::lemma_round_trip(s, name_end, v.offset, big);
        let datatype_end = u8::written_end(offset_end, v.datatype);
        u8::lemma_round_trip(s, offset_end, v.datatype, big);
        u32::lemma_round_trip(s, datatype_end, v.count, big);
    }

    proof fn lemma_prefix(s: Seq<u8>, t: Seq<u8>, p: nat, big: bool) {
        let name = Vec::<u8>::decoded(s, p, big);
        Vec::<u8>::lemma_prefix(s, t, p, big);
        let offset = u32::decoded(s, name.unwrap().1, big);
        u32::lemma_prefix(s, t, name.unwrap().1, big);
        let datatype = u8::decoded(s, offset.unwrap().1, big);
        u8::lemma_prefix(s, t, offset.unwrap().1, big);
        u32::lemma_prefix(s, t, datatype.unwrap().1, big);
    }

    fn decode_at(buf: &[u8], p: usize, big: bool) -> (r: Result<(PointField, usize), DecodeError>) {
        let (name, p) = Vec::<u8>::decode_at(buf, p, big)?;
        let (offset, p) = u32::decode_at(buf, p, big)?;
        let (datatype, p) = u8::decode_at(buf, p, big)?;
        let (count, p) = u32::decode_at(buf, p, big)?;
        Ok((PointField { name, offset, datatype, count }, p))
    }
}

/// A point cloud: `height` rows of `width` points, each `point_step` bytes laid out as `fields` say.
#[derive(Debug, Clone, PartialEq, Eq)]
pub struct PointCloud2 {
    pub header: Header,
    pub height: u32,
    pub width: u32,
    pub fields: Vec<PointField>,
    pub is_bigendian: bool,
    pub point_step: u32,
    pub row_step: u32,
    pub data: Vec<u8>,
    pub is_dense: bool,
}

/// What a `PointCloud2` holds, in the terms that contracts use.
pub struct PointCloud2Model {
    pub header: HeaderModel,
    pub height: u32,
    pub width: u32,
    pub fields: Seq<PointFieldModel>,
    pub is_bigendian: bool,
    pub point_step: u32,
    pub row_step: u32,
    pub data: Seq<u8>,
    pub is_dense: bool,
}

impl View for PointCloud2 {
    type V = PointCloud2Model;

    open spec fn view(&self) -> PointCloud2Model {
        PointCloud2Model {
            header: self.header@,
            height: self.height,
            width: self.width,
            fields: models(self.fields@),
            is_bigendian: self.is_bigendian,
            point_step: self.point_step,
            row_step: self.row_step,
            data: self.data@,
            is_dense: self.is_dense,
        }
    }
}

impl Decode for PointCloud2 {
    open spec fn decoded(s: Seq<u8>, p: nat, big: bool) -> Option<(PointCloud2Model, nat)> {
        let header = Header::decoded(s, p, big);
        let height = u32::decoded(s, header.unwrap().1, big);
        let width = u32::decoded(s, height.unwrap().1, big);
        let fields = seq_at::<PointField>(s, width.unwrap().1, big);
        let is_bigendian = bool::decoded(s, fields.unwrap().1, big);
        let point_step = u32::decoded(s, is_bigendian.unwrap().1, big);
        let row_step = u32::decoded(s, point_step.unwrap().1, big);
        let data = byte_run_at(s, row_step.unwrap().1, big);
        let is_dense = bool::decoded(s, data.unwrap().1, big);
        if header is Some && height is Some && width is Some && fields is Some && is_bigendian is Some
            && point_step is Some && row_step is Some && data is Some && is_dense is Some {
            Some((
                PointCloud2Model {
                    header: header.unwrap().0,
                    height: height.unwrap().0,
                    width: width.unwrap().0,
                    fields: fields.unwrap().0,
                    is_bigendian: is_bigendian.unwrap().0,
                    point_step: point_step.unwrap().0,
                    row_step: row_step.unwrap().0,
                    data: data.unwrap().0,
                    is_dense: is_dense.unwrap().0,
                },
                is_dense.unwrap().1,
            ))
        } else {
            None
        }
    }

    open spec fn written(s: Seq<u8>, p: nat, v: PointCloud2Model, big: bool) -> bool {
        let header_end = Header::written_end(p, v.header);
        let height_end = u32::written_end(header_end, v.height);
        let width_end = u32::written_end(height_end, v.width);
        let fields_end = seq_end::<PointField>(width_end, v.fields);
        let is_bigendian_end = bool::written_end(fields_end, v.is_bigendian);
        let point_step_end = u32::written_end(is_bigendian_end, v.point_step);
        let row_step_end = u32::written_end(point_step_end, v.row_step);
        let data_end = run_end(row_step_end, v.data);
        &&& Header::written(s, p, v.header, big)
        &&& u32::written(s, header_end, v.height, big)
        &&& u32::written(s, height_end, v.width, big)
        &&& seq_written::<PointField>(s, width_end, v.fields, big)
        &&& bool::written(s, fields_end, v.is_bigendian, big)
        &&& u32::written(s, is_bigendian_end, v.point_step, big)
        &&& u32::written(s, point_step_end, v.row_step, big)
        &&& run_written(s, row_step_end, v.data, big)
        &&& bool::written(s, data_end, v.is_dense, big)
    }

    open spec fn written_end(p: nat, v: PointCloud2Model) -> nat {
        let header_end = Header::written_end(p, v.header);
        let height_end = u32::written_end(header_end, v.height);
        let width_end = u32::written_end(height_end, v.width);
        let fields_end = seq_end::<PointField>(width_end, v.fields);
        let is_bigendian_end = bool::written_end(fields_end, v.is_bigendian);
        let point_step_end = u32::written_end(is_bigendian_end, v.point_step);
        let row_step_end = u32::written_end(point_step_end, v.row_step);
        let data_end = run_end(row_step_end, v.data);
        let is_dense_end = bool::written_end(data_end, v.is_dense);
        is_dense_end
    }

    proof fn lemma_round_trip(s: Seq<u8>, p: nat, v: PointCloud2Model, big: bool) {
        let header_end = Header::written_end(p, v.header);
        Header::lemma_round_trip(s, p, v.header, big);
        let height_end = u32::written_end(header_end, v.height);
        u32::lemma_round_trip(s, header_end, v.height, big);
        let width_end = u32::written_end(height_end, v.width);
        u32::lemma_round_trip(s, height_end, v.width, big);
        let fields_end = seq_end::<PointField>(width_end, v.fields);
        lemma_seq_round_trip::<PointField>(s, width_end, v.fields, big);
        let is_bigendian_end = bool::written_end(fields_end, v.is_bigendian);
        bool::lemma_round_trip(s, fields_end, v.is_bigendian, big);
        let point_step_end = u32::written_end(is_bigendian_end, v.point_step);
        u32::lemma_round_trip(s, is_bigendian_end, v.point_step, big);
        let row_step_end = u32::written_end(point_step_end, v.row_step);
        u32::lemma_round_trip(s, point_step_end, v.row_step, big);
        let data_end = run_end(row_step_end, v.data);
        lemma_run_round_trip(s, row_step_end, v.data, big);
        bool::lemma_round_trip(s, data_end, v.is_dense, big);
    }

    proof fn lemma_prefix(s: Seq<u8>, t: Seq<u8>, p: nat, big: bool) {
        let header = Header::decoded(s, p, big);
        Header::lemma_prefix(s, t, p, big);
        let height = u32::decoded(s, header.unwrap().1, big);
        u32::lemma_prefix(s, t, header.unwrap().1, big);
        let width = u32::decoded(s, height.unwrap().1, big);
        u32::lemma_prefix(s, t, height.unwrap().1, big);
        let fields = seq_at::<PointField>(s, width.unwrap().1, big);
        lemma_seq_prefix::<PointField>(s, t, width.unwrap().1, big);
        let is_bigendian = bool::decoded(s, fields.unwrap().1, big);
        bool::lemma_prefix(s, t, fields.unwrap().1, big);
        let point_step = u32::decoded(s, is_bigendian.unwrap().1, big);
        u32::lemma_prefix(s, t, is_bigendian.unwrap().1, big);
        let row_step = u32::decoded(s, point_step.unwrap().1, big);
        u32::lemma_prefix(s, t, point_step.unwrap().1, big);
        let data = byte_run_at(s, row_step.unwrap().1, big);
        lemma_byte_run_prefix(s, t, row_step.unwrap().1, big);
        bool::lemma_prefix(s, t, data.unwrap().1, big);
    }

    fn decode_at(buf: &[u8], p: usize, big: bool) -> (r: Result<(PointCloud2, usize), DecodeError>) {
        let (header, p) = Header::decode_at(buf, p, big)?;
        let (height, p) = u32::decode_at(buf, p, big)?;
        let (width, p) = u32::decode_at(buf, p, big)?;
        let (fields, p) = decode_seq::<PointField>(buf, p, big)?;
        let (is_bigendian, p) = bool::decode_at(buf, p, big)?;
        let (point_step, p) = u32::decode_at(buf, p, big)?;
        let (row_step, p) = u32::decode_at(buf, p, big)?;
        let (data, p) = read_byte_run(buf, p, big)?;
        let (is_dense, p) = bool::decode_at(buf, p, big)?;
        Ok((PointCloud2 { header, height, width, fields, is_bigendian, point_step, row_step, data, is_dense }, p))
    }
}

/// A shared-memory image buffer, described by reference: the owning process
/// and its file descriptor, with the image's geometry.
#[derive(Debug, Clone, PartialEq, Eq)]
pub struct DeepviewDMABuf {
    pub header: Header,
    pub src_pid: u32,
    pub dma_fd: i32,
    pub width: u32,
    pub height: u32,
    pub stride: u32,
    pub fourcc: u32,
    pub length: u32,
}

/// What a `DeepviewDMABuf` holds, in the terms that contracts use.
pub struct DeepviewDMABufModel {
    pub header: HeaderModel,
    pub src_pid: u32,
    pub dma_fd: i32,
    pub width: u32,
    pub height: u32,
    pub stride: u32,
    pub fourcc: u32,
    pub length: u32,
}

impl View for DeepviewDMABuf {
    type V = DeepviewDMABufModel;

    open spec fn view(&self) -> DeepviewDMABufModel {
        DeepviewDMABufModel {
            header: self.header@,
            src_pid: self.src_pid,
            dma_fd: self.dma_fd,
            width: self.width,
            height: self.height,
            stride: self.stride,
            fourcc: self.fourcc,
            length: self.length,
        }
    }
}

impl Decode for DeepviewDMABuf {
    open spec fn decoded(s: Seq<u8>, at: nat, big: bool) -> Option<(DeepviewDMABufModel, nat)> {
        let header = Header::decoded(s, at, big);
        let src_pid = u32::decoded(s, header.unwrap().1, big);
        let dma_fd = i32::decoded(s, src_pid.unwrap().1, big);
        let width = u32::decoded(s, dma_fd.unwrap().1, big);
        let height = u32::decoded(s, width.unwrap().1, big);
        let stride = u32::decoded(s, height.unwrap().1, big);
        let fourcc = u32::decoded(s, stride.unwrap().1, big);
        let length = u32::decoded(s, fourcc.unwrap().1, big);
        if header is Some && src_pid is Some && dma_fd is Some && width is Some && height is Some && stride is Some && fourcc is Some && length is Some {
            Some((
                DeepviewDMABufModel {
                    header: header.unwrap().0,
                    src_pid: src_pid.unwrap().0,
                    dma_fd: dma_fd.unwrap().0,
                    width: width.unwrap().0,
                    height: height.unwrap().0,
                    stride: stride.unwrap().0,
                    fourcc: fourcc.unwrap().0,
                    length: length.unwrap().0,
                },
                length.unwrap().1,
            ))
        } else {
            None
        }
    }

    open spec fn written(s: Seq<u8>, at: nat, v: DeepviewDMABufModel, big: bool) -> bool {
        let header_end = Header::written_end(at, v.header);
        let src_pid_end = u32::written_end(header_end, v.src_pid);
        let dma_fd_end = i32::written_end(src_pid_end, v.dma_fd);
        let width_end = u32::written_end(dma_fd_end, v.width);
        let height_end = u32::written_end(width_end, v.height);
        let stride_end = u32::written_end(height_end, v.stride);
        let fourcc_end = u32::written_end(stride_end, v.fourcc);
        &&& Header::written(s, at, v.header, big)
        &&& u32::written(s, header_end, v.src_pid, big)
        &&& i32::written(s, src_pid_end, v.dma_fd, big)
        &&& u32::written(s, dma_fd_end, v.width, big)
        &&& u32::written(s, width_end, v.height, big)
        &&& u32::written(s, height_end, v.stride, big)
        &&& u32::written(s, stride_end, v.fourcc, big)
        &&& u32::written(s, fourcc_end, v.length, big)
    }

    open spec fn written_end(at: nat, v: DeepviewDMABufModel) -> nat {
        let header_end = Header::written_end(at, v.header);
        let src_pid_end = u32::written_end(header_end, v.src_pid);
        let dma_fd_end = i32::written_end(src_pid_end, v.dma_fd);
        let width_end = u32::written_end(dma_fd_end, v.width);
        let height_end = u32::written_end(width_end, v.height);
        let stride_end = u32::written_end(height_end, v.stride);
        let fourcc_end = u32::written_end(stride_end, v.fourcc);
        let length_end = u32::written_end(fourcc_end, v.length);
        length_end
    }

    proof fn lemma_round_trip(s: Seq<u8>, at: nat, v: DeepviewDMABufModel, big: bool) {
        let header_end = Header::written_end(at, v.header);
        Header::lemma_round_trip(s, at, v.header, big);
        let src_pid_end = u32::written_end(header_end, v.src_pid);
        u32::lemma_round_trip(s, header_end, v.src_pid, big);
        let dma_fd_end = i32::written_end(src_pid_end, v.dma_fd);
        i32::lemma_round_trip(s, src_pid_end, v.dma_fd, big);
        let width_end = u32::written_end(dma_fd_end, v.width);
        u32::lemma_round_trip(s, dma_fd_end, v.width, big);
        let height_end = u32::written_end(width_end, v.height);
        u32::lemma_round_trip(s, width_end, v.height, big);
        let stride_end = u32::written_end(height_end, v.stride);
        u32::lemma_round_trip(s, height_end, v.stride, big);
        let fourcc_end = u32::written_end(stride_end, v.fourcc);
        u32::lemma_round_trip(s, stride_end, v.fourcc, big);
        u32::lemma_round_trip(s, fourcc_end, v.length, big);
    }

    proof fn lemma_prefix(s: Seq<u8>, t: Seq<u8>, at: nat, big: bool) {
        let header = Header::decoded(s, at, big);
        Header::lemma_prefix(s, t, at, big);
        let src_pid = u32::decoded(s, header.unwrap().1, big);
        u32::lemma_prefix(s, t, header.unwrap().1, big);
        let dma_fd = i32::decoded(s, src_pid.unwrap().1, big);
        i32::lemma_prefix(s, t, src_pid.unwrap().1, big);
        let width = u32::decoded(s, dma_fd.unwrap().1, big);
        u32::lemma_prefix(s, t, dma_fd.unwrap().1, big);
        let height = u32::decoded(s, width.unwrap().1, big);
        u32::lemma_prefix(s, t, width.unwrap().1, big);
        let stride = u32::decoded(s, height.unwrap().1, big);
        u32::lemma_prefix(s, t, height.unwrap().1, big);
        let fourcc = u32::decoded(s, stride.unwrap().1, big);
        u32::lemma_prefix(s, t, stride.unwrap().1, big);
        u32::lemma_prefix(s, t, fourcc.unwrap().1, big);
    }

    fn decode_at(buf: &[u8], at: usize, big: bool) -> (r: Result<(DeepviewDMABuf, usize), DecodeError>) {
        let (header, at) = Header::decode_at(buf, at, big)?;
        let (src_pid, at) = u32::decode_at(buf, at, big)?;
        let (dma_fd, at) = i32::decode_at(buf, at, big)?;
        let (width, at) = u32::decode_at(buf, at, big)?;
        let (height, at) = u32::decode_at(buf, at, big)?;
        let (stride, at) = u32::decode_at(buf, at, big)?;
        let (fourcc, at) = u32::decode_at(buf, at, big)?;
        let (length, at) = u32::decode_at(buf, at, big)?;
        Ok((DeepviewDMABuf { header, src_pid, dma_fd, width, height, stride, fourcc, length }, at))
    }
}

/// A point in image coordinates.
#[derive(Debug, Clone, Copy, PartialEq, Eq)]
pub struct FoxglovePoint2 {
    /// Bits of an `f64`.
    pub x: u64,
    /// Bits of an `f64`.
    pub y: u64,
}

impl View for FoxglovePoint2 {
    type V = FoxglovePoint2;

    open spec fn view(&self) -> FoxglovePoint2 {
        *self
    }
}

impl Decode for FoxglovePoint2 {
    open spec fn decoded(s: Seq<u8>, at: nat, big: bool) -> Option<(FoxglovePoint2, nat)> {
        let x = u64::decoded(s, at, big);
        let y = u64::decoded(s, x.unwrap().1, big);
        if x is Some && y is Some {
            Some((
                FoxglovePoint2 {
                    x: x.unwrap().0,
                    y: y.unwrap().0,
                },
                y.unwrap().1,
            ))
        } else {
            None
        }
    }

    open spec fn written(s: Seq<u8>, at: nat, v: FoxglovePoint2, big: bool) -> bool {
        let x_end = u64::written_end(at, v.x);
        &&& u64::written(s, at, v.x, big)
        &&& u64::written(s, x_end, v.y, big)
    }

    open spec fn written_end(at: nat, v: FoxglovePoint2) -> nat {
        let x_end = u64::written_end(at, v.x);
        let y_end = u64::written_end(x_end, v.y);
        y_end
    }

    proof fn lemma_round_trip(s: Seq<u8>, at: nat, v: FoxglovePoint2, big: bool) {
        let x_end = u64::written_end(at, v.x);
        u64::lemma_round_trip(s, at, v.x, big);
        u64::lemma_round_trip(s, x_end, v.y, big);
    }

    proof fn lemma_prefix(s: Seq<u8>, t: Seq<u8>, at: nat, big: bool) {
        let x = u64::decoded(s, at, big);
        u64::lemma_prefix(s, t, at, big);
        u64::lemma_prefix(s, t, x.unwrap().1, big);
    }

    fn decode_at(buf: &[u8], at: usize, big: bool) -> (r: Result<(FoxglovePoint2, usize), DecodeError>) {
        let (x, at) = u64::decode_at(buf, at, big)?;
        let (y, at) = u64::decode_at(buf, at, big)?;
        Ok((FoxglovePoint2 { x, y }, at))
    }
}

/// Each channel is the bits of an `f64`.
#[derive(Debug, Clone, Copy, PartialEq, Eq)]
pub struct FoxgloveColor {
    pub r: u64,
    pub g: u64,
    pub b: u64,
    pub a: u64,
}

impl View for FoxgloveColor {
    type V = FoxgloveColor;

    open spec fn view(&self) -> FoxgloveColor {
        *self
    }
}

impl Decode for FoxgloveColor {
    open spec fn decoded(s: Seq<u8>, at: nat, big: bool) -> Option<(FoxgloveColor, nat)> {
        let r = u64::decoded(s, at, big);
        let g = u64::decoded(s, r.unwrap().1, big);
        let b = u64::decoded(s, g.unwrap().1, big);
        let a = u64::decoded(s, b.unwrap().1, big);
        if r is Some && g is Some && b is Some && a is Some {
            Some((
                FoxgloveColor {
                    r: r.unwrap().0,
                    g: g.unwrap().0,
                    b: b.unwrap().0,
                    a: a.unwrap().0,
                },
                a.unwrap().1,
            ))
        } else {
            None
        }
    }

    open spec fn written(s: Seq<u8>, at: nat, v: FoxgloveColor, big: bool) -> bool {
        let r_end = u64::written_end(at, v.r);
        let g_end = u64::written_end(r_end, v.g);
        let b_end = u64::written_end(g_end, v.b);
        &&& u64::written(s, at, v.r, big)
        &&& u64::written(s, r_end, v.g, big)
        &&& u64::written(s, g_end, v.b, big)
        &&& u64::written(s, b_end, v.a, big)
    }

    open spec fn written_end(at: nat, v: FoxgloveColor) -> nat {
        let r_end = u64::written_end(at, v.r);
        let g_end = u64::written_end(r_end, v.g);
        let b_end = u64::written_end(g_end, v.b);
        let a_end = u64::written_end(b_end, v.a);
        a_end
    }

    proof fn lemma_round_trip(s: Seq<u8>, at: nat, v: FoxgloveColor, big: bool) {
        let r_end = u64::written_end(at, v.r);
        u64::lemma_round_trip(s, at, v.r, big);
        let g_end = u64::written_end(r_end, v.g);
        u64::lemma_round_trip(s, r_end, v.g, big);
        let b_end = u64::written_end(g_end, v.b);
        u64::lemma_round_trip(s, g_end, v.b, big);
        u64::lemma_round_trip(s, b_end, v.a, big);
    }

    proof fn lemma_prefix(s: Seq<u8>, t: Seq<u8>, at: nat, big: bool) {
        let r = u64::decoded(s, at, big);
        u64::lemma_prefix(s, t, at, big);
        let g = u64::decoded(s, r.unwrap().1, big);
        u64::lemma_prefix(s, t, r.unwrap().1, big);
        let b = u64::decoded(s, g.unwrap().1, big);
        u64::lemma_prefix(s, t, g.unwrap().1, big);
        u64::lemma_prefix(s, t, b.unwrap().1, big);
    }

    fn decode_at(buf: &[u8], at: usize, big: bool) -> (r: Result<(FoxgloveColor, usize), DecodeError>) {
        let (r, at) = u64::decode_at(buf, at, big)?;
        let (g, at) = u64::decode_at(buf, at, big)?;
        let (b, at) = u64::decode_at(buf, at, big)?;
        let (a, at) = u64::decode_at(buf, at, big)?;
        Ok((FoxgloveColor { r, g, b, a }, at))
    }
}

/// A circle drawn on an image.
#[derive(Debug, Clone, Copy, PartialEq, Eq)]
pub struct FoxgloveCircleAnnotations {
    pub timestamp: Time,
    pub position: FoxglovePoint2,
    /// Bits of an `f64`.
    pub diameter: u64,
    /// Bits of an `f64`.
    pub thickness: u64,
    pub fill_color: FoxgloveColor,
    pub outline_color: FoxgloveColor,
}

impl View for FoxgloveCircleAnnotations {
    type V = FoxgloveCircleAnnotations;

    open spec fn view(&self) -> FoxgloveCircleAnnotations {
        *self
    }
}

impl Decode for FoxgloveCircleAnnotations {
    open spec fn decoded(s: Seq<u8>, at: nat, big: bool) -> Option<(FoxgloveCircleAnnotations, nat)> {
        let timestamp = Time::decoded(s, at, big);
        let position = FoxglovePoint2::decoded(s, timestamp.unwrap().1, big);
        let diameter = u64::decoded(s, position.unwrap().1, big);
        let thickness = u64::decoded(s, diameter.unwrap().1, big);
        let fill_color = FoxgloveColor::decoded(s, thickness.unwrap().1, big);
        let outline_color = FoxgloveColor::decoded(s, fill_color.unwrap().1, big);
        if timestamp is Some && position is Some && diameter is Some && thickness is Some && fill_color is Some && outline_color is Some {
            Some((
                FoxgloveCircleAnnotations {
                    timestamp: timestamp.unwrap().0,
                    position: position.unwrap().0,
                    diameter: diameter.unwrap().0,
                    thickness: thickness.unwrap().0,
                    fill_color: fill_color.unwrap().0,
                    outline_color: outline_color.unwrap().0,
                },
                outline_color.unwrap().1,
            ))
        } else {
            None
        }
    }

    open spec fn written(s: Seq<u8>, at: nat, v: FoxgloveCircleAnnotations, big: bool) -> bool {
        let timestamp_end = Time::written_end(at, v.timestamp);
        let position_end = FoxglovePoint2::written_end(timestamp_end, v.position);
        let diameter_end = u64::written_end(position_end, v.diameter);
        let thickness_end = u64::written_end(diameter_end, v.thickness);
        let fill_color_end = FoxgloveColor::written_end(thickness_end, v.fill_color);
        &&& Time::written(s, at, v.timestamp, big)
        &&& FoxglovePoint2::written(s, timestamp_end, v.position, big)
        &&& u64::written(s, position_end, v.diameter, big)
        &&& u64::written(s, diameter_end, v.thickness, big)
        &&& FoxgloveColor::written(s, thickness_end, v.fill_color, big)
        &&& FoxgloveColor::written(s, fill_color_end, v.outline_color, big)
    }

    open spec fn written_end(at: nat, v: FoxgloveCircleAnnotations) -> nat {
        let timestamp_end = Time::written_end(at, v.timestamp);
        let position_end = FoxglovePoint2::written_end(timestamp_end, v.position);
        let diameter_end = u64::written_end(position_end, v.diameter);
        let thickness_end = u64::written_end(diameter_end, v.thickness);
        let fill_color_end = FoxgloveColor::written_end(thickness_end, v.fill_color);
        let outline_color_end = FoxgloveColor::written_end(fill_color_end, v.outline_color);
        outline_color_end
    }

    proof fn lemma_round_trip(s: Seq<u8>, at: nat, v: FoxgloveCircleAnnotations, big: bool) {
        let timestamp_end = Time::written_end(at, v.timestamp);
        Time::lemma_round_trip(s, at, v.timestamp, big);
        let position_end = FoxglovePoint2::written_end(timestamp_end, v.position);
        FoxglovePoint2::lemma_round_trip(s, timestamp_end, v.position, big);
        let diameter_end = u64::written_end(position_end, v.diameter);
        u64::lemma_round_trip(s, position_end, v.diameter, big);
        let thickness_end = u64::written_end(diameter_end, v.thickness);
        u64::lemma_round_trip(s, diameter_end, v.thickness, big);
        let fill_color_end = FoxgloveColor::written_end(thickness_end, v.fill_color);
        FoxgloveColor::lemma_round_trip(s, thickness_end, v.fill_color, big);
        FoxgloveColor::lemma_round_trip(s, fill_color_end, v.outline_color, big);
    }

    proof fn lemma_prefix(s: Seq<u8>, t: Seq<u8>, at: nat, big: bool) {
        let timestamp = Time::decoded(s, at, big);
        Time::lemma_prefix(s, t, at, big);
        let position = FoxglovePoint2::decoded(s, timestamp.unwrap().1, big);
        FoxglovePoint2::lemma_prefix(s, t, timestamp.unwrap().1, big);
        let diameter = u64::decoded(s, position.unwrap().1, big);
        u64::lemma_prefix(s, t, position.unwrap().1, big);
        let thickness = u64::decoded(s, diameter.unwrap().1, big);
        u64::lemma_prefix(s, t, diameter.unwrap().1, big);
        let fill_color = FoxgloveColor::decoded(s, thickness.unwrap().1, big);
        FoxgloveColor::lemma_prefix(s, t, thickness.unwrap().1, big);
        FoxgloveColor::lemma_prefix(s, t, fill_color.unwrap().1, big);
    }

    fn decode_at(buf: &[u8], at: usize, big: bool) -> (r: Result<(FoxgloveCircleAnnotations, usize), DecodeError>) {
        let (timestamp, at) = Time::decode_at(buf, at, big)?;
        let (position, at) = FoxglovePoint2::decode_at(buf, at, big)?;
        let (diameter, at) = u64::decode_at(buf, at, big)?;
        let (thickness, at) = u64::decode_at(buf, at, big)?;
        let (fill_color, at) = FoxgloveColor::decode_at(buf, at, big)?;
        let (outline_color, at) = FoxgloveColor::decode_at(buf, at, big)?;
        Ok((FoxgloveCircleAnnotations { timestamp, position, diameter, thickness, fill_color, outline_color }, at))
    }
}

/// Points, or lines through them, drawn on an image; `type_` says which.
#[derive(Debug, Clone, PartialEq, Eq)]
pub struct FoxglovePointAnnotations {
    pub timestamp: Time,
    pub type_: u8,
    pub points: Vec<FoxglovePoint2>,
    pub outline_color: FoxgloveColor,
    pub outline_colors: Vec<FoxgloveColor>,
    pub fill_color: FoxgloveColor,
    /// Bits of an `f64`.
    pub thickness: u64,
}

/// What a `FoxglovePointAnnotations` holds, in the terms that contracts use.
pub struct FoxglovePointAnnotationsModel {
    pub timestamp: Time,
    pub type_: u8,
    pub points: Seq<FoxglovePoint2>,
    pub outline_color: FoxgloveColor,
    pub outline_colors: Seq<FoxgloveColor>,
    pub fill_color: FoxgloveColor,
    pub thickness: u64,
}

impl View for FoxglovePointAnnotations {
    type V = FoxglovePointAnnotationsModel;

    open spec fn view(&self) -> FoxglovePointAnnotationsModel {
        FoxglovePointAnnotationsModel {
            timestamp: self.timestamp,
            type_: self.type_,
            points: models(self.points@),
            outline_color: self.outline_color,
            outline_colors: models(self.outline_colors@),
            fill_color: self.fill_color,
            thickness: self.thickness,
        }
    }
}

impl Decode for FoxglovePointAnnotations {
    open spec fn decoded(s: Seq<u8>, at: nat, big: bool) -> Option<(FoxglovePointAnnotationsModel, nat)> {
        let timestamp = Time::decoded(s, at, big);
        let type_ = u8::decoded(s, timestamp.unwrap().1, big);
        let points = seq_at::<FoxglovePoint2>(s, type_.unwrap().1, big);
        let outline_color = FoxgloveColor::decoded(s, points.unwrap().1, big);
        let outline_colors = seq_at::<FoxgloveColor>(s, outline_color.unwrap().1, big);
        let fill_color = FoxgloveColor::decoded(s, outline_colors.unwrap().1, big);
        let thickness = u64::decoded(s, fill_color.unwrap().1, big);
        if timestamp is Some && type_ is Some && points is Some && outline_color is Some && outline_colors is Some && fill_color is Some && thickness is Some {
            Some((
                FoxglovePointAnnotationsModel {
                    timestamp: timestamp.unwrap().0,
                    type_: type_.unwrap().0,
                    points: points.unwrap().0,
                    outline_color: outline_color.unwrap().0,
                    outline_colors: outline_colors.unwrap().0,
                    fill_color: fill_color.unwrap().0,
                    thickness: thickness.unwrap().0,
                },
                thickness.unwrap().1,
            ))
        } else {
            None
        }
    }

    open spec fn written(s: Seq<u8>, at: nat, v: FoxglovePointAnnotationsModel, big: bool) -> bool {
        let timestamp_end = Time::written_end(at, v.timestamp);
        let type__end = u8::written_end(timestamp_end, v.type_);
        let points_end = seq_end::<FoxglovePoint2>(type__end, v.points);
        let outline_color_end = FoxgloveColor::written_end(points_end, v.outline_color);
        let outline_colors_end = seq_end::<FoxgloveColor>(outline_color_end, v.outline_colors);
        let fill_color_end = FoxgloveColor::written_end(outline_colors_end, v.fill_color);
        &&& Time::written(s, at, v.timestamp, big)
        &&& u8::written(s, timestamp_end, v.type_, big)
        &&& seq_written::<FoxglovePoint2>(s, type__end, v.points, big)
        &&& FoxgloveColor::written(s, points_end, v.outline_color, big)
        &&& seq_written::<FoxgloveColor>(s, outline_color_end, v.outline_colors, big)
        &&& FoxgloveColor::written(s, outline_colors_end, v.fill_color, big)
        &&& u64::written(s, fill_color_end, v.thickness, big)
    }

    open spec fn written_end(at: nat, v: FoxglovePointAnnotationsModel) -> nat {
        let timestamp_end = Time::written_end(at, v.timestamp);
        let type__end = u8::written_end(timestamp_end, v.type_);
        let points_end = seq_end::<FoxglovePoint2>(type__end, v.points);
        let outline_color_end = FoxgloveColor::written_end(points_end, v.outline_color);
        let outline_colors_end = seq_end::<FoxgloveColor>(outline_color_end, v.outline_colors);
        let fill_color_end = FoxgloveColor::written_end(outline_colors_end, v.fill_color);
        let thickness_end = u64::written_end(fill_color_end, v.thickness);
        thickness_end
    }

    proof fn lemma_round_trip(s: Seq<u8>, at: nat, v: FoxglovePointAnnotationsModel, big: bool) {
        let timestamp_end = Time::written_end(at, v.timestamp);
        Time::lemma_round_trip(s, at, v.timestamp, big);
        let type__end = u8::written_end(timestamp_end, v.type_);
        u8::lemma_round_trip(s, timestamp_end, v.type_, big);
        let points_end = seq_end::<FoxglovePoint2>(type__end, v.points);
        lemma_seq_round_trip::<FoxglovePoint2>(s, type__end, v.points, big);
        let outline_color_end = FoxgloveColor::written_end(points_end, v.outline_color);
        FoxgloveColor::lemma_round_trip(s, points_end, v.outline_color, big);
        let outline_colors_end = seq_end::<FoxgloveColor>(outline_color_end, v.outline_colors);
        lemma_seq_round_trip::<FoxgloveColor>(s, outline_color_end, v.outline_colors, big);
        let fill_color_end = FoxgloveColor::written_end(outline_colors_end, v.fill_color);
        FoxgloveColor::lemma_round_trip(s, outline_colors_end, v.fill_color, big);
        u64::lemma_round_trip(s, fill_color_end, v.thickness, big);
    }

    proof fn lemma_prefix(s: Seq<u8>, t: Seq<u8>, at: nat, big: bool) {
        let timestamp = Time::decoded(s, at, big);
        Time::lemma_prefix(s, t, at, big);
        let type_ = u8::decoded(s, timestamp.unwrap().1, big);
        u8::lemma_prefix(s, t, timestamp.unwrap().1, big);
        let points = seq_at::<FoxglovePoint2>(s, type_.unwrap().1, big);
        lemma_seq_prefix::<FoxglovePoint2>(s, t, type_.unwrap().1, big);
        let outline_color = FoxgloveColor::decoded(s, points.unwrap().1, big);
        FoxgloveColor::lemma_prefix(s, t, points.unwrap().1, big);
        let outline_colors = seq_at::<FoxgloveColor>(s, outline_color.unwrap().1, big);
        lemma_seq_prefix::<FoxgloveColor>(s, t, outline_color.unwrap().1, big);
        let fill_color = FoxgloveColor::decoded(s, outline_colors.unwrap().1, big);
        FoxgloveColor::lemma_prefix(s, t, outline_colors.unwrap().1, big);
        u64::lemma_prefix(s, t, fill_color.unwrap().1, big);
    }

    fn decode_at(buf: &[u8], at: usize, big: bool) -> (r: Result<(FoxglovePointAnnotations, usize), DecodeError>) {
        let (timestamp, at) = Time::decode_at(buf, at, big)?;
        let (type_, at) = u8::decode_at(buf, at, big)?;
        let (points, at) = decode_seq::<FoxglovePoint2>(buf, at, big)?;
        let (outline_color, at) = FoxgloveColor::decode_at(buf, at, big)?;
        let (outline_colors, at) = decode_seq::<FoxgloveColor>(buf, at, big)?;
        let (fill_color, at) = FoxgloveColor::decode_at(buf, at, big)?;
        let (thickness, at) = u64::decode_at(buf, at, big)?;
        Ok((FoxglovePointAnnotations { timestamp, type_, points, outline_color, outline_colors, fill_color, thickness }, at))
    }
}

/// Text drawn on an image.
#[derive(Debug, Clone, PartialEq, Eq)]
pub struct FoxgloveTextAnnotations {
    pub timestamp: Time,
    pub position: FoxglovePoint2,
    pub text: Vec<u8>,
    /// Bits of an `f64`.
    pub font_size: u64,
    pub text_color: FoxgloveColor,
    pub background_color: FoxgloveColor,
}

/// What a `FoxgloveTextAnnotations` holds, in the terms that contracts use.
pub struct FoxgloveTextAnnotationsModel {
    pub timestamp: Time,
    pub position: FoxglovePoint2,
    pub text: Seq<u8>,
    pub font_size: u64,
    pub text_color: FoxgloveColor,
    pub background_color: FoxgloveColor,
}

impl View for FoxgloveTextAnnotations {
    type V = FoxgloveTextAnnotationsModel;

    open spec fn view(&self) -> FoxgloveTextAnnotationsModel {
        FoxgloveTextAnnotationsModel {
            timestamp: self.timestamp,
            position: self.position,
            text: self.text@,
            font_size: self.font_size,
            text_color: self.text_color,
            background_color: self.background_color,
        }
    }
}

impl Decode for FoxgloveTextAnnotations {
    open spec fn decoded(s: Seq<u8>, at: nat, big: bool) -> Option<(FoxgloveTextAnnotationsModel, nat)> {
        let timestamp = Time::decoded(s, at, big);
        let position = FoxglovePoint2::decoded(s, timestamp.unwrap().1, big);
        let text = Vec::<u8>::decoded(s, position.unwrap().1, big);
        let font_size = u64::decoded(s, text.unwrap().1, big);
        let text_color = FoxgloveColor::decoded(s, font_size.unwrap().1, big);
        let background_color = FoxgloveColor::decoded(s, text_color.unwrap().1, big);
        if timestamp is Some && position is Some && text is Some && font_size is Some && text_color is Some && background_color is Some {
            Some((
                FoxgloveTextAnnotationsModel {
                    timestamp: timestamp.unwrap().0,
                    position: position.unwrap().0,
                    text: text.unwrap().0,
                    font_size: font_size.unwrap().0,
                    text_color: text_color.unwrap().0,
                    background_color: background_color.unwrap().0,
                },
                background_color.unwrap().1,
            ))
        } else {
            None
        }
    }

    open spec fn written(s: Seq<u8>, at: nat, v: FoxgloveTextAnnotationsModel, big: bool) -> bool {
        let timestamp_end = Time::written_end(at, v.timestamp);
        let position_end = FoxglovePoint2::written_end(timestamp_end, v.position);
        let text_end = Vec::<u8>::written_end(position_end, v.text);
        let font_size_end = u64::written_end(text_end, v.font_size);
        let text_color_end = FoxgloveColor::written_end(font_size_end, v.text_color);
        &&& Time::written(s, at, v.timestamp, big)
        &&& FoxglovePoint2::written(s, timestamp_end, v.position, big)
        &&& Vec::<u8>::written(s, position_end, v.text, big)
        &&& u64::written(s, text_end, v.font_size, big)
        &&& FoxgloveColor::written(s, font_size_end, v.text_color, big)
        &&& FoxgloveColor::written(s, text_color_end, v.background_color, big)
    }

    open spec fn written_end(at: nat, v: FoxgloveTextAnnotationsModel) -> nat {
        let timestamp_end = Time::written_end(at, v.timestamp);
        let position_end = FoxglovePoint2::written_end(timestamp_end, v.position);
        let text_end = Vec::<u8>::written_end(position_end, v.text);
        let font_size_end = u64::written_end(text_end, v.font_size);
        let text_color_end = FoxgloveColor::written_end(font_size_end, v.text_color);
        let background_color_end = FoxgloveColor::written_end(text_color_end, v.background_color);
        background_color_end
    }

    proof fn lemma_round_trip(s: Seq<u8>, at: nat, v: FoxgloveTextAnnotationsModel, big: bool) {
        let timestamp_end = Time::written_end(at, v.timestamp);
        Time::lemma_round_trip(s, at, v.timestamp, big);
        let position_end = FoxglovePoint2::written_end(timestamp_end, v.position);
        FoxglovePoint2::lemma_round_trip(s, timestamp_end, v.position, big);
        let text_end = Vec::<u8>::written_end(position_end, v.text);
        Vec::<u8>::lemma_round_trip(s, position_end, v.text, big);
        let font_size_end = u64::written_end(text_end, v.font_size);
        u64::lemma_round_trip(s, text_end, v.font_size, big);
        let text_color_end = FoxgloveColor::written_end(font_size_end, v.text_color);
        FoxgloveColor::lemma_round_trip(s, font_size_end, v.text_color, big);
        FoxgloveColor::lemma_round_trip(s, text_color_end, v.background_color, big);
    }

    proof fn lemma_prefix(s: Seq<u8>, t: Seq<u8>, at: nat, big: bool) {
        let timestamp = Time::decoded(s, at, big);
        Time::lemma_prefix(s, t, at, big);
        let position = FoxglovePoint2::decoded(s, timestamp.unwrap().1, big);
        FoxglovePoint2::lemma_prefix(s, t, timestamp.unwrap().1, big);
        let text = Vec::<u8>::decoded(s, position.unwrap().1, big);
        Vec::<u8>::lemma_prefix(s, t, position.unwrap().1, big);
        let font_size = u64::decoded(s, text.unwrap().1, big);
        u64::lemma_prefix(s, t, text.unwrap().1, big);
        let text_color = FoxgloveColor::decoded(s, font_size.unwrap().1, big);
        FoxgloveColor::lemma_prefix(s, t, font_size.unwrap().1, big);
        FoxgloveColor::lemma_prefix(s, t, text_color.unwrap().1, big);
    }

    fn decode_at(buf: &[u8], at: usize, big: bool) -> (r: Result<(FoxgloveTextAnnotations, usize), DecodeError>) {
        let (timestamp, at) = Time::decode_at(buf, at, big)?;
        let (position, at) = FoxglovePoint2::decode_at(buf, at, big)?;
        let (text, at) = Vec::<u8>::decode_at(buf, at, big)?;
        let (font_size, at) = u64::decode_at(buf, at, big)?;
        let (text_color, at) = FoxgloveColor::decode_at(buf, at, big)?;
        let (background_color, at) = FoxgloveColor::decode_at(buf, at, big)?;
        Ok((FoxgloveTextAnnotations { timestamp, position, text, font_size, text_color, background_color }, at))
    }
}

/// The circles, points and texts drawn on one image.
#[derive(Debug, Clone, PartialEq, Eq)]
pub struct FoxgloveImageAnnotations {
    pub circles: Vec<FoxgloveCircleAnnotations>,
    pub points: Vec<FoxglovePointAnnotations>,
    pub texts: Vec<FoxgloveTextAnnotations>,
}

/// What a `FoxgloveImageAnnotations` holds, in the terms that contracts use.
pub struct FoxgloveImageAnnotationsModel {
    pub circles: Seq<FoxgloveCircleAnnotations>,
    pub points: Seq<FoxglovePointAnnotationsModel>,
    pub texts: Seq<FoxgloveTextAnnotationsModel>,
}

impl View for FoxgloveImageAnnotations {
    type V = FoxgloveImageAnnotationsModel;

    open spec fn view(&self) -> FoxgloveImageAnnotationsModel {
        FoxgloveImageAnnotationsModel {
            circles: models(self.circles@),
            points: models(self.points@),
            texts: models(self.texts@),
        }
    }
}

impl Decode for FoxgloveImageAnnotations {
    open spec fn decoded(s: Seq<u8>, at: nat, big: bool) -> Option<(FoxgloveImageAnnotationsModel, nat)> {
        let circles = seq_at::<FoxgloveCircleAnnotations>(s, at, big);
        let points = seq_at::<FoxglovePointAnnotations>(s, circles.unwrap().1, big);
        let texts = seq_at::<FoxgloveTextAnnotations>(s, points.unwrap().1, big);
        if circles is Some && points is Some && texts is Some {
            Some((
                FoxgloveImageAnnotationsModel {
                    circles: circles.unwrap().0,
                    points: points.unwrap().0,
                    texts: texts.unwrap().0,
                },
                texts.unwrap().1,
            ))
        } else {
            None
        }
    }

    open spec fn written(s: Seq<u8>, at: nat, v: FoxgloveImageAnnotationsModel, big: bool) -> bool {
        let circles_end = seq_end::<FoxgloveCircleAnnotations>(at, v.circles);
        let points_end = seq_end::<FoxglovePointAnnotations>(circles_end, v.points);
        &&& seq_written::<FoxgloveCircleAnnotations>(s, at, v.circles, big)
        &&& seq_written::<FoxglovePointAnnotations>(s, circles_end, v.points, big)
        &&& seq_written::<FoxgloveTextAnnotations>(s, points_end, v.texts, big)
    }

    open spec fn written_end(at: nat, v: FoxgloveImageAnnotationsModel) -> nat {
        let circles_end = seq_end::<FoxgloveCircleAnnotations>(at, v.circles);
        let points_end = seq_end::<FoxglovePointAnnotations>(circles_end, v.points);
        let texts_end = seq_end::<FoxgloveTextAnnotations>(points_end, v.texts);
        texts_end
    }

    proof fn lemma_round_trip(s: Seq<u8>, at: nat, v: FoxgloveImageAnnotationsModel, big: bool) {
        let circles_end = seq_end::<FoxgloveCircleAnnotations>(at, v.circles);
        lemma_seq_round_trip::<FoxgloveCircleAnnotations>(s, at, v.circles, big);
        let points_end = seq_end::<FoxglovePointAnnotations>(circles_end, v.points);
        lemma_seq_round_trip::<FoxglovePointAnnotations>(s, circles_end, v.points, big);
        let texts_end = seq_end::<FoxgloveTextAnnotations>(points_end, v.texts);
        lemma_seq_round_trip::<FoxgloveTextAnnotations>(s, points_end, v.texts, big);
    }

    proof fn lemma_prefix(s: Seq<u8>, t: Seq<u8>, at: nat, big: bool) {
        let circles = seq_at::<FoxgloveCircleAnnotations>(s, at, big);
        lemma_seq_prefix::<FoxgloveCircleAnnotations>(s, t, at, big);
        let points = seq_at::<FoxglovePointAnnotations>(s, circles.unwrap().1, big);
        lemma_seq_prefix::<FoxglovePointAnnotations>(s, t, circles.unwrap().1, big);
        lemma_seq_prefix::<FoxgloveTextAnnotations>(s, t, points.unwrap().1, big);
    }

    fn decode_at(buf: &[u8], at: usize, big: bool) -> (r: Result<(FoxgloveImageAnnotations, usize), DecodeError>) {
        let (circles, at) = decode_seq::<FoxgloveCircleAnnotations>(buf, at, big)?;
        let (points, at) = decode_seq::<FoxglovePointAnnotations>(buf, at, big)?;
        let (texts, at) = decode_seq::<FoxgloveTextAnnotations>(buf, at, big)?;
        Ok((FoxgloveImageAnnotations { circles, points, texts }, at))
    }
}

/// The part of a camera image that a calibration covers.
#[derive(Debug, Clone, Copy, PartialEq, Eq)]
pub struct RegionOfInterest {
    pub x_offset: u32,
    pub y_offset: u32,
    pub height: u32,
    pub width: u32,
    pub do_rectify: bool,
}

impl View for RegionOfInterest {
    type V = RegionOfInterest;

    open spec fn view(&self) -> RegionOfInterest {
        *self
    }
}

impl Decode for RegionOfInterest {
    open spec fn decoded(s: Seq<u8>, at: nat, big: bool) -> Option<(RegionOfInterest, nat)> {
        let x_offset = u32::decoded(s, at, big);
        let y_offset = u32::decoded(s, x_offset.unwrap().1, big);
        let height = u32::decoded(s, y_offset.unwrap().1, big);
        let width = u32::decoded(s, height.unwrap().1, big);
        let do_rectify = bool::decoded(s, width.unwrap().1, big);
        if x_offset is Some && y_offset is Some && height is Some && width is Some && do_rectify is Some {
            Some((
                RegionOfInterest {
                    x_offset: x_offset.unwrap().0,
                    y_offset: y_offset.unwrap().0,
                    height: height.unwrap().0,
                    width: width.unwrap().0,
                    do_rectify: do_rectify.unwrap().0,
                },
                do_rectify.unwrap().1,
            ))
        } else {
            None
        }
    }

    open spec fn written(s: Seq<u8>, at: nat, v: RegionOfInterest, big: bool) -> bool {
        let x_offset_end = u32::written_end(at, v.x_offset);
        let y_offset_end = u32::written_end(x_offset_end, v.y_offset);
        let height_end = u32::written_end(y_offset_end, v.height);
        let width_end = u32::written_end(height_end, v.width);
        &&& u32::written(s, at, v.x_offset, big)
        &&& u32::written(s, x_offset_end, v.y_offset, big)
        &&& u32::written(s, y_offset_end, v.height, big)
        &&& u32::written(s, height_end, v.width, big)
        &&& bool::written(s, width_end, v.do_rectify, big)
    }

    open spec fn written_end(at: nat, v: RegionOfInterest) -> nat {
        let x_offset_end = u32::written_end(at, v.x_offset);
        let y_offset_end = u32::written_end(x_offset_end, v.y_offset);
        let height_end = u32::written_end(y_offset_end, v.height);
        let width_end = u32::written_end(height_end, v.width);
        let do_rectify_end = bool::written_end(width_end, v.do_rectify);
        do_rectify_end
    }

    proof fn lemma_round_trip(s: Seq<u8>, at: nat, v: RegionOfInterest, big: bool) {
        let x_offset_end = u32::written_end(at, v.x_offset);
        u32::lemma_round_trip(s, at, v.x_offset, big);
        let y_offset_end = u32::written_end(x_offset_end, v.y_offset);
        u32::lemma_round_trip(s, x_offset_end, v.y_offset, big);
        let height_end = u32::written_end(y_offset_end, v.height);
        u32::lemma_round_trip(s, y_offset_end, v.height, big);
        let width_end = u32::written_end(height_end, v.width);
        u32::lemma_round_trip(s, height_end, v.width, big);
        bool::lemma_round_trip(s, width_end, v.do_rectify, big);
    }

    proof fn lemma_prefix(s: Seq<u8>, t: Seq<u8>, at: nat, big: bool) {
        let x_offset = u32::decoded(s, at, big);
        u32::lemma_prefix(s, t, at, big);
        let y_offset = u32::decoded(s, x_offset.unwrap().1, big);
        u32::lemma_prefix(s, t, x_offset.unwrap().1, big);
        let height = u32::decoded(s, y_offset.unwrap().1, big);
        u32::lemma_prefix(s, t, y_offset.unwrap().1, big);
        let width = u32::decoded(s, height.unwrap().1, big);
        u32::lemma_prefix(s, t, height.unwrap().1, big);
        bool::lemma_prefix(s, t, width.unwrap().1, big);
    }

    fn decode_at(buf: &[u8], at: usize, big: bool) -> (r: Result<(RegionOfInterest, usize), DecodeError>) {
        let (x_offset, at) = u32::decode_at(buf, at, big)?;
        let (y_offset, at) = u32::decode_at(buf, at, big)?;
        let (height, at) = u32::decode_at(buf, at, big)?;
        let (width, at) = u32::decode_at(buf, at, big)?;
        let (do_rectify, at) = bool::decode_at(buf, at, big)?;
        Ok((RegionOfInterest { x_offset, y_offset, height, width, do_rectify }, at))
    }
}

/// Calibration of a camera. `d`, `k`, `r` and `p` hold the bits of `f64`s;
/// `k` and `r` are 3x3 and `p` 3x4 matrices, row by row, with no length on the wire.
#[derive(Debug, Clone, PartialEq, Eq)]
pub struct CameraInfo {
    pub header: Header,
    pub height: u32,
    pub width: u32,
    pub distortion_model: Vec<u8>,
    pub d: Vec<u64>,
    pub k: [u64; 9],
    pub r: [u64; 9],
    pub p: [u64; 12],
    pub binning_x: u32,
    pub binning_y: u32,
    pub roi: RegionOfInterest,
}

/// What a `CameraInfo` holds, in the terms that contracts use.
pub struct CameraInfoModel {
    pub header: HeaderModel,
    pub height: u32,
    pub width: u32,
    pub distortion_model: Seq<u8>,
    pub d: Seq<u64>,
    pub k: Seq<u64>,
    pub r: Seq<u64>,
    pub p: Seq<u64>,
    pub binning_x: u32,
    pub binning_y: u32,
    pub roi: RegionOfInterest,
}

impl View for CameraInfo {
    type V = CameraInfoModel;

    open spec fn view(&self) -> CameraInfoModel {
        CameraInfoModel {
            header: self.header@,
            height: self.height,
            width: self.width,
            distortion_model: self.distortion_model@,
            d: models(self.d@),
            k: self.k@,
            r: self.r@,
            p: self.p@,
            binning_x: self.binning_x,
            binning_y: self.binning_y,
            roi: self.roi,
        }
    }
}

impl Decode for CameraInfo {
    open spec fn decoded(s: Seq<u8>, at: nat, big: bool) -> Option<(CameraInfoModel, nat)> {
        let header = Header::decoded(s, at, big);
        let height = u32::decoded(s, header.unwrap().1, big);
        let width = u32::decoded(s, height.unwrap().1, big);
        let distortion_model = Vec::<u8>::decoded(s, width.unwrap().1, big);
        let d = seq_at::<u64>(s, distortion_model.unwrap().1, big);
        let k = items::<u64>(s, d.unwrap().1, 9, big);
        let r = items::<u64>(s, k.unwrap().1, 9, big);
        let p = items::<u64>(s, r.unwrap().1, 12, big);
        let binning_x = u32::decoded(s, p.unwrap().1, big);
        let binning_y = u32::decoded(s, binning_x.unwrap().1, big);
        let roi = RegionOfInterest::decoded(s, binning_y.unwrap().1, big);
        if header is Some && height is Some && width is Some && distortion_model is Some && d is Some && k is Some && r is Some && p is Some && binning_x is Some && binning_y is Some && roi is Some {
            Some((
                CameraInfoModel {
                    header: header.unwrap().0,
                    height: height.unwrap().0,
                    width: width.unwrap().0,
                    distortion_model: distortion_model.unwrap().0,
                    d: d.unwrap().0,
                    k: k.unwrap().0,
                    r: r.unwrap().0,
                    p: p.unwrap().0,
                    binning_x: binning_x.unwrap().0,
                    binning_y: binning_y.unwrap().0,
                    roi: roi.unwrap().0,
                },
                roi.unwrap().1,
            ))
        } else {
            None
        }
    }

    open spec fn written(s: Seq<u8>, at: nat, v: CameraInfoModel, big: bool) -> bool {
        let header_end = Header::written_end(at, v.header);
        let height_end = u32::written_end(header_end, v.height);
        let width_end = u32::written_end(height_end, v.width);
        let distortion_model_end = Vec::<u8>::written_end(width_end, v.distortion_model);
        let d_end = seq_end::<u64>(distortion_model_end, v.d);
        let k_end = items_end::<u64>(d_end, v.k);
        let r_end = items_end::<u64>(k_end, v.r);
        let p_end = items_end::<u64>(r_end, v.p);
        let binning_x_end = u32::written_end(p_end, v.binning_x);
        let binning_y_end = u32::written_end(binning_x_end, v.binning_y);
        &&& Header::written(s, at, v.header, big)
        &&& u32::written(s, header_end, v.height, big)
        &&& u32::written(s, height_end, v.width, big)
        &&& Vec::<u8>::written(s, width_end, v.distortion_model, big)
        &&& seq_written::<u64>(s, distortion_model_end, v.d, big)
        &&& items_written::<u64>(s, d_end, v.k, big) && v.k.len() == 9
        &&& items_written::<u64>(s, k_end, v.r, big) && v.r.len() == 9
        &&& items_written::<u64>(s, r_end, v.p, big) && v.p.len() == 12
        &&& u32::written(s, p_end, v.binning_x, big)
        &&& u32::written(s, binning_x_end, v.binning_y, big)
        &&& RegionOfInterest::written(s, binning_y_end, v.roi, big)
    }

    open spec fn written_end(at: nat, v: CameraInfoModel) -> nat {
        let header_end = Header::written_end(at, v.header);
        let height_end = u32::written_end(header_end, v.height);
        let width_end = u32::written_end(height_end, v.width);
        let distortion_model_end = Vec::<u8>::written_end(width_end, v.distortion_model);
        let d_end = seq_end::<u64>(distortion_model_end, v.d);
        let k_end = items_end::<u64>(d_end, v.k);
        let r_end = items_end::<u64>(k_end, v.r);
        let p_end = items_end::<u64>(r_end, v.p);
        let binning_x_end = u32::written_end(p_end, v.binning_x);
        let binning_y_end = u32::written_end(binning_x_end, v.binning_y);
        let roi_end = RegionOfInterest::written_end(binning_y_end, v.roi);
        roi_end
    }

    proof fn lemma_round_trip(s: Seq<u8>, at: nat, v: CameraInfoModel, big: bool) {
        let header_end = Header::written_end(at, v.header);
        Header::lemma_round_trip(s, at, v.header, big);
        let height_end = u32::written_end(header_end, v.height);
        u32::lemma_round_trip(s, header_end, v.height, big);
        let width_end = u32::written_end(height_end, v.width);
        u32::lemma_round_trip(s, height_end, v.width, big);
        let distortion_model_end = Vec::<u8>::written_end(width_end, v.distortion_model);
        Vec::<u8>::lemma_round_trip(s, width_end, v.distortion_model, big);
        let d_end = seq_end::<u64>(distortion_model_end, v.d);
        lemma_seq_round_trip::<u64>(s, distortion_model_end, v.d, big);
        let k_end = items_end::<u64>(d_end, v.k);
        lemma_items_round_trip::<u64>(s, d_end, v.k, big);
        let r_end = items_end::<u64>(k_end, v.r);
        lemma_items_round_trip::<u64>(s, k_end, v.r, big);
        let p_end = items_end::<u64>(r_end, v.p);
        lemma_items_round_trip::<u64>(s, r_end, v.p, big);
        let binning_x_end = u32::written_end(p_end, v.binning_x);
        u32::lemma_round_trip(s, p_end, v.binning_x, big);
        let binning_y_end = u32::written_end(binning_x_end, v.binning_y);
        u32::lemma_round_trip(s, binning_x_end, v.binning_y, big);
        RegionOfInterest::lemma_round_trip(s, binning_y_end, v.roi, big);
    }

    proof fn lemma_prefix(s: Seq<u8>, t: Seq<u8>, at: nat, big: bool) {
        let header = Header::decoded(s, at, big);
        Header::lemma_prefix(s, t, at, big);
        let height = u32::decoded(s, header.unwrap().1, big);
        u32::lemma_prefix(s, t, header.unwrap().1, big);
        let width = u32::decoded(s, height.unwrap().1, big);
        u32::lemma_prefix(s, t, height.unwrap().1, big);
        let distortion_model = Vec::<u8>::decoded(s, width.unwrap().1, big);
        Vec::<u8>::lemma_prefix(s, t, width.unwrap().1, big);
        let d = seq_at::<u64>(s, distortion_model.unwrap().1, big);
        lemma_seq_prefix::<u64>(s, t, distortion_model.unwrap().1, big);
        let k = items::<u64>(s, d.unwrap().1, 9, big);
        lemma_items_prefix::<u64>(s, t, d.unwrap().1, 9, big);
        let r = items::<u64>(s, k.unwrap().1, 9, big);
        lemma_items_prefix::<u64>(s, t, k.unwrap().1, 9, big);
        let p = items::<u64>(s, r.unwrap().1, 12, big);
        lemma_items_prefix::<u64>(s, t, r.unwrap().1, 12, big);
        let binning_x = u32::decoded(s, p.unwrap().1, big);
        u32::lemma_prefix(s, t, p.unwrap().1, big);
        let binning_y = u32::decoded(s, binning_x.unwrap().1, big);
        u32::lemma_prefix(s, t, binning_x.unwrap().1, big);
        RegionOfInterest::lemma_prefix(s, t, binning_y.unwrap().1, big);
    }

    fn decode_at(buf: &[u8], at: usize, big: bool) -> (r: Result<(CameraInfo, usize), DecodeError>) {
        let (header, at) = Header::decode_at(buf, at, big)?;
        let (height, at) = u32::decode_at(buf, at, big)?;
        let (width, at) = u32::decode_at(buf, at, big)?;
        let (distortion_model, at) = Vec::<u8>::decode_at(buf, at, big)?;
        let (d, at) = decode_seq::<u64>(buf, at, big)?;
        let (k, at) = decode_u64_array::<9>(buf, at, big)?;
        let (r, at) = decode_u64_array::<9>(buf, at, big)?;
        let (p, at) = decode_u64_array::<12>(buf, at, big)?;
        let (binning_x, at) = u32::decode_at(buf, at, big)?;
        let (binning_y, at) = u32::decode_at(buf, at, big)?;
        let (roi, at) = RegionOfInterest::decode_at(buf, at, big)?;
        Ok((CameraInfo { header, height, width, distortion_model, d, k, r, p, binning_x, binning_y, roi }, at))
    }
}

/// The track a detection belongs to.
#[derive(Debug, Clone, PartialEq, Eq)]
pub struct DetectTrack {
    pub id: Vec<u8>,
    pub lifetime: i32,
    pub created: Time,
}

/// What a `DetectTrack` holds, in the terms that contracts use.
pub struct DetectTrackModel {
    pub id: Seq<u8>,
    pub lifetime: i32,
    pub created: Time,
}

impl View for DetectTrack {
    type V = DetectTrackModel;

    open spec fn view(&self) -> DetectTrackModel {
        DetectTrackModel {
            id: self.id@,
            lifetime: self.lifetime,
            created: self.created,
        }
    }
}

impl Decode for DetectTrack {
    open spec fn decoded(s: Seq<u8>, at: nat, big: bool) -> Option<(DetectTrackModel, nat)> {
        let id = Vec::<u8>::decoded(s, at, big);
        let lifetime = i32::decoded(s, id.unwrap().1, big);
        let created = Time::decoded(s, lifetime.unwrap().1, big);
        if id is Some && lifetime is Some && created is Some {
            Some((
                DetectTrackModel {
                    id: id.unwrap().0,
                    lifetime: lifetime.unwrap().0,
                    created: created.unwrap().0,
                },
                created.unwrap().1,
            ))
        } else {
            None
        }
    }

    open spec fn written(s: Seq<u8>, at: nat, v: DetectTrackModel, big: bool) -> bool {
        let id_end = Vec::<u8>::written_end(at, v.id);
        let lifetime_end = i32::written_end(id_end, v.lifetime);
        &&& Vec::<u8>::written(s, at, v.id, big)
        &&& i32::written(s, id_end, v.lifetime, big)
        &&& Time::written(s, lifetime_end, v.created, big)
    }

    open spec fn written_end(at: nat, v: DetectTrackModel) -> nat {
        let id_end = Vec::<u8>::written_end(at, v.id);
        let lifetime_end = i32::written_end(id_end, v.lifetime);
        let created_end = Time::written_end(lifetime_end, v.created);
        created_end
    }

    proof fn lemma_round_trip(s: Seq<u8>, at: nat, v: DetectTrackModel, big: bool) {
        let id_end = Vec::<u8>::written_end(at, v.id);
        Vec::<u8>::lemma_round_trip(s, at, v.id, big);
        let lifetime_end = i32::written_end(id_end, v.lifetime);
        i32::lemma_round_trip(s, id_end, v.lifetime, big);
        Time::lemma_round_trip(s, lifetime_end, v.created, big);
    }

    proof fn lemma_prefix(s: Seq<u8>, t: Seq<u8>, at: nat, big: bool) {
        let id = Vec::<u8>::decoded(s, at, big);
        Vec::<u8>::lemma_prefix(s, t, at, big);
        let lifetime = i32::decoded(s, id.unwrap().1, big);
        i32::lemma_prefix(s, t, id.unwrap().1, big);
        Time::lemma_prefix(s, t, lifetime.unwrap().1, big);
    }

    fn decode_at(buf: &[u8], at: usize, big: bool) -> (r: Result<(DetectTrack, usize), DecodeError>) {
        let (id, at) = Vec::<u8>::decode_at(buf, at, big)?;
        let (lifetime, at) = i32::decode_at(buf, at, big)?;
        let (created, at) = Time::decode_at(buf, at, big)?;
        Ok((DetectTrack { id, lifetime, created }, at))
    }
}

/// A detection box. The geometry and scores hold the bits of `f32`s.
#[derive(Debug, Clone, PartialEq, Eq)]
pub struct DetectBox2D {
    pub center_x: u32,
    pub center_y: u32,
    pub width: u32,
    pub height: u32,
    pub label: Vec<u8>,
    pub score: u32,
    pub distance: u32,
    pub speed: u32,
    pub track: DetectTrack,
}

/// What a `DetectBox2D` holds, in the terms that contracts use.
pub struct DetectBox2DModel {
    pub center_x: u32,
    pub center_y: u32,
    pub width: u32,
    pub height: u32,
    pub label: Seq<u8>,
    pub score: u32,
    pub distance: u32,
    pub speed: u32,
    pub track: DetectTrackModel,
}

impl View for DetectBox2D {
    type V = DetectBox2DModel;

    open spec fn view(&self) -> DetectBox2DModel {
        DetectBox2DModel {
            center_x: self.center_x,
            center_y: self.center_y,
            width: self.width,
            height: self.height,
            label: self.label@,
            score: self.score,
            distance: self.distance,
            speed: self.speed,
            track: self.track@,
        }
    }
}

impl Decode for DetectBox2D {
    open spec fn decoded(s: Seq<u8>, at: nat, big: bool) -> Option<(DetectBox2DModel, nat)> {
        let center_x = u32::decoded(s, at, big);
        let center_y = u32::decoded(s, center_x.unwrap().1, big);
        let width = u32::decoded(s, center_y.unwrap().1, big);
        let height = u32::decoded(s, width.unwrap().1, big);
        let label = Vec::<u8>::decoded(s, height.unwrap().1, big);
        let score = u32::decoded(s, label.unwrap().1, big);
        let distance = u32::decoded(s, score.unwrap().1, big);
        let speed = u32::decoded(s, distance.unwrap().1, big);
        let track = DetectTrack::decoded(s, speed.unwrap().1, big);
        if center_x is Some && center_y is Some && width is Some && height is Some && label is Some && score is Some && distance is Some && speed is Some && track is Some {
            Some((
                DetectBox2DModel {
                    center_x: center_x.unwrap().0,
                    center_y: center_y.unwrap().0,
                    width: width.unwrap().0,
                    height: height.unwrap().0,
                    label: label.unwrap().0,
                    score: score.unwrap().0,
                    distance: distance.unwrap().0,
                    speed: speed.unwrap().0,
                    track: track.unwrap().0,
                },
                track.unwrap().1,
            ))
        } else {
            None
        }
    }

    open spec fn written(s: Seq<u8>, at: nat, v: DetectBox2DModel, big: bool) -> bool {
        let center_x_end = u32::written_end(at, v.center_x);
        let center_y_end = u32::written_end(center_x_end, v.center_y);
        let width_end = u32::written_end(center_y_end, v.width);
        let height_end = u32::written_end(width_end, v.height);
        let label_end = Vec::<u8>::written_end(height_end, v.label);
        let score_end = u32::written_end(label_end, v.score);
        let distance_end = u32::written_end(score_end, v.distance);
        let speed_end = u32::written_end(distance_end, v.speed);
        &&& u32::written(s, at, v.center_x, big)
        &&& u32::written(s, center_x_end, v.center_y, big)
        &&& u32::written(s, center_y_end, v.width, big)
        &&& u32::written(s, width_end, v.height, big)
        &&& Vec::<u8>::written(s, height_end, v.label, big)
        &&& u32::written(s, label_end, v.score, big)
        &&& u32::written(s, score_end, v.distance, big)
        &&& u32::written(s, distance_end, v.speed, big)
        &&& DetectTrack::written(s, speed_end, v.track, big)
    }

    open spec fn written_end(at: nat, v: DetectBox2DModel) -> nat {
        let center_x_end = u32::written_end(at, v.center_x);
        let center_y_end = u32::written_end(center_x_end, v.center_y);
        let width_end = u32::written_end(center_y_end, v.width);
        let height_end = u32::written_end(width_end, v.height);
        let label_end = Vec::<u8>::written_end(height_end, v.label);
        let score_end = u32::written_end(label_end, v.score);
        let distance_end = u32::written_end(score_end, v.distance);
        let speed_end = u32::written_end(distance_end, v.speed);
        let track_end = DetectTrack::written_end(speed_end, v.track);
        track_end
    }

    proof fn lemma_round_trip(s: Seq<u8>, at: nat, v: DetectBox2DModel, big: bool) {
        let center_x_end = u32::written_end(at, v.center_x);
        u32::lemma_round_trip(s, at, v.center_x, big);
        let center_y_end = u32::written_end(center_x_end, v.center_y);
        u32::lemma_round_trip(s, center_x_end, v.center_y, big);
        let width_end = u32::written_end(center_y_end, v.width);
        u32::lemma_round_trip(s, center_y_end, v.width, big);
        let height_end = u32::written_end(width_end, v.height);
        u32::lemma_round_trip(s, width_end, v.height, big);
        let label_end = Vec::<u8>::written_end(height_end, v.label);
        Vec::<u8>::lemma_round_trip(s, height_end, v.label, big);
        let score_end = u32::written_end(label_end, v.score);
        u32::lemma_round_trip(s, label_end, v.score, big);
        let distance_end = u32::written_end(score_end, v.distance);
        u32::lemma_round_trip(s, score_end, v.distance, big);
        let speed_end = u32::written_end(distance_end, v.speed);
        u32::lemma_round_trip(s, distance_end, v.speed, big);
        DetectTrack::lemma_round_trip(s, speed_end, v.track, big);
    }

    proof fn lemma_prefix(s: Seq<u8>, t: Seq<u8>, at: nat, big: bool) {
        let center_x = u32::decoded(s, at, big);
        u32::lemma_prefix(s, t, at, big);
        let center_y = u32::decoded(s, center_x.unwrap().1, big);
        u32::lemma_prefix(s, t, center_x.unwrap().1, big);
        let width = u32::decoded(s, center_y.unwrap().1, big);
        u32::lemma_prefix(s, t, center_y.unwrap().1, big);
        let height = u32::decoded(s, width.unwrap().1, big);
        u32::lemma_prefix(s, t, width.unwrap().1, big);
        let label = Vec::<u8>::decoded(s, height.unwrap().1, big);
        Vec::<u8>::lemma_prefix(s, t, height.unwrap().1, big);
        let score = u32::decoded(s, label.unwrap().1, big);
        u32::lemma_prefix(s, t, label.unwrap().1, big);
        let distance = u32::decoded(s, score.unwrap().1, big);
        u32::lemma_prefix(s, t, score.unwrap().1, big);
        let speed = u32::decoded(s, distance.unwrap().1, big);
        u32::lemma_prefix(s, t, distance.unwrap().1, big);
        DetectTrack::lemma_prefix(s, t, speed.unwrap().1, big);
    }

    fn decode_at(buf: &[u8], at: usize, big: bool) -> (r: Result<(DetectBox2D, usize), DecodeError>) {
        let (center_x, at) = u32::decode_at(buf, at, big)?;
        let (center_y, at) = u32::decode_at(buf, at, big)?;
        let (width, at) = u32::decode_at(buf, at, big)?;
        let (height, at) = u32::decode_at(buf, at, big)?;
        let (label, at) = Vec::<u8>::decode_at(buf, at, big)?;
        let (score, at) = u32::decode_at(buf, at, big)?;
        let (distance, at) = u32::decode_at(buf, at, big)?;
        let (speed, at) = u32::decode_at(buf, at, big)?;
        let (track, at) = DetectTrack::decode_at(buf, at, big)?;
        Ok((DetectBox2D { center_x, center_y, width, height, label, score, distance, speed, track }, at))
    }
}

/// The boxes a detection model found, with the times of its stages.
#[derive(Debug, Clone, PartialEq, Eq)]
pub struct Detect {
    pub header: Header,
    pub input_timestamp: Time,
    pub model_time: Time,
    pub output_time: Time,
    pub boxes: Vec<DetectBox2D>,
}

/// What a `Detect` holds, in the terms that contracts use.
pub struct DetectModel {
    pub header: HeaderModel,
    pub input_timestamp: Time,
    pub model_time: Time,
    pub output_time: Time,
    pub boxes: Seq<DetectBox2DModel>,
}

impl View for Detect {
    type V = DetectModel;

    open spec fn view(&self) -> DetectModel {
        DetectModel {
            header: self.header@,
            input_timestamp: self.input_timestamp,
            model_time: self.model_time,
            output_time: self.output_time,
            boxes: models(self.boxes@),
        }
    }
}

impl Decode for Detect {
    open spec fn decoded(s: Seq<u8>, at: nat, big: bool) -> Option<(DetectModel, nat)> {
        let header = Header::decoded(s, at, big);
        let input_timestamp = Time::decoded(s, header.unwrap().1, big);
        let model_time = Time::decoded(s, input_timestamp.unwrap().1, big);
        let output_time = Time::decoded(s, model_time.unwrap().1, big);
        let boxes = seq_at::<DetectBox2D>(s, output_time.unwrap().1, big);
        if header is Some && input_timestamp is Some && model_time is Some && output_time is Some && boxes is Some {
            Some((
                DetectModel {
                    header: header.unwrap().0,
                    input_timestamp: input_timestamp.unwrap().0,
                    model_time: model_time.unwrap().0,
                    output_time: output_time.unwrap().0,
                    boxes: boxes.unwrap().0,
                },
                boxes.unwrap().1,
            ))
        } else {
            None
        }
    }

    open spec fn written(s: Seq<u8>, at: nat, v: DetectModel, big: bool) -> bool {
        let header_end = Header::written_end(at, v.header);
        let input_timestamp_end = Time::written_end(header_end, v.input_timestamp);
        let model_time_end = Time::written_end(input_timestamp_end, v.model_time);
        let output_time_end = Time::written_end(model_time_end, v.output_time);
        &&& Header::written(s, at, v.header, big)
        &&& Time::written(s, header_end, v.input_timestamp, big)
        &&& Time::written(s, input_timestamp_end, v.model_time, big)
        &&& Time::written(s, model_time_end, v.output_time, big)
        &&& seq_written::<DetectBox2D>(s, output_time_end, v.boxes, big)
    }

    open spec fn written_end(at: nat, v: DetectModel) -> nat {
        let header_end = Header::written_end(at, v.header);
        let input_timestamp_end = Time::written_end(header_end, v.input_timestamp);
        let model_time_end = Time::written_end(input_timestamp_end, v.model_time);
        let output_time_end = Time::written_end(model_time_end, v.output_time);
        let boxes_end = seq_end::<DetectBox2D>(output_time_end, v.boxes);
        boxes_end
    }

    proof fn lemma_round_trip(s: Seq<u8>, at: nat, v: DetectModel, big: bool) {
        let header_end = Header::written_end(at, v.header);
        Header::lemma_round_trip(s, at, v.header, big);
        let input_timestamp_end = Time::written_end(header_end, v.input_timestamp);
        Time::lemma_round_trip(s, header_end, v.input_timestamp, big);
        let model_time_end = Time::written_end(input_timestamp_end, v.model_time);
        Time::lemma_round_trip(s, input_timestamp_end, v.model_time, big);
        let output_time_end = Time::written_end(model_time_end, v.output_time);
        Time::lemma_round_trip(s, model_time_end, v.output_time, big);
        let boxes_end = seq_end::<DetectBox2D>(output_time_end, v.boxes);
        lemma_seq_round_trip::<DetectBox2D>(s, output_time_end, v.boxes, big);
    }

    proof fn lemma_prefix(s: Seq<u8>, t: Seq<u8>, at: nat, big: bool) {
        let header = Header::decoded(s, at, big);
        Header::lemma_prefix(s, t, at, big);
        let input_timestamp = Time::decoded(s, header.unwrap().1, big);
        Time::lemma_prefix(s, t, header.unwrap().1, big);
        let model_time = Time::decoded(s, input_timestamp.unwrap().1, big);
        Time::lemma_prefix(s, t, input_timestamp.unwrap().1, big);
        let output_time = Time::decoded(s, model_time.unwrap().1, big);
        Time::lemma_prefix(s, t, model_time.unwrap().1, big);
        lemma_seq_prefix::<DetectBox2D>(s, t, output_time.unwrap().1, big);
    }

    fn decode_at(buf: &[u8], at: usize, big: bool) -> (r: Result<(Detect, usize), DecodeError>) {
        let (header, at) = Header::decode_at(buf, at, big)?;
        let (input_timestamp, at) = Time::decode_at(buf, at, big)?;
        let (model_time, at) = Time::decode_at(buf, at, big)?;
        let (output_time, at) = Time::decode_at(buf, at, big)?;
        let (boxes, at) = decode_seq::<DetectBox2D>(buf, at, big)?;
        Ok((Detect { header, input_timestamp, model_time, output_time, boxes }, at))
    }
}

/// What a model takes and gives: shapes and element type codes, labels, and its names.
#[derive(Debug, Clone, PartialEq, Eq)]
pub struct ModelInfo {
    pub header: Header,
    pub input_shape: Vec<u32>,
    pub input_type: u8,
    pub output_shape: Vec<u32>,
    pub output_type: u8,
    pub labels: Vec<Vec<u8>>,
    pub model_type: Vec<u8>,
    pub model_format: Vec<u8>,
    pub model_name: Vec<u8>,
}

/// What a `ModelInfo` holds, in the terms that contracts use.
pub struct ModelInfoModel {
    pub header: HeaderModel,
    pub input_shape: Seq<u32>,
    pub input_type: u8,
    pub output_shape: Seq<u32>,
    pub output_type: u8,
    pub labels: Seq<Seq<u8>>,
    pub model_type: Seq<u8>,
    pub model_format: Seq<u8>,
    pub model_name: Seq<u8>,
}

impl View for ModelInfo {
    type V = ModelInfoModel;

    open spec fn view(&self) -> ModelInfoModel {
        ModelInfoModel {
            header: self.header@,
            input_shape: models(self.input_shape@),
            input_type: self.input_type,
            output_shape: models(self.output_shape@),
            output_type: self.output_type,
            labels: models(self.labels@),
            model_type: self.model_type@,
            model_format: self.model_format@,
            model_name: self.model_name@,
        }
    }
}

impl Decode for ModelInfo {
    open spec fn decoded(s: Seq<u8>, at: nat, big: bool) -> Option<(ModelInfoModel, nat)> {
        let header = Header::decoded(s, at, big);
        let input_shape = seq_at::<u32>(s, header.unwrap().1, big);
        let input_type = u8::decoded(s, input_shape.unwrap().1, big);
        let output_shape = seq_at::<u32>(s, input_type.unwrap().1, big);
        let output_type = u8::decoded(s, output_shape.unwrap().1, big);
        let labels = seq_at::<Vec<u8>>(s, output_type.unwrap().1, big);
        let model_type = Vec::<u8>::decoded(s, labels.unwrap().1, big);
        let model_format = Vec::<u8>::decoded(s, model_type.unwrap().1, big);
        let model_name = Vec::<u8>::decoded(s, model_format.unwrap().1, big);
        if header is Some && input_shape is Some && input_type is Some && output_shape is Some && output_type is Some && labels is Some && model_type is Some && model_format is Some && model_name is Some {
            Some((
                ModelInfoModel {
                    header: header.unwrap().0,
                    input_shape: input_shape.unwrap().0,
                    input_type: input_type.unwrap().0,
                    output_shape: output_shape.unwrap().0,
                    output_type: output_type.unwrap().0,
                    labels: labels.unwrap().0,
                    model_type: model_type.unwrap().0,
                    model_format: model_format.unwrap().0,
                    model_name: model_name.unwrap().0,
                },
                model_name.unwrap().1,
            ))
        } else {
            None
        }
    }

    open spec fn written(s: Seq<u8>, at: nat, v: ModelInfoModel, big: bool) -> bool {
        let header_end = Header::written_end(at, v.header);
        let input_shape_end = seq_end::<u32>(header_end, v.input_shape);
        let input_type_end = u8::written_end(input_shape_end, v.input_type);
        let output_shape_end = seq_end::<u32>(input_type_end, v.output_shape);
        let output_type_end = u8::written_end(output_shape_end, v.output_type);
        let labels_end = seq_end::<Vec<u8>>(output_type_end, v.labels);
        let model_type_end = Vec::<u8>::written_end(labels_end, v.model_type);
        let model_format_end = Vec::<u8>::written_end(model_type_end, v.model_format);
        &&& Header::written(s, at, v.header, big)
        &&& seq_written::<u32>(s, header_end, v.input_shape, big)
        &&& u8::written(s, input_shape_end, v.input_type, big)
        &&& seq_written::<u32>(s, input_type_end, v.output_shape, big)
        &&& u8::written(s, output_shape_end, v.output_type, big)
        &&& seq_written::<Vec<u8>>(s, output_type_end, v.labels, big)
        &&& Vec::<u8>::written(s, labels_end, v.model_type, big)
        &&& Vec::<u8>::written(s, model_type_end, v.model_format, big)
        &&& Vec::<u8>::written(s, model_format_end, v.model_name, big)
    }

    open spec fn written_end(at: nat, v: ModelInfoModel) -> nat {
        let header_end = Header::written_end(at, v.header);
        let input_shape_end = seq_end::<u32>(header_end, v.input_shape);
        let input_type_end = u8::written_end(input_shape_end, v.input_type);
        let output_shape_end = seq_end::<u32>(input_type_end, v.output_shape);
        let output_type_end = u8::written_end(output_shape_end, v.output_type);
        let labels_end = seq_end::<Vec<u8>>(output_type_end, v.labels);
        let model_type_end = Vec::<u8>::written_end(labels_end, v.model_type);
        let model_format_end = Vec::<u8>::written_end(model_type_end, v.model_format);
        let model_name_end = Vec::<u8>::written_end(model_format_end, v.model_name);
        model_name_end
    }

    proof fn lemma_round_trip(s: Seq<u8>, at: nat, v: ModelInfoModel, big: bool) {
        let header_end = Header::written_end(at, v.header);
        Header::lemma_round_trip(s, at, v.header, big);
        let input_shape_end = seq_end::<u32>(header_end, v.input_shape);
        lemma_seq_round_trip::<u32>(s, header_end, v.input_shape, big);
        let input_type_end = u8::written_end(input_shape_end, v.input_type);
        u8::lemma_round_trip(s, input_shape_end, v.input_type, big);
        let output_shape_end = seq_end::<u32>(input_type_end, v.output_shape);
        lemma_seq_round_trip::<u32>(s, input_type_end, v.output_shape, big);
        let output_type_end = u8::written_end(output_shape_end, v.output_type);
        u8::lemma_round_trip(s, output_shape_end, v.output_type, big);
        let labels_end = seq_end::<Vec<u8>>(output_type_end, v.labels);
        lemma_seq_round_trip::<Vec<u8>>(s, output_type_end, v.labels, big);
        let model_type_end = Vec::<u8>::written_end(labels_end, v.model_type);
        Vec::<u8>::lemma_round_trip(s, labels_end, v.model_type, big);
        let model_format_end = Vec::<u8>::written_end(model_type_end, v.model_format);
        Vec::<u8>::lemma_round_trip(s, model_type_end, v.model_format, big);
        Vec::<u8>::lemma_round_trip(s, model_format_end, v.model_name, big);
    }

    proof fn lemma_prefix(s: Seq<u8>, t: Seq<u8>, at: nat, big: bool) {
        let header = Header::decoded(s, at, big);
        Header::lemma_prefix(s, t, at, big);
        let input_shape = seq_at::<u32>(s, header.unwrap().1, big);
        lemma_seq_prefix::<u32>(s, t, header.unwrap().1, big);
        let input_type = u8::decoded(s, input_shape.unwrap().1, big);
        u8::lemma_prefix(s, t, input_shape.unwrap().1, big);
        let output_shape = seq_at::<u32>(s, input_type.unwrap().1, big);
        lemma_seq_prefix::<u32>(s, t, input_type.unwrap().1, big);
        let output_type = u8::decoded(s, output_shape.unwrap().1, big);
        u8::lemma_prefix(s, t, output_shape.unwrap().1, big);
        let labels = seq_at::<Vec<u8>>(s, output_type.unwrap().1, big);
        lemma_seq_prefix::<Vec<u8>>(s, t, output_type.unwrap().1, big);
        let model_type = Vec::<u8>::decoded(s, labels.unwrap().1, big);
        Vec::<u8>::lemma_prefix(s, t, labels.unwrap().1, big);
        let model_format = Vec::<u8>::decoded(s, model_type.unwrap().1, big);
        Vec::<u8>::lemma_prefix(s, t, model_type.unwrap().1, big);
        Vec::<u8>::lemma_prefix(s, t, model_format.unwrap().1, big);
    }

    fn decode_at(buf: &[u8], at: usize, big: bool) -> (r: Result<(ModelInfo, usize), DecodeError>) {
        let (header, at) = Header::decode_at(buf, at, big)?;
        let (input_shape, at) = decode_seq::<u32>(buf, at, big)?;
        let (input_type, at) = u8::decode_at(buf, at, big)?;
        let (output_shape, at) = decode_seq::<u32>(buf, at, big)?;
        let (output_type, at) = u8::decode_at(buf, at, big)?;
        let (labels, at) = decode_seq::<Vec<u8>>(buf, at, big)?;
        let (model_type, at) = Vec::<u8>::decode_at(buf, at, big)?;
        let (model_format, at) = Vec::<u8>::decode_at(buf, at, big)?;
        let (model_name, at) = Vec::<u8>::decode_at(buf, at, big)?;
        Ok((ModelInfo { header, input_shape, input_type, output_shape, output_type, labels, model_type, model_format, model_name }, at))
    }
}

/// A radar cube. `layout` names each dimension, `shape` gives its size and
/// `scales` (bits of `f32`s) its unit. When `is_complex` holds, `cube` pairs
/// real and imaginary parts.
#[derive(Debug, Clone, PartialEq, Eq)]
pub struct RadarCube {
    pub header: Header,
    /// The time the radar module stamped on the cube.
    pub timestamp: u64,
    pub layout: Vec<u8>,
    pub shape: Vec<u16>,
    pub scales: Vec<u32>,
    pub cube: Vec<i16>,
    pub is_complex: bool,
}

/// What a `RadarCube` holds, in the terms that contracts use.
pub struct RadarCubeModel {
    pub header: HeaderModel,
    pub timestamp: u64,
    pub layout: Seq<u8>,
    pub shape: Seq<u16>,
    pub scales: Seq<u32>,
    pub cube: Seq<i16>,
    pub is_complex: bool,
}

impl View for RadarCube {
    type V = RadarCubeModel;

    open spec fn view(&self) -> RadarCubeModel {
        RadarCubeModel {
            header: self.header@,
            timestamp: self.timestamp,
            layout: self.layout@,
            shape: models(self.shape@),
            scales: models(self.scales@),
            cube: models(self.cube@),
            is_complex: self.is_complex,
        }
    }
}

impl Decode for RadarCube {
    open spec fn decoded(s: Seq<u8>, at: nat, big: bool) -> Option<(RadarCubeModel, nat)> {
        let header = Header::decoded(s, at, big);
        let timestamp = u64::decoded(s, header.unwrap().1, big);
        let layout = byte_run_at(s, timestamp.unwrap().1, big);
        let shape = seq_at::<u16>(s, layout.unwrap().1, big);
        let scales = seq_at::<u32>(s, shape.unwrap().1, big);
        let cube = seq_at::<i16>(s, scales.unwrap().1, big);
        let is_complex = bool::decoded(s, cube.unwrap().1, big);
        if header is Some && timestamp is Some && layout is Some && shape is Some && scales is Some && cube is Some && is_complex is Some {
            Some((
                RadarCubeModel {
                    header: header.unwrap().0,
                    timestamp: timestamp.unwrap().0,
                    layout: layout.unwrap().0,
                    shape: shape.unwrap().0,
                    scales: scales.unwrap().0,
                    cube: cube.unwrap().0,
                    is_complex: is_complex.unwrap().0,
                },
                is_complex.unwrap().1,
            ))
        } else {
            None
        }
    }

    open spec fn written(s: Seq<u8>, at: nat, v: RadarCubeModel, big: bool) -> bool {
        let header_end = Header::written_end(at, v.header);
        let timestamp_end = u64::written_end(header_end, v.timestamp);
        let layout_end = run_end(timestamp_end, v.layout);
        let shape_end = seq_end::<u16>(layout_end, v.shape);
        let scales_end = seq_end::<u32>(shape_end, v.scales);
        let cube_end = seq_end::<i16>(scales_end, v.cube);
        &&& Header::written(s, at, v.header, big)
        &&& u64::written(s, header_end, v.timestamp, big)
        &&& run_written(s, timestamp_end, v.layout, big)
        &&& seq_written::<u16>(s, layout_end, v.shape, big)
        &&& seq_written::<u32>(s, shape_end, v.scales, big)
        &&& seq_written::<i16>(s, scales_end, v.cube, big)
        &&& bool::written(s, cube_end, v.is_complex, big)
    }

    open spec fn written_end(at: nat, v: RadarCubeModel) -> nat {
        let header_end = Header::written_end(at, v.header);
        let timestamp_end = u64::written_end(header_end, v.timestamp);
        let layout_end = run_end(timestamp_end, v.layout);
        let shape_end = seq_end::<u16>(layout_end, v.shape);
        let scales_end = seq_end::<u32>(shape_end, v.scales);
        let cube_end = seq_end::<i16>(scales_end, v.cube);
        let is_complex_end = bool::written_end(cube_end, v.is_complex);
        is_complex_end
    }

    proof fn lemma_round_trip(s: Seq<u8>, at: nat, v: RadarCubeModel, big: bool) {
        let header_end = Header::written_end(at, v.header);
        Header::lemma_round_trip(s, at, v.header, big);
        let timestamp_end = u64::written_end(header_end, v.timestamp);
        u64::lemma_round_trip(s, header_end, v.timestamp, big);
        let layout_end = run_end(timestamp_end, v.layout);
        lemma_run_round_trip(s, timestamp_end, v.layout, big);
        let shape_end = seq_end::<u16>(layout_end, v.shape);
        lemma_seq_round_trip::<u16>(s, layout_end, v.shape, big);
        let scales_end = seq_end::<u32>(shape_end, v.scales);
        lemma_seq_round_trip::<u32>(s, shape_end, v.scales, big);
        let cube_end = seq_end::<i16>(scales_end, v.cube);
        lemma_seq_round_trip::<i16>(s, scales_end, v.cube, big);
        bool::lemma_round_trip(s, cube_end, v.is_complex, big);
    }

    proof fn lemma_prefix(s: Seq<u8>, t: Seq<u8>, at: nat, big: bool) {
        let header = Header::decoded(s, at, big);
        Header::lemma_prefix(s, t, at, big);
        let timestamp = u64::decoded(s, header.unwrap().1, big);
        u64::lemma_prefix(s, t, header.unwrap().1, big);
        let layout = byte_run_at(s, timestamp.unwrap().1, big);
        lemma_byte_run_prefix(s, t, timestamp.unwrap().1, big);
        let shape = seq_at::<u16>(s, layout.unwrap().1, big);
        lemma_seq_prefix::<u16>(s, t, layout.unwrap().1, big);
        let scales = seq_at::<u32>(s, shape.unwrap().1, big);
        lemma_seq_prefix::<u32>(s, t, shape.unwrap().1, big);
        let cube = seq_at::<i16>(s, scales.unwrap().1, big);
        lemma_seq_prefix::<i16>(s, t, scales.unwrap().1, big);
        bool::lemma_prefix(s, t, cube.unwrap().1, big);
    }

    fn decode_at(buf: &[u8], at: usize, big: bool) -> (r: Result<(RadarCube, usize), DecodeError>) {
        let (header, at) = Header::decode_at(buf, at, big)?;
        let (timestamp, at) = u64::decode_at(buf, at, big)?;
        let (layout, at) = read_byte_run(buf, at, big)?;
        let (shape, at) = decode_seq::<u16>(buf, at, big)?;
        let (scales, at) = decode_seq::<u32>(buf, at, big)?;
        let (cube, at) = decode_seq::<i16>(buf, at, big)?;
        let (is_complex, at) = bool::decode_at(buf, at, big)?;
        Ok((RadarCube { header, timestamp, layout, shape, scales, cube, is_complex }, at))
    }
}


} // verus!
