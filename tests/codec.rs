use bus_bridge::codec::{
    cdr_body, decode_message, deserialize_camera_info, deserialize_compressed_image, deserialize_detect, deserialize_dmabuf,
    deserialize_image_annotations, deserialize_model_info, deserialize_pointcloud2, deserialize_radar_cube,
};
use bus_bridge::messages::{Header, Time};
use bus_bridge::wire::DecodeError;

fn strip(enc: Vec<u8>) -> Vec<u8> {
    // cdr puts a four-byte encapsulation header before the body
    enc[4..].to_vec()
}

#[test]
fn compressed_image_round_trip() {
    let value = ((7i32, 9u32), "cam0".to_string(), "jpeg".to_string(), vec![1u8, 2, 3, 255]);
    let buf = strip(cdr::serialize::<_, _, cdr::CdrLe>(&value, cdr::Infinite).unwrap());
    let img = deserialize_compressed_image(&buf, false).unwrap();
    assert_eq!(img.header.stamp, Time { sec: 7, nanosec: 9 });
    assert_eq!(img.header.frame_id, b"cam0".to_vec());
    assert_eq!(img.format, b"jpeg".to_vec());
    assert_eq!(img.data, vec![1u8, 2, 3, 255]);
}

#[test]
fn compressed_image_empty_fields_round_trip() {
    let value = ((-1i32, 0u32), String::new(), String::new(), Vec::<u8>::new());
    let buf = strip(cdr::serialize::<_, _, cdr::CdrLe>(&value, cdr::Infinite).unwrap());
    let img = deserialize_compressed_image(&buf, false).unwrap();
    assert_eq!(img.header.stamp.sec, -1);
    assert!(img.header.frame_id.is_empty());
    assert!(img.format.is_empty());
    assert!(img.data.is_empty());
}

#[test]
fn pointcloud2_round_trip() {
    let fields = vec![("x".to_string(), 0u32, 7u8, 1u32), ("intensity".to_string(), 12u32, 2u8, 1u32)];
    let value = ((1i32, 2u32), "lidar".to_string(), 1u32, 640u32, fields, false, 16u32, 10240u32, vec![9u8; 5], true);
    let buf = strip(cdr::serialize::<_, _, cdr::CdrLe>(&value, cdr::Infinite).unwrap());
    let pc = deserialize_pointcloud2(&buf, false).unwrap();
    assert_eq!(pc.header.frame_id, b"lidar".to_vec());
    assert_eq!((pc.height, pc.width), (1, 640));
    assert_eq!(pc.fields.len(), 2);
    assert_eq!(pc.fields[1].name, b"intensity".to_vec());
    assert_eq!((pc.fields[1].offset, pc.fields[1].datatype, pc.fields[1].count), (12, 2, 1));
    assert!(!pc.is_bigendian);
    assert_eq!((pc.point_step, pc.row_step), (16, 10240));
    assert_eq!(pc.data, vec![9u8; 5]);
    assert!(pc.is_dense);
}

#[test]
fn dmabuf_round_trip() {
    let value = ((3i32, 4u32), "dma".to_string(), 1234u32, -5i32, 1920u32, 1080u32, 3840u32, 0x5659_5559u32, 4_147_200u32);
    let buf = strip(cdr::serialize::<_, _, cdr::CdrLe>(&value, cdr::Infinite).unwrap());
    let d = deserialize_dmabuf(&buf, false).unwrap();
    assert_eq!((d.src_pid, d.dma_fd, d.width, d.height, d.stride), (1234, -5, 1920, 1080, 3840));
    assert_eq!((d.fourcc, d.length), (0x5659_5559, 4_147_200));
}

#[test]
fn image_annotations_round_trip() {
    let color = (0.1f64, 0.2f64, 0.3f64, 1.0f64);
    let circle = ((1i32, 2u32), (10.5f64, -3.25f64), 4.0f64, 0.5f64, color, color);
    let point = ((5i32, 6u32), 2u8, vec![(1.0f64, 2.0f64), (3.0f64, 4.0f64)], color, vec![color], color, 2.5f64);
    let text = ((7i32, 8u32), (0.0f64, 1.0f64), "hi".to_string(), 12.0f64, color, color);
    let value = (vec![circle], vec![point], vec![text]);
    let buf = strip(cdr::serialize::<_, _, cdr::CdrLe>(&value, cdr::Infinite).unwrap());
    let a = deserialize_image_annotations(&buf, false).unwrap();
    assert_eq!(a.circles.len(), 1);
    assert_eq!(a.circles[0].position.x, 10.5f64.to_bits());
    assert_eq!(a.circles[0].position.y, (-3.25f64).to_bits());
    assert_eq!(a.circles[0].fill_color.g, 0.2f64.to_bits());
    assert_eq!(a.points[0].type_, 2);
    assert_eq!(a.points[0].points.len(), 2);
    assert_eq!(a.points[0].points[1].y, 4.0f64.to_bits());
    assert_eq!(a.points[0].outline_colors.len(), 1);
    assert_eq!(a.points[0].thickness, 2.5f64.to_bits());
    assert_eq!(a.texts[0].text, b"hi".to_vec());
    assert_eq!(a.texts[0].font_size, 12.0f64.to_bits());
    assert_eq!(a.texts[0].background_color.a, 1.0f64.to_bits());
}

#[test]
fn camera_info_round_trip() {
    let k = [1.0f64, 0.0, 2.0, 0.0, 1.0, 3.0, 0.0, 0.0, 1.0];
    let r = [1.0f64, 0.0, 0.0, 0.0, 1.0, 0.0, 0.0, 0.0, 1.0];
    let p = [5.0f64; 12];
    let value = (
        ((1i32, 1u32), "cam".to_string()),
        480u32,
        640u32,
        "plumb_bob".to_string(),
        vec![0.1f64, -0.2f64],
        k,
        r,
        p,
        2u32,
        3u32,
        (1u32, 2u32, 3u32, 4u32, true),
    );
    let buf = strip(cdr::serialize::<_, _, cdr::CdrLe>(&value, cdr::Infinite).unwrap());
    let c = deserialize_camera_info(&buf, false).unwrap();
    assert_eq!((c.height, c.width), (480, 640));
    assert_eq!(c.distortion_model, b"plumb_bob".to_vec());
    assert_eq!(c.d, vec![0.1f64.to_bits(), (-0.2f64).to_bits()]);
    assert_eq!(c.k.to_vec(), k.iter().map(|x| x.to_bits()).collect::<Vec<u64>>());
    assert_eq!(c.r.len(), 9);
    assert_eq!(c.p.to_vec(), vec![5.0f64.to_bits(); 12]);
    assert_eq!((c.binning_x, c.binning_y), (2, 3));
    assert_eq!((c.roi.x_offset, c.roi.y_offset, c.roi.height, c.roi.width), (1, 2, 3, 4));
    assert!(c.roi.do_rectify);
}

#[test]
fn detect_round_trip() {
    let track = ("t-1".to_string(), 42i32, (9i32, 10u32));
    let bx = (0.5f32, 0.25f32, 0.1f32, 0.2f32, "car".to_string(), 0.9f32, 12.0f32, 3.5f32, track);
    let value = (((1i32, 0u32), "det".to_string()), (2i32, 0u32), (3i32, 0u32), (4i32, 0u32), vec![bx]);
    let buf = strip(cdr::serialize::<_, _, cdr::CdrLe>(&value, cdr::Infinite).unwrap());
    let d = deserialize_detect(&buf, false).unwrap();
    assert_eq!(d.input_timestamp.sec, 2);
    assert_eq!(d.model_time.sec, 3);
    assert_eq!(d.output_time.sec, 4);
    assert_eq!(d.boxes.len(), 1);
    assert_eq!(d.boxes[0].center_x, 0.5f32.to_bits());
    assert_eq!(d.boxes[0].label, b"car".to_vec());
    assert_eq!(d.boxes[0].speed, 3.5f32.to_bits());
    assert_eq!(d.boxes[0].track.id, b"t-1".to_vec());
    assert_eq!(d.boxes[0].track.lifetime, 42);
    assert_eq!(d.boxes[0].track.created, Time { sec: 9, nanosec: 10 });
}

#[test]
fn model_info_round_trip() {
    let value = (
        ((1i32, 0u32), "model".to_string()),
        vec![1u32, 224, 224, 3],
        1u8,
        vec![1u32, 1000],
        8u8,
        vec!["cat".to_string(), String::new(), "dog".to_string()],
        "detection".to_string(),
        "tflite".to_string(),
        "yolo".to_string(),
    );
    let buf = strip(cdr::serialize::<_, _, cdr::CdrLe>(&value, cdr::Infinite).unwrap());
    let m = deserialize_model_info(&buf, false).unwrap();
    assert_eq!(m.input_shape, vec![1, 224, 224, 3]);
    assert_eq!(m.input_type, 1);
    assert_eq!(m.output_shape, vec![1, 1000]);
    assert_eq!(m.output_type, 8);
    assert_eq!(m.labels, vec![b"cat".to_vec(), Vec::new(), b"dog".to_vec()]);
    assert_eq!(m.model_type, b"detection".to_vec());
    assert_eq!(m.model_format, b"tflite".to_vec());
    assert_eq!(m.model_name, b"yolo".to_vec());
}

#[test]
fn radar_cube_round_trip() {
    let value = (
        ((1i32, 0u32), "radar".to_string()),
        0x0123_4567_89ab_cdefu64,
        vec![6u8, 1, 5, 2],
        vec![2u16, 3, 4, 5],
        vec![1.5f32, 0.25f32],
        vec![-1i16, 2, -32768, 32767],
        true,
    );
    let buf = strip(cdr::serialize::<_, _, cdr::CdrLe>(&value, cdr::Infinite).unwrap());
    let c = deserialize_radar_cube(&buf, false).unwrap();
    assert_eq!(c.timestamp, 0x0123_4567_89ab_cdef);
    assert_eq!(c.layout, vec![6u8, 1, 5, 2]);
    assert_eq!(c.shape, vec![2u16, 3, 4, 5]);
    assert_eq!(c.scales, vec![1.5f32.to_bits(), 0.25f32.to_bits()]);
    assert_eq!(c.cube, vec![-1i16, 2, -32768, 32767]);
    assert!(c.is_complex);
}

#[test]
fn every_short_prefix_is_truncated() {
    let value = ((7i32, 9u32), "cam0".to_string(), "png".to_string(), vec![1u8, 2, 3]);
    let buf = strip(cdr::serialize::<_, _, cdr::CdrLe>(&value, cdr::Infinite).unwrap());
    for k in 0..buf.len() {
        assert_eq!(deserialize_compressed_image(&buf[..k], false), Err(DecodeError::TruncatedInput), "prefix {}", k);
    }
    assert!(deserialize_compressed_image(&buf, false).is_ok());
}

#[test]
fn trailing_bytes_are_ignored() {
    let value = ((7i32, 9u32), "cam0".to_string(), "png".to_string(), vec![1u8, 2, 3]);
    let mut buf = strip(cdr::serialize::<_, _, cdr::CdrLe>(&value, cdr::Infinite).unwrap());
    let exact = deserialize_compressed_image(&buf, false).unwrap();
    buf.extend_from_slice(&[0xee; 13]);
    assert_eq!(deserialize_compressed_image(&buf, false).unwrap(), exact);
}

#[test]
fn empty_buffer_is_truncated() {
    assert_eq!(deserialize_radar_cube(&[], false), Err(DecodeError::TruncatedInput));
    assert_eq!(decode_message::<Time>(&[1, 0, 0, 0, 2, 0, 0], false), Err(DecodeError::TruncatedInput));
}

#[test]
fn oversized_length_is_truncated() {
    // a frame id that claims four billion bytes
    let buf = [1u8, 0, 0, 0, 2, 0, 0, 0, 0xff, 0xff, 0xff, 0xff, b'a', 0];
    assert_eq!(decode_message::<Header>(&buf, false), Err(DecodeError::TruncatedInput));
}

#[test]
fn float_after_text_is_read_at_aligned_offset() {
    // a text annotation: the font size (f64) follows the text "abcd", whose
    // natural end (offset 49) is not a multiple of eight
    let color = (0.0f64, 0.0f64, 0.0f64, 1.0f64);
    let value = vec![((1i32, 2u32), (0.0f64, 0.0f64), "abcd".to_string(), 17.5f64, color, color)];
    let texts = (Vec::<u8>::new(), Vec::<u8>::new(), value);
    let mut buf = strip(cdr::serialize::<_, _, cdr::CdrLe>(&texts, cdr::Infinite).unwrap());
    // circles (4) + points (4) + text count (4) + stamp (8) + padding (4)
    // + position (16) = 40
    // the text's length prefix takes 40..44, "abcd\0" 44..49, padding 49..56
    assert_eq!(&buf[44..49], b"abcd\0");
    for b in &mut buf[49..56] {
        *b = 0xaa;
    }
    let a = deserialize_image_annotations(&buf, false).unwrap();
    assert_eq!(a.texts[0].text, b"abcd".to_vec());
    assert_eq!(a.texts[0].font_size, 17.5f64.to_bits());
}

#[test]
fn header_seconds_are_signed() {
    // sec (i32), nanosec (u32), then the frame id "x"
    let buf = [0x01u8, 0x02, 0x03, 0x84, 0x10, 0, 0, 0, 2, 0, 0, 0, b'x', 0];
    let h = decode_message::<Header>(&buf, false).unwrap();
    assert_eq!(h.stamp.sec, 0x8403_0201u32 as i32);
    assert_eq!(h.stamp.nanosec, 16);
    assert_eq!(h.frame_id, b"x".to_vec());
}

#[test]
fn nonzero_byte_is_true() {
    let value = (1u32, 2u32, 3u32, 4u32, 1u8);
    let mut buf = strip(cdr::serialize::<_, _, cdr::CdrLe>(&value, cdr::Infinite).unwrap());
    buf[16] = 7;
    let roi = decode_message::<bus_bridge::messages::RegionOfInterest>(&buf, false).unwrap();
    assert!(roi.do_rectify);
    buf[16] = 0;
    let roi = decode_message::<bus_bridge::messages::RegionOfInterest>(&buf, false).unwrap();
    assert!(!roi.do_rectify);
}

#[test]
fn little_endian_payload_decodes_through_its_body() {
    let value = ((7i32, 9u32), "cam0".to_string(), "jpeg".to_string(), vec![4u8, 5]);
    let payload = cdr::serialize::<_, _, cdr::CdrLe>(&value, cdr::Infinite).unwrap();
    assert_eq!(&payload[..2], &[0u8, 1]);
    let (body, big) = cdr_body(&payload).unwrap();
    assert!(!big);
    assert_eq!(body, payload[4..].to_vec());
    let img = deserialize_compressed_image(&body, big).unwrap();
    assert_eq!(img.format, b"jpeg".to_vec());
    assert_eq!(img.data, vec![4u8, 5]);
}

#[test]
fn big_endian_payload_decodes_through_its_body() {
    let value = ((-7i32, 9u32), "cam0".to_string(), "jpeg".to_string(), vec![4u8, 5]);
    let payload = cdr::serialize::<_, _, cdr::CdrBe>(&value, cdr::Infinite).unwrap();
    assert_eq!(&payload[..2], &[0u8, 0]);
    let (body, big) = cdr_body(&payload).unwrap();
    assert!(big);
    let img = deserialize_compressed_image(&body, big).unwrap();
    assert_eq!(img.header.stamp, Time { sec: -7, nanosec: 9 });
    assert_eq!(img.header.frame_id, b"cam0".to_vec());
    assert_eq!(img.format, b"jpeg".to_vec());
    assert_eq!(img.data, vec![4u8, 5]);
}

#[test]
fn big_endian_radar_cube_round_trip() {
    let value = (
        ((1i32, 2u32), "radar".to_string()),
        0x0123_4567_89ab_cdefu64,
        vec![6u8, 1],
        vec![2u16, 300],
        vec![1.5f32],
        vec![-2i16, 32767, -32768],
        false,
    );
    let payload = cdr::serialize::<_, _, cdr::CdrBe>(&value, cdr::Infinite).unwrap();
    let (body, big) = cdr_body(&payload).unwrap();
    let c = deserialize_radar_cube(&body, big).unwrap();
    assert_eq!(c.header.stamp, Time { sec: 1, nanosec: 2 });
    assert_eq!(c.timestamp, 0x0123_4567_89ab_cdef);
    assert_eq!(c.layout, vec![6u8, 1]);
    assert_eq!(c.shape, vec![2u16, 300]);
    assert_eq!(c.scales, vec![1.5f32.to_bits()]);
    assert_eq!(c.cube, vec![-2i16, 32767, -32768]);
    assert!(!c.is_complex);
}

#[test]
fn big_endian_camera_info_round_trip() {
    let k = [1.0f64, 0.0, 2.0, 0.0, 1.0, 3.0, 0.0, 0.0, 1.0];
    let value = (
        ((1i32, 1u32), "cam".to_string()),
        480u32,
        640u32,
        "plumb_bob".to_string(),
        vec![0.1f64, -0.2f64],
        k,
        k,
        [5.0f64; 12],
        2u32,
        3u32,
        (1u32, 2u32, 3u32, 4u32, true),
    );
    let payload = cdr::serialize::<_, _, cdr::CdrBe>(&value, cdr::Infinite).unwrap();
    let (body, big) = cdr_body(&payload).unwrap();
    let c = deserialize_camera_info(&body, big).unwrap();
    assert_eq!((c.height, c.width), (480, 640));
    assert_eq!(c.d, vec![0.1f64.to_bits(), (-0.2f64).to_bits()]);
    assert_eq!(c.k.to_vec(), k.iter().map(|x| x.to_bits()).collect::<Vec<u64>>());
    assert_eq!(c.p.to_vec(), vec![5.0f64.to_bits(); 12]);
    assert_eq!((c.roi.x_offset, c.roi.width), (1, 4));
}

#[test]
fn byte_order_changes_the_value_read() {
    let buf = [0u8, 0, 1, 2, 0, 0, 0, 0];
    let le = decode_message::<Time>(&buf, false).unwrap();
    let be = decode_message::<Time>(&buf, true).unwrap();
    assert_eq!(le.sec, 0x0201_0000);
    assert_eq!(be.sec, 0x0000_0102);
}

#[test]
fn parameter_list_headers_are_accepted() {
    assert_eq!(cdr_body(&[0u8, 3, 0, 0, 42]), Some((vec![42u8], false)));
    assert_eq!(cdr_body(&[0u8, 2, 0, 0, 42]), Some((vec![42u8], true)));
}

#[test]
fn unknown_or_short_header_is_refused() {
    assert_eq!(cdr_body(&[0u8, 4, 0, 0, 1]), None);
    assert_eq!(cdr_body(&[0u8, 1, 0]), None);
    assert_eq!(cdr_body(&[0u8, 1, 0, 0]), Some((Vec::new(), false)));
}

#[test]
fn detect_score_after_label_is_read_at_aligned_offset() {
    let track = ("t".to_string(), 1i32, (0i32, 0u32));
    let bx = (1.0f32, 2.0f32, 3.0f32, 4.0f32, "ab".to_string(), 0.75f32, 5.0f32, 6.0f32, track);
    let value = (((1i32, 0u32), "d".to_string()), (0i32, 0u32), (0i32, 0u32), (0i32, 0u32), vec![bx]);
    let mut buf = strip(cdr::serialize::<_, _, cdr::CdrLe>(&value, cdr::Infinite).unwrap());
    let label = buf.windows(3).position(|w| w == b"ab\0").unwrap();
    let end = label + 3;
    assert_ne!(end % 4, 0);
    let aligned = (end + 3) / 4 * 4;
    for b in &mut buf[end..aligned] {
        *b = 0xaa;
    }
    assert_eq!(&buf[aligned..aligned + 4], &0.75f32.to_le_bytes());
    let d = deserialize_detect(&buf, false).unwrap();
    assert_eq!(d.boxes[0].label, b"ab".to_vec());
    assert_eq!(d.boxes[0].score, 0.75f32.to_bits());
    assert_eq!(d.boxes[0].distance, 5.0f32.to_bits());
}
