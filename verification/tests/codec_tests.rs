use lockstep_video::codec::{
    decode_image, decode_record, decode_to_buffer, record_header, swap_channels, DecodedFrame,
    ImageHeader,
};
use lockstep_video::decoder::decode_container;

fn encode(pixels: &[u8], width: u32, height: u32) -> Vec<u8> {
    qoi::encode_to_vec(pixels, width, height).expect("test image encodes")
}

fn record(payload: &[u8]) -> Vec<u8> {
    let mut out = (payload.len() as u32).to_le_bytes().to_vec();
    out.extend_from_slice(payload);
    out
}

fn gradient(width: u32, height: u32) -> Vec<u8> {
    let mut out = Vec::new();
    for y in 0..height {
        for x in 0..width {
            out.extend_from_slice(&[(x * 40) as u8, (y * 50) as u8, (x + y) as u8, 255 - x as u8]);
        }
    }
    out
}

#[test]
fn swap_channels_exchanges_first_and_third_byte_of_each_pixel() {
    let mut pixels = vec![1, 2, 3, 4, 5, 6, 7, 8];
    swap_channels(&mut pixels);
    assert_eq!(pixels, vec![3, 2, 1, 4, 7, 6, 5, 8]);
}

#[test]
fn swap_channels_leaves_an_incomplete_last_group() {
    let mut pixels = vec![1, 2, 3, 4, 5, 6, 7];
    swap_channels(&mut pixels);
    assert_eq!(pixels, vec![3, 2, 1, 4, 5, 6, 7]);
    let mut short = vec![1, 2, 3];
    swap_channels(&mut short);
    assert_eq!(short, vec![1, 2, 3]);
    let mut empty: Vec<u8> = Vec::new();
    swap_channels(&mut empty);
    assert!(empty.is_empty());
}

#[test]
fn swap_channels_twice_is_identity() {
    let source = gradient(5, 3);
    let mut pixels = source.clone();
    swap_channels(&mut pixels);
    assert_ne!(pixels, source);
    swap_channels(&mut pixels);
    assert_eq!(pixels, source);
}

#[test]
fn from_decoded_keeps_dimensions_and_swaps() {
    let header = ImageHeader { width: 2, height: 1, channels: 4, colorspace: 0 };
    let frame = DecodedFrame::from_decoded(header, vec![10, 20, 30, 40, 50, 60, 70, 80]);
    assert_eq!(frame.width, 2);
    assert_eq!(frame.height, 1);
    assert_eq!(frame.channels, 4);
    assert_eq!(frame.pixels, vec![30, 20, 10, 40, 70, 60, 50, 80]);
}

#[test]
fn record_header_reads_dimensions_and_channels() {
    let rgba = encode(&gradient(3, 2), 3, 2);
    assert_eq!(
        record_header(&rgba),
        Some(ImageHeader { width: 3, height: 2, channels: 4, colorspace: 0 })
    );
    let rgb = encode(&[1, 2, 3, 4, 5, 6], 2, 1);
    assert_eq!(
        record_header(&rgb),
        Some(ImageHeader { width: 2, height: 1, channels: 3, colorspace: 0 })
    );
}

#[test]
fn record_header_rejects_garbage() {
    assert_eq!(record_header(&[]), None);
    assert_eq!(record_header(&[1, 2, 3, 4, 5]), None);
    assert_eq!(record_header(b"qoif\0\0\0\x01\0\0\0\x01\x05\0"), None);
    assert_eq!(record_header(b"qoif\0\0\0\0\0\0\0\x01\x04\0"), None);
    assert_eq!(record_header(b"xoif\0\0\0\x01\0\0\0\x01\x04\0"), None);
}

#[test]
fn decode_image_returns_the_encoded_pixels() {
    let pixels = gradient(4, 3);
    let encoded = encode(&pixels, 4, 3);
    let (header, decoded) = decode_image(&encoded).expect("decodes");
    assert_eq!(header, ImageHeader { width: 4, height: 3, channels: 4, colorspace: 0 });
    assert_eq!(decoded, pixels);
    assert_ne!(decoded, encoded);
}

#[test]
fn decode_image_rejects_truncated_stream() {
    let encoded = encode(&gradient(4, 3), 4, 3);
    assert!(decode_image(&encoded[..encoded.len() - 1]).is_none());
    assert!(decode_image(&encoded[..20]).is_none());
    assert!(decode_image(&[]).is_none());
}

#[test]
fn decode_to_buffer_resizes_in_both_directions() {
    let pixels = gradient(2, 2);
    let encoded = encode(&pixels, 2, 2);
    let mut small: Vec<u8> = vec![9; 3];
    assert_eq!(
        decode_to_buffer(&mut small, &encoded),
        Some(ImageHeader { width: 2, height: 2, channels: 4, colorspace: 0 })
    );
    assert_eq!(small, pixels);
    let mut large: Vec<u8> = vec![9; 1000];
    assert!(decode_to_buffer(&mut large, &encoded).is_some());
    assert_eq!(large, pixels);
    let mut odd: Vec<u8> = vec![9; 17];
    assert!(decode_to_buffer(&mut odd, &encoded).is_some());
    assert_eq!(odd, pixels);
}

#[test]
fn decode_to_buffer_reports_failure() {
    let mut buf: Vec<u8> = vec![1, 2, 3];
    assert_eq!(decode_to_buffer(&mut buf, &[1, 2, 3, 4, 5]), None);
    let encoded = encode(&gradient(2, 2), 2, 2);
    assert_eq!(decode_to_buffer(&mut buf, &encoded[..encoded.len() - 3]), None);
}

#[test]
fn decode_record_swaps_red_and_blue() {
    let encoded = encode(&[255, 0, 0, 255, 1, 2, 3, 4], 2, 1);
    let frame = decode_record(&encoded).expect("decodes");
    assert_eq!((frame.width, frame.height, frame.channels), (2, 1, 4));
    assert_eq!(frame.pixels, vec![0, 0, 255, 255, 3, 2, 1, 4]);
}

#[test]
fn decode_record_keeps_three_channel_bytes_in_groups_of_four() {
    let encoded = encode(&[1, 2, 3, 4, 5, 6, 7, 8, 9], 3, 1);
    let frame = decode_record(&encoded).expect("decodes");
    assert_eq!((frame.width, frame.height, frame.channels), (3, 1, 3));
    assert_eq!(frame.pixels, vec![3, 2, 1, 4, 7, 6, 5, 8, 9]);
}

#[test]
fn decode_record_drops_invalid_payload() {
    assert!(decode_record(&[0xDE, 0xAD, 0xBE, 0xEF, 0x00]).is_none());
    assert!(decode_record(&[]).is_none());
}

#[test]
fn container_with_invalid_first_record_yields_one_red_frame() {
    let red = encode(&[255, 0, 0, 255], 1, 1);
    let mut container = vec![0x05, 0, 0, 0, 0xDE, 0xAD, 0xBE, 0xEF, 0x00];
    container.extend(record(&red));
    let stream = decode_container(&container);
    assert_eq!(stream.frames.len(), 1);
    assert_eq!(stream.dropped, 1);
    let frame = &stream.frames[0];
    assert_eq!((frame.width, frame.height), (1, 1));
    // Red, in the display's blue-green-red order.
    assert_eq!(frame.pixels, vec![0, 0, 255, 255]);
}

#[test]
fn container_frames_come_out_in_stream_order() {
    let mut container = Vec::new();
    for shade in [10u8, 20, 30] {
        container.extend(record(&encode(&[shade, 0, 0, 255], 1, 1)));
    }
    let stream = decode_container(&container);
    assert_eq!(stream.dropped, 0);
    let reds: Vec<u8> = stream.frames.iter().map(|f| f.pixels[2]).collect();
    assert_eq!(reds, vec![10, 20, 30]);
}

#[test]
fn container_drops_every_bad_record_and_counts_it() {
    let good = encode(&gradient(2, 2), 2, 2);
    let mut container = record(&[1, 2, 3]);
    container.extend(record(&good));
    container.extend(record(&good[..good.len() - 1]));
    container.extend(record(&[]));
    container.extend(record(&good));
    container.extend_from_slice(&[200, 0, 0, 0, 1]);
    let stream = decode_container(&container);
    assert_eq!(stream.frames.len(), 2);
    assert_eq!(stream.dropped, 3);
}

#[test]
fn empty_container_has_no_frames() {
    let stream = decode_container(&[]);
    assert_eq!(stream.frames.len(), 0);
    assert_eq!(stream.dropped, 0);
}
