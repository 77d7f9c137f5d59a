use lockstep_video::codec::DecodedFrame;
use lockstep_video::error::PlaybackError;
use lockstep_video::partition::{band_rows, core_band, partition_frame, DisplayGeometry};

fn frame(width: u32, height: u32) -> DecodedFrame {
    let pixels: Vec<u8> = (0..(width * height * 4)).map(|i| (i % 251 + 1) as u8).collect();
    DecodedFrame { width, height, channels: 4, pixels }
}

#[test]
fn bands_split_height_evenly_and_last_takes_the_rest() {
    assert_eq!(band_rows(0, 3, 10), (0, 3));
    assert_eq!(band_rows(1, 3, 10), (3, 6));
    assert_eq!(band_rows(2, 3, 10), (6, 10));
    assert_eq!(band_rows(0, 1, 1080), (0, 1080));
    assert_eq!(band_rows(3, 4, 1080), (810, 1080));
}

#[test]
fn bands_with_more_cores_than_rows() {
    assert_eq!(band_rows(0, 4, 2), (0, 0));
    assert_eq!(band_rows(2, 4, 2), (0, 0));
    assert_eq!(band_rows(3, 4, 2), (0, 2));
    assert_eq!(band_rows(0, 2, 0), (0, 0));
    assert_eq!(band_rows(1, 2, 0), (0, 0));
}

#[test]
fn bands_cover_every_row_exactly_once_in_core_order() {
    for cores in 1usize..9 {
        for height in 0usize..40 {
            let mut next = 0;
            for core in 0..cores {
                let (first, last) = band_rows(core, cores, height);
                assert_eq!(first, next);
                assert!(first <= last);
                next = last;
            }
            assert_eq!(next, height);
        }
    }
}

#[test]
fn two_cores_share_a_one_row_video_on_a_two_row_display() {
    let source = frame(4, 1);
    let geometry = DisplayGeometry { width: 4, height: 2, stride: 4 };
    let bands = partition_frame(&source, &geometry, 2).expect("fits");
    assert_eq!(bands.len(), 2);
    assert_eq!(bands[0], source.pixels);
    assert_eq!(bands[0].len(), 16);
    assert_eq!(bands[1], vec![0u8; 16]);
}

#[test]
fn rows_are_padded_to_the_stride() {
    let source = frame(2, 2);
    let geometry = DisplayGeometry { width: 2, height: 2, stride: 3 };
    let bands = partition_frame(&source, &geometry, 1).expect("fits");
    let mut expected = source.pixels[0..8].to_vec();
    expected.extend_from_slice(&[0; 4]);
    expected.extend_from_slice(&source.pixels[8..16]);
    expected.extend_from_slice(&[0; 4]);
    assert_eq!(bands, vec![expected]);
}

#[test]
fn rows_below_the_video_are_zero_in_every_band() {
    let source = frame(3, 2);
    let geometry = DisplayGeometry { width: 4, height: 7, stride: 4 };
    for cores in 1usize..5 {
        let bands = partition_frame(&source, &geometry, cores).expect("fits");
        for core in 0..cores {
            let (first, last) = band_rows(core, cores, 7);
            assert_eq!(bands[core].len(), (last - first) * 16);
            for y in first..last {
                let row = &bands[core][(y - first) * 16..(y - first + 1) * 16];
                if y >= 2 {
                    assert_eq!(row, &[0u8; 16]);
                } else {
                    assert_eq!(&row[..12], &source.pixels[y * 12..y * 12 + 12]);
                    assert_eq!(&row[12..], &[0u8; 4]);
                }
            }
        }
    }
}

#[test]
fn video_taller_than_display_is_cut_off() {
    let source = frame(2, 5);
    let geometry = DisplayGeometry { width: 2, height: 3, stride: 2 };
    let bands = partition_frame(&source, &geometry, 3).expect("fits");
    assert_eq!(bands[0], source.pixels[0..8]);
    assert_eq!(bands[1], source.pixels[8..16]);
    assert_eq!(bands[2], source.pixels[16..24]);
}

#[test]
fn wider_video_keeps_its_row_length() {
    let source = frame(3, 1);
    let geometry = DisplayGeometry { width: 2, height: 2, stride: 2 };
    let bands = partition_frame(&source, &geometry, 1).expect("readable");
    let mut expected = source.pixels.clone();
    expected.extend_from_slice(&[0; 8]);
    assert_eq!(bands, vec![expected]);
}

#[test]
fn short_pixel_buffer_is_an_invalid_parameter() {
    let mut source = frame(4, 2);
    source.pixels.truncate(31);
    let geometry = DisplayGeometry { width: 4, height: 2, stride: 4 };
    assert_eq!(partition_frame(&source, &geometry, 2), Err(PlaybackError::InvalidParameter));
    assert_eq!(partition_frame(&source, &geometry, 1), Err(PlaybackError::InvalidParameter));
    // The first core's rows are all there.
    assert_eq!(core_band(&source, &geometry, 0, 2), Ok(source.pixels[..16].to_vec()));
    assert_eq!(core_band(&source, &geometry, 1, 2), Err(PlaybackError::InvalidParameter));
}

#[test]
fn short_pixel_buffer_does_not_matter_below_the_display() {
    let mut source = frame(4, 3);
    source.pixels.truncate(33);
    let geometry = DisplayGeometry { width: 4, height: 2, stride: 4 };
    let bands = partition_frame(&source, &geometry, 2).expect("shown rows are readable");
    assert_eq!(bands[1], source.pixels[16..32]);
}

#[test]
fn display_without_rows_gives_empty_bands() {
    let source = frame(4, 2);
    let geometry = DisplayGeometry { width: 4, height: 0, stride: 4 };
    assert_eq!(partition_frame(&source, &geometry, 3), Ok(vec![vec![], vec![], vec![]]));
}

#[test]
fn core_band_matches_partition_frame() {
    let source = frame(5, 4);
    let geometry = DisplayGeometry { width: 6, height: 9, stride: 8 };
    let bands = partition_frame(&source, &geometry, 4).expect("fits");
    for core in 0..4 {
        assert_eq!(core_band(&source, &geometry, core, 4).as_ref(), Ok(&bands[core]));
    }
}
