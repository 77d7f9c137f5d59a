use lockstep_video::error::PlaybackError;
use lockstep_video::partition::{band_rows, DisplayGeometry};
use lockstep_video::playback::{prepare, Playback, WorkerContext};
use lockstep_video::sync::{WorkerAction, WorkerEvent, WorkerState};

fn record(payload: &[u8]) -> Vec<u8> {
    let mut out = (payload.len() as u32).to_le_bytes().to_vec();
    out.extend_from_slice(payload);
    out
}

fn solid(color: [u8; 4], width: u32, height: u32) -> Vec<u8> {
    let mut pixels = Vec::new();
    for _ in 0..width * height {
        pixels.extend_from_slice(&color);
    }
    pixels
}

fn container_of(frames: &[Vec<u8>], width: u32, height: u32) -> Vec<u8> {
    let mut container = Vec::new();
    for pixels in frames {
        container.extend(record(&qoi::encode_to_vec(pixels, width, height).expect("encodes")));
    }
    container
}

fn swapped(pixels: &[u8]) -> Vec<u8> {
    let mut out = pixels.to_vec();
    for px in out.chunks_exact_mut(4) {
        px.swap(0, 2);
    }
    out
}

/// Drives the workers of `playback` against one counter and one surface,
/// round robin, until `rounds` rounds are over. After every round the whole
/// surface is handed to `check` together with the round's number.
fn play(playback: &Playback, rounds: usize, check: &dyn Fn(usize, &[u8])) {
    let cores = playback.cores;
    let frames = playback.total_frames;
    let mut surface = vec![0xAAu8; playback.geometry.height * playback.geometry.stride * 4];
    let mut counter = 0usize;
    let mut workers = vec![WorkerState::new(); cores];
    let mut observed = vec![0usize; cores];
    let mut finished = 0usize;
    let mut turn = 0usize;
    while finished < rounds {
        let k = turn % cores;
        turn += 1;
        let event = match workers[k].action(cores, frames) {
            WorkerAction::LoadCounter => {
                observed[k] = counter;
                WorkerEvent::CounterRead(counter)
            }
            WorkerAction::CopyBand { frame_index } => {
                assert_eq!(frame_index, (observed[k] / cores) % frames);
                playback.present(k, observed[k], &mut surface);
                WorkerEvent::BandCopied
            }
            WorkerAction::IncrementCounter => {
                counter += 1;
                if counter % cores == 0 {
                    check(finished, &surface);
                    finished += 1;
                }
                WorkerEvent::CounterIncremented
            }
        };
        workers[k] = workers[k].step(event, cores);
    }
}

#[test]
fn single_core_round_trip_reproduces_the_colours() {
    let colours = [[200u8, 10, 20, 255], [1, 2, 3, 4], [0, 255, 0, 128]];
    let frames: Vec<Vec<u8>> = colours.iter().map(|c| solid(*c, 3, 2)).collect();
    let container = container_of(&frames, 3, 2);
    let geometry = DisplayGeometry { width: 3, height: 2, stride: 3 };
    let playback = prepare(&container, geometry, 1).expect("playback starts");
    assert_eq!(playback.total_frames, 3);
    assert_eq!(playback.dropped, 0);
    play(&playback, 7, &|round, surface| {
        assert_eq!(surface, &swapped(&frames[round % 3])[..]);
    });
}

#[test]
fn every_core_count_shows_the_same_picture() {
    let frames: Vec<Vec<u8>> = (0..4u8)
        .map(|f| (0..5 * 3 * 4).map(|i| (i as u8).wrapping_mul(7).wrapping_add(f)).collect())
        .collect();
    let container = container_of(&frames, 5, 3);
    let geometry = DisplayGeometry { width: 6, height: 5, stride: 8 };
    for cores in 1usize..7 {
        let playback = prepare(&container, geometry, cores).expect("playback starts");
        play(&playback, 9, &|round, surface| {
            let shown = swapped(&frames[round % 4]);
            for y in 0..5 {
                let row = &surface[y * 32..(y + 1) * 32];
                if y < 3 {
                    assert_eq!(&row[..20], &shown[y * 20..(y + 1) * 20]);
                    assert_eq!(&row[20..], &[0u8; 12]);
                } else {
                    assert_eq!(row, &[0u8; 32]);
                }
            }
        });
    }
}

#[test]
fn timelines_have_one_band_per_frame_and_core() {
    let frames = vec![solid([9, 8, 7, 6], 4, 4), solid([1, 1, 1, 1], 4, 4)];
    let container = container_of(&frames, 4, 4);
    let geometry = DisplayGeometry { width: 4, height: 4, stride: 4 };
    let playback = prepare(&container, geometry, 3).expect("playback starts");
    assert_eq!(playback.cores, 3);
    assert_eq!(playback.geometry, geometry);
    assert_eq!(playback.timelines.len(), 3);
    for core in 0..3 {
        assert_eq!(playback.timelines[core].len(), 2);
        let (first, last) = band_rows(core, 3, 4);
        for frame in 0..2 {
            assert_eq!(playback.band(core, frame).len(), (last - first) * 16);
            assert_eq!(
                playback.band(core, frame),
                &swapped(&frames[frame])[first * 16..last * 16]
            );
        }
    }
}

#[test]
fn worker_contexts_tile_the_surface() {
    let container = container_of(&[solid([1, 2, 3, 4], 2, 2)], 2, 2);
    let geometry = DisplayGeometry { width: 2, height: 11, stride: 5 };
    let playback = prepare(&container, geometry, 4).expect("playback starts");
    let mut next = 0;
    for core in 0..4 {
        let context = playback.worker(core);
        assert_eq!(context.core_id, core);
        assert_eq!(context.cores, 4);
        assert_eq!(context.total_frames, 1);
        assert_eq!(context.stride_bytes, 20);
        assert_eq!(context.dest_offset, next);
        next += context.band_len;
    }
    assert_eq!(next, 11 * 20);
    assert_eq!(
        playback.worker(3),
        WorkerContext {
            core_id: 3,
            cores: 4,
            total_frames: 1,
            stride_bytes: 20,
            dest_offset: 6 * 20,
            band_len: 5 * 20,
        }
    );
}

#[test]
fn present_touches_only_the_cores_own_range() {
    let container = container_of(&[solid([1, 2, 3, 4], 2, 4)], 2, 4);
    let geometry = DisplayGeometry { width: 2, height: 4, stride: 2 };
    let playback = prepare(&container, geometry, 2).expect("playback starts");
    let mut surface = vec![0xAAu8; 32];
    playback.present(1, 0, &mut surface);
    assert_eq!(&surface[..16], &[0xAA; 16]);
    assert_eq!(&surface[16..], &swapped(&solid([1, 2, 3, 4], 2, 2))[..]);
}

#[test]
fn no_cores_is_fatal() {
    let container = container_of(&[solid([1, 2, 3, 4], 2, 2)], 2, 2);
    let geometry = DisplayGeometry { width: 2, height: 2, stride: 2 };
    assert_eq!(prepare(&container, geometry, 0).err(), Some(PlaybackError::NoCores));
}

#[test]
fn no_decoded_frame_is_fatal() {
    let geometry = DisplayGeometry { width: 2, height: 2, stride: 2 };
    assert_eq!(prepare(&[], geometry, 2).err(), Some(PlaybackError::NoFrames));
    let junk = record(&[1, 2, 3, 4, 5]);
    assert_eq!(prepare(&junk, geometry, 2).err(), Some(PlaybackError::NoFrames));
    assert_eq!(prepare(&[7, 0, 0, 0, 1], geometry, 1).err(), Some(PlaybackError::NoFrames));
}

#[test]
fn frame_wider_than_the_stride_is_an_invalid_parameter() {
    let container = container_of(&[solid([1, 2, 3, 4], 3, 1)], 3, 1);
    let geometry = DisplayGeometry { width: 2, height: 2, stride: 2 };
    assert_eq!(prepare(&container, geometry, 1).err(), Some(PlaybackError::InvalidParameter));
}

#[test]
fn three_channel_frame_is_an_invalid_parameter() {
    let rgb: Vec<u8> = (0..2 * 2 * 3).collect();
    let container = container_of(&[rgb], 2, 2);
    let geometry = DisplayGeometry { width: 2, height: 2, stride: 2 };
    assert_eq!(prepare(&container, geometry, 2).err(), Some(PlaybackError::InvalidParameter));
}

#[test]
fn surface_beyond_the_address_space_is_an_invalid_parameter() {
    let container = container_of(&[solid([1, 2, 3, 4], 2, 2)], 2, 2);
    let wide = DisplayGeometry { width: 2, height: 1, stride: usize::MAX / 2 };
    assert_eq!(prepare(&container, wide, 1).err(), Some(PlaybackError::InvalidParameter));
    let tall = DisplayGeometry { width: 2, height: usize::MAX / 4, stride: 2 };
    assert_eq!(prepare(&container, tall, 1).err(), Some(PlaybackError::InvalidParameter));
}

#[test]
fn dropped_records_are_counted() {
    let mut container = record(&[0xDE, 0xAD]);
    container.extend(container_of(&[solid([5, 6, 7, 8], 1, 1)], 1, 1));
    container.extend(record(&[]));
    let geometry = DisplayGeometry { width: 1, height: 1, stride: 1 };
    let playback = prepare(&container, geometry, 1).expect("playback starts");
    assert_eq!(playback.total_frames, 1);
    assert_eq!(playback.dropped, 2);
    assert_eq!(playback.band(0, 0), &[7, 6, 5, 8]);
}

#[test]
fn error_descriptions() {
    assert_eq!(PlaybackError::NoCores.describe(), "no processor core available");
    assert_eq!(PlaybackError::NoFrames.describe(), "no frame could be decoded");
    assert_eq!(PlaybackError::InvalidParameter.describe(), "invalid parameter");
}
