use std::io::Cursor;

use voice_room::clock::{elapsed_ns, elapsed_ns_since, timeline_start_sample, utc_now};
use voice_room::pcm::{downmix_stereo_s16le, PcmReceiver};
use voice_room::wav::{finalize_wav, track_format, TrackStream};
use voice_room::SAMPLE_RATE;

fn samples_of(file: Vec<u8>) -> Vec<i16> {
    hound::WavReader::new(Cursor::new(file))
        .unwrap()
        .into_samples::<i16>()
        .collect::<Result<_, _>>()
        .unwrap()
}

/// The samples that a stream of segment files, read in pieces, puts on a track.
fn streamed(segments: &[(u64, &[&[u8]])], total: u64) -> Vec<i16> {
    let mut track: Vec<i16> = Vec::new();
    let mut stream = TrackStream::new(total);
    for (start, pieces) in segments {
        track.extend(vec![0i16; stream.begin_segment(*start) as usize]);
        for piece in *pieces {
            if stream.is_full() {
                break;
            }
            track.extend(stream.feed(piece));
        }
    }
    track.extend(vec![0i16; stream.finish() as usize]);
    track
}

#[test]
fn timeline_rounds_to_samples() {
    assert_eq!(timeline_start_sample(1_000_000_000, 0), 48_000);
}

#[test]
fn stereo_s16le_is_downmixed_to_mono_frames() {
    let mut output = Vec::new();
    let frames = downmix_stereo_s16le(
        &[
            0xe8, 0x03, 0xd0, 0x07, // 1000, 2000
            0x18, 0xfc, 0x30, 0xf8, // -1000, -2000
            0xff, 0x7f, 0xff, 0x7f, // i16::MAX, i16::MAX
            0xaa, // incomplete frame must be retained by the caller
        ],
        &mut output,
    );
    let samples: Vec<i16> = output
        .chunks_exact(2)
        .map(|sample| i16::from_le_bytes([sample[0], sample[1]]))
        .collect();
    assert_eq!(frames, 3);
    assert_eq!(samples, vec![1500, -1500, i16::MAX]);
}

#[test]
fn wav_tracks_are_equal_length() {
    let file = finalize_wav(&vec![(2, vec![1, 0, 2, 0])], 4).unwrap();
    let reader = hound::WavReader::new(Cursor::new(file)).unwrap();
    assert_eq!(reader.len(), 4);
}

#[test]
fn streamed_wav_inserts_silence_before_a_late_segment() {
    let samples = streamed(&[(2, &[&[1, 0, 2, 0]])], 5);
    assert_eq!(samples, vec![0, 0, 1, 2, 0]);
}

#[test]
fn timeline_halves_round_up_and_earlier_frames_are_at_zero() {
    assert_eq!(timeline_start_sample(0, 0), 0);
    assert_eq!(timeline_start_sample(10_416, 0), 0);
    assert_eq!(timeline_start_sample(10_417, 0), 1);
    assert_eq!(timeline_start_sample(31_250, 0), 2);
    assert_eq!(timeline_start_sample(5, 10), 0);
    assert_eq!(timeline_start_sample(3_000_000_000, 1_000_000_000), 96_000);
    assert_eq!(timeline_start_sample(u64::MAX, 0), 885_443_715_538_058);
}

#[test]
fn downmix_rounds_towards_zero_and_appends() {
    let mut output = vec![9];
    let frames = downmix_stereo_s16le(
        &[
            0x01, 0x00, 0x02, 0x00, // 1, 2
            0xff, 0xff, 0xfe, 0xff, // -1, -2
            0x00, 0x80, 0x00, 0x80, // i16::MIN, i16::MIN
        ],
        &mut output,
    );
    assert_eq!(frames, 3);
    assert_eq!(output, vec![9, 1, 0, 0xff, 0xff, 0x00, 0x80]);
}

#[test]
fn elapsed_time_is_never_negative() {
    assert_eq!(elapsed_ns(1_000, 4_500), 3_500);
    assert_eq!(elapsed_ns(4_500, 1_000), 0);
    assert_eq!(elapsed_ns(0, i64::MAX as i128), i64::MAX as u64);
    assert_eq!(elapsed_ns(0, i64::MAX as i128 + 1), 0);
    assert_eq!(elapsed_ns(i128::MIN, i128::MAX), 0);
    let started = utc_now();
    assert!(elapsed_ns_since(started) < 60_000_000_000);
    assert!(elapsed_ns_since(started - 5_000_000_000) >= 5_000_000_000);
}

#[test]
fn wav_file_has_the_header_of_mono_sixteen_bit_audio() {
    let file = finalize_wav(&vec![(0, vec![0x34, 0x12])], 2).unwrap();
    assert_eq!(file.len(), 48);
    assert_eq!(&file[0..4], b"RIFF");
    assert_eq!(&file[44..48], &[0x34, 0x12, 0, 0]);
    let reader = hound::WavReader::new(Cursor::new(file)).unwrap();
    assert_eq!(reader.spec().channels, 1);
    assert_eq!(reader.spec().sample_rate, SAMPLE_RATE);
    assert_eq!(reader.spec().bits_per_sample, 16);
    assert_eq!(reader.spec().sample_format, hound::SampleFormat::Int);
}

#[test]
fn wav_of_nothing_is_silence() {
    assert_eq!(samples_of(finalize_wav(&vec![], 3).unwrap()), vec![0, 0, 0]);
    assert_eq!(samples_of(finalize_wav(&vec![], 0).unwrap()), Vec::<i16>::new());
    assert_eq!(streamed(&[], 3), vec![0, 0, 0]);
}

#[test]
fn wav_cuts_what_lies_behind_the_end() {
    let file = finalize_wav(&vec![(1, vec![1, 0, 2, 0, 3, 0]), (9, vec![4, 0])], 3).unwrap();
    assert_eq!(samples_of(file), vec![0, 1, 2]);
    assert_eq!(streamed(&[(1, &[&[1, 0, 2, 0, 3, 0]]), (9, &[&[4, 0]])], 3), vec![0, 1, 2]);
}

#[test]
fn streamed_segments_keep_their_place_where_they_overlap() {
    let first: &[u8] = &[1, 0, 2, 0, 3, 0];
    let second: &[u8] = &[7, 0, 8, 0, 9, 0];
    assert_eq!(
        streamed(&[(0, &[first]), (2, &[second])], 6),
        vec![1, 2, 3, 8, 9, 0]
    );
}

#[test]
fn segments_in_memory_keep_their_place_where_they_overlap() {
    let file = finalize_wav(
        &vec![(0, vec![1, 0, 2, 0, 3, 0]), (2, vec![7, 0, 8, 0])],
        6,
    )
    .unwrap();
    assert_eq!(samples_of(file), vec![1, 2, 3, 8, 0, 0]);
    let file = finalize_wav(&vec![(0, vec![1, 0, 2, 0]), (1, vec![3, 0, 4, 0])], 4).unwrap();
    assert_eq!(samples_of(file), vec![1, 2, 4, 0]);
}

#[test]
fn tracks_of_any_segments_are_equally_long() {
    let lists: [&[(u64, &[&[u8]])]; 4] = [
        &[],
        &[(9, &[&[1, 0]]), (0, &[&[2, 0, 3, 0]])],
        &[(0, &[&[1, 0, 2, 0]]), (1, &[&[3, 0, 4, 0, 5, 0, 6, 0, 7, 0]])],
        &[(3, &[&[]]), (3, &[&[1]])],
    ];
    for segments in lists {
        assert_eq!(streamed(segments, 4).len(), 4);
    }
    let format = track_format();
    assert_eq!(
        (format.channels, format.sample_rate, format.bits_per_sample),
        (1, 48_000, 16)
    );
}

#[test]
fn cutting_a_stream_changes_nothing() {
    let bytes: Vec<u8> = (0..30).collect();
    let mut expected = Vec::new();
    downmix_stereo_s16le(&bytes, &mut expected);
    for cut in [1, 2, 3, 5, 7, 30] {
        let mut receiver = PcmReceiver::new(0, 0, 5);
        let mut file = Vec::new();
        for (n, message) in bytes.chunks(cut).enumerate() {
            if let Some(step) = receiver.on_binary(message, 1_000 + n as u64) {
                file.extend(step.mono);
            }
        }
        let end = receiver.finish(9_000);
        assert_eq!(file, expected);
        assert_eq!(end.samples, 5 + 7);
        assert_eq!(end.discarded, 2);
    }
}

#[test]
fn pieces_of_a_file_make_the_same_track() {
    let whole = streamed(&[(1, &[&[1, 0, 2, 0, 3, 0]])], 5);
    let parts = streamed(&[(1, &[&[1, 0], &[2, 0, 3, 0]])], 5);
    assert_eq!(whole, vec![0, 1, 2, 3, 0]);
    assert_eq!(parts, whole);
}

#[test]
fn receiver_joins_frames_that_messages_tear_apart() {
    let mut receiver = PcmReceiver::new(0, 0, 0);
    assert!(receiver.on_binary(&[0xe8, 0x03], 1_000_000_000).is_none());
    let step = receiver.on_binary(&[0xd0, 0x07, 0x18], 2_000_000_000).unwrap();
    assert_eq!(step.mono, vec![0xdc, 0x05]);
    let opened = step.opened.unwrap();
    assert_eq!(opened.first_ns, 2_000_000_000);
    assert_eq!(opened.timeline_start, 96_000);
    let end = receiver.finish(3_000_000_000);
    assert_eq!(end.samples, 1);
    assert_eq!(end.first_ns, 2_000_000_000);
    assert_eq!(end.last_ns, 3_000_000_000);
    assert_eq!(end.discarded, 1);
}

#[test]
fn receiver_stores_progress_every_five_seconds() {
    let mut receiver = PcmReceiver::new(7, 3, 239_999);
    let step = receiver.on_binary(&[0; 8], 50).unwrap();
    assert!(step.opened.is_none());
    let checkpoint = step.checkpoint.unwrap();
    assert_eq!(checkpoint.samples, 240_001);
    assert_eq!(checkpoint.first_ns, 7);
    assert_eq!(checkpoint.timeline_start, 3);
    assert!(receiver.on_binary(&[0; 8], 50).unwrap().checkpoint.is_none());
    let end = receiver.finish(3);
    assert_eq!(end.last_ns, 7);
    assert_eq!(end.samples, 240_003);
}
