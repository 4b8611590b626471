use transecho::frames::{
    deinterleave, fit_length, input_chunk_frames, interleave_channels, split_frames, upmix,
    ChunkBuffer, NETWORK_FRAME_SAMPLES,
};
use transecho::playback::{get_system_volume, sample_words, set_system_volume};
use transecho::queue::{max_buffer_samples, PlaybackQueue};
use transecho::text::i32_to_decimal;
use transecho::wsola::{WsolaState, WsolaStep, FRAME_SIZE, OVERLAP_SIZE};

#[test]
fn pcm_is_cut_into_network_frames() {
    let pcm: Vec<i16> = (0..3000).map(|i| i as i16).collect();
    let frames = split_frames(&pcm, NETWORK_FRAME_SAMPLES);
    assert_eq!(frames.len(), 3);
    assert_eq!(frames[0].len(), 1280);
    assert_eq!(frames[1].len(), 1280);
    assert_eq!(frames[2].len(), 440);
    assert_eq!(frames.concat(), pcm);
    assert!(split_frames::<i16>(&[], 1280).is_empty());
}

#[test]
fn capture_is_collected_into_chunks() {
    let mut buf: ChunkBuffer<u32> = ChunkBuffer::new(4);
    buf.push(&[1, 2, 3]);
    assert!(buf.pop_chunk().is_none());
    buf.push(&[4, 5, 6, 7, 8, 9]);
    assert_eq!(buf.pop_chunk(), Some(vec![1, 2, 3, 4]));
    assert_eq!(buf.pop_chunk(), Some(vec![5, 6, 7, 8]));
    assert!(buf.pop_chunk().is_none());
    assert_eq!(buf.len(), 1);
    assert_eq!(buf.take_rest(), vec![9]);
    assert_eq!(buf.len(), 0);
    assert_eq!(buf.chunk_len(), 4);
}

#[test]
fn channels_split_and_merge() {
    let stereo = vec![10, 20, 11, 21, 12, 22, 13];
    let chans = deinterleave(&stereo, 2);
    assert_eq!(chans, vec![vec![10, 11, 12, 13], vec![20, 21, 22]]);
    let merged = interleave_channels(&vec![vec![1, 2, 3], vec![7, 8]], 0);
    assert_eq!(merged, vec![1, 7, 2, 8, 3, 0]);
    let left = vec![1, 2, 3];
    let right = vec![4, 5, 6];
    let back = deinterleave(&interleave_channels(&vec![left.clone(), right.clone()], 0), 2);
    assert_eq!(back, vec![left, right]);
    assert_eq!(interleave_channels(&vec![vec![5, 6]], 0), vec![5, 6]);
}

#[test]
fn mono_is_upmixed_and_fitted() {
    assert_eq!(upmix(&[1, 2], 3), vec![1, 1, 1, 2, 2, 2]);
    assert_eq!(upmix(&[1, 2], 1), vec![1, 2]);
    assert_eq!(fit_length(&[1, 2, 3], 5, 0), vec![1, 2, 3, 0, 0]);
    assert_eq!(fit_length(&[1, 2, 3], 2, 0), vec![1, 2]);
    assert_eq!(input_chunk_frames(48000), 3840);
    assert_eq!(input_chunk_frames(44100), 3528);
}

#[test]
fn playback_queue_keeps_current_audio() {
    assert_eq!(max_buffer_samples(48000, 2, 15000), 1_440_000);
    assert_eq!(max_buffer_samples(44100, 1, 5), 220);
    let mut q: PlaybackQueue<i32> = PlaybackQueue::new(5);
    assert_eq!(q.push_truncated(&[1, 2, 3]), 3);
    assert_eq!(q.push_truncated(&[4, 5, 6, 7]), 2);
    assert_eq!(q.len(), 5);
    assert_eq!(q.push_truncated(&[8]), 0);
    assert_eq!(q.pop_or(0), 1);
    assert_eq!(q.pop_or(0), 2);
    assert_eq!(q.push_truncated(&[9]), 1);
    let drained: Vec<i32> = (0..5).map(|_| q.pop_or(-1)).collect();
    assert_eq!(drained, vec![3, 4, 5, 9, -1]);
    assert_eq!(q.capacity(), 5);
}

#[test]
fn speech_bytes_become_words() {
    let words = sample_words(&[1, 2, 3, 4, 5, 6, 7, 8, 9, 10]);
    assert_eq!(words, vec![[1, 2, 3, 4], [5, 6, 7, 8]]);
    assert!(sample_words(&[1, 2, 3]).is_empty());
}

#[test]
fn system_volume() {
    assert_eq!(set_system_volume(30), 30);
    assert_eq!(set_system_volume(250), 100);
    assert_eq!(get_system_volume(Some(" 42\n")), 42);
    assert_eq!(get_system_volume(Some("+7")), 7);
    assert_eq!(get_system_volume(Some("missing value")), 50);
    assert_eq!(get_system_volume(Some("-3")), 50);
    assert_eq!(get_system_volume(None), 50);
    assert_eq!(get_system_volume(Some("150\n")), 100);
    assert_eq!(get_system_volume(Some("100")), 100);
}

#[test]
fn decimal_rendering() {
    assert_eq!(i32_to_decimal(0), "0");
    assert_eq!(i32_to_decimal(45000001), "45000001");
    assert_eq!(i32_to_decimal(-12), "-12");
    assert_eq!(i32_to_decimal(i32::MIN), "-2147483648");
    assert_eq!(i32_to_decimal(i32::MAX), "2147483647");
}

#[test]
fn wsola_schedule() {
    let mut w: WsolaState<i32> = WsolaState::new(432);
    w.push_input(&vec![0; 400]);
    assert_eq!(w.next_step(), WsolaStep::NeedInput);
    let input: Vec<i32> = (0..1200).collect();
    w.push_input(&input[400..]);
    assert_eq!(w.next_step(), WsolaStep::Start);
    w.start();
    // first frame copied; the input is compacted to keep the search radius
    assert_eq!(w.tail_len(), FRAME_SIZE);
    assert_eq!(w.input_len(), 1200 - (432 - 96));
    match w.next_step() {
        WsolaStep::Search { min_start, max_start, center } => {
            assert_eq!((min_start, max_start, center), (0, 192, 96));
            let blended = vec![-1; OVERLAP_SIZE];
            assert_eq!(w.reference().len(), OVERLAP_SIZE);
            assert_eq!(w.candidate(150)[0], 150 + 336);
            w.commit(150, &blended);
        }
        other => panic!("unexpected {:?}", other),
    }
    assert_eq!(w.tail_len(), FRAME_SIZE + FRAME_SIZE - OVERLAP_SIZE);
    let stable = w.drain_stable();
    assert_eq!(stable.len(), 2 * FRAME_SIZE - 2 * OVERLAP_SIZE);
    assert_eq!(stable[0], 0);
    assert_eq!(w.tail_len(), OVERLAP_SIZE);
    let rest = w.flush();
    assert_eq!(rest.len(), OVERLAP_SIZE);
    assert_eq!(rest[OVERLAP_SIZE - 1], 150 + 336 + FRAME_SIZE as i32 - 1);
}
