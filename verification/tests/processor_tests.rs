use audio_recorder::processor::{
    downmix_frames, tail_output_len, ChunkQueue, RESAMPLER_CHANNELS, RESAMPLER_CHUNK_SIZE,
    RESAMPLER_SUB_CHUNKS,
};

#[test]
fn resampler_constants() {
    assert_eq!(RESAMPLER_CHUNK_SIZE, 1024);
    assert_eq!(RESAMPLER_SUB_CHUNKS, 2);
    assert_eq!(RESAMPLER_CHANNELS, 1);
}

#[test]
fn mono_needs_no_downmix() {
    let s = [1, 2, 3];
    assert!(downmix_frames(&s, 1).is_none());
}

#[test]
fn stereo_frames_drop_partial_tail() {
    let s = [1, 2, 3, 4, 5];
    let frames = downmix_frames(&s, 2).unwrap();
    assert_eq!(frames.len(), 2);
    assert_eq!(frames[0], &[1, 2]);
    assert_eq!(frames[1], &[3, 4]);
}

#[test]
fn six_channel_frames() {
    let s: Vec<u32> = (0..13).collect();
    let frames = downmix_frames(&s, 6).unwrap();
    assert_eq!(frames.len(), 2);
    assert_eq!(frames[1], &[6, 7, 8, 9, 10, 11]);
    let empty: [u32; 0] = [];
    assert_eq!(downmix_frames(&empty, 2).unwrap().len(), 0);
}

#[test]
fn tail_output_len_values() {
    // 300 of 1024 frames, 941 written: 300 * 941 / 1024 = 275.68 -> 276
    assert_eq!(tail_output_len(300, 941, 1024), 276);
    // exactly half rounds up: 1 * 3 / 2 = 1.5 -> 2
    assert_eq!(tail_output_len(1, 3, 2), 2);
    // below half rounds down: 1 * 1 / 4 = 0.25 -> 0
    assert_eq!(tail_output_len(1, 1, 4), 0);
    // never more than written
    assert_eq!(tail_output_len(2000, 10, 1024), 10);
    assert_eq!(tail_output_len(0, 940, 1024), 0);
    // agrees with the float computation on a chunk of 1024
    for remaining in [1usize, 17, 511, 512, 513, 1000, 1023] {
        for written in [0usize, 1, 470, 940, 941, 1882] {
            let ratio = written as f64 / 1024.0;
            let expected = ((remaining as f64 * ratio).round() as usize).min(written);
            assert_eq!(tail_output_len(remaining, written, 1024), expected);
        }
    }
}

fn write(q: &mut ChunkQueue<i32>, samples: &[i32]) -> Vec<Vec<i32>> {
    q.push_slice(samples);
    let mut chunks = Vec::new();
    while let Some(c) = q.front_chunk() {
        chunks.push(c);
        q.pop_chunk();
    }
    chunks
}

#[test]
fn chunk_queue_hands_out_whole_chunks_in_order() {
    let mut q: ChunkQueue<i32> = ChunkQueue::new(3);
    assert_eq!(q.chunk_size(), 3);
    assert!(write(&mut q, &[1, 2]).is_empty());
    assert_eq!(q.pending_len(), 2);
    let chunks = write(&mut q, &[3, 4, 5, 6, 7]);
    assert_eq!(chunks, vec![vec![1, 2, 3], vec![4, 5, 6]]);
    // 2 + 5 = 7 samples: 7 % 3 = 1 left waiting
    assert_eq!(q.pending_len(), 1);
}

#[test]
fn chunk_queue_keeps_a_chunk_until_popped() {
    let mut q: ChunkQueue<i32> = ChunkQueue::new(2);
    q.push_slice(&[1, 2, 3, 4, 5]);
    // the first chunk is looked at but its processing fails: nothing is released
    assert_eq!(q.front_chunk(), Some(vec![1, 2]));
    assert_eq!(q.pending_len(), 5);
    assert_eq!(q.front_chunk(), Some(vec![1, 2]));
    q.pop_chunk();
    assert_eq!(q.pending_len(), 3);
    assert_eq!(q.front_chunk(), Some(vec![3, 4]));
    q.pop_chunk();
    assert_eq!(q.front_chunk(), None);
    assert_eq!(q.pending_len(), 1);
}

#[test]
fn chunk_queue_split_writes_match_one_write() {
    let mut two: ChunkQueue<i32> = ChunkQueue::new(4);
    let mut one: ChunkQueue<i32> = ChunkQueue::new(4);
    let mut chunks_two = write(&mut two, &[1, 2, 3]);
    chunks_two.extend(write(&mut two, &[4, 5, 6, 7, 8, 9]));
    let chunks_one = write(&mut one, &[1, 2, 3, 4, 5, 6, 7, 8, 9]);
    assert_eq!(chunks_two, chunks_one);
    assert_eq!(two.pending_len(), one.pending_len());
    assert_eq!(two.take_tail(0), one.take_tail(0));
}

#[test]
fn chunk_queue_push_slice_only_waits() {
    let mut q: ChunkQueue<i32> = ChunkQueue::new(2);
    q.push_slice(&[1, 2, 3]);
    assert_eq!(q.pending_len(), 3);
}

#[test]
fn chunk_queue_tail_is_padded() {
    let mut q: ChunkQueue<i32> = ChunkQueue::new(4);
    assert!(q.take_tail(0).is_none());
    q.push_slice(&[9, 8]);
    let (padded, n) = q.take_tail(0).unwrap();
    assert_eq!(padded, vec![9, 8, 0, 0]);
    assert_eq!(n, 2);
    assert_eq!(q.pending_len(), 0);
    assert!(q.take_tail(0).is_none());
}

#[test]
fn chunk_queue_tail_is_cut_to_chunk() {
    let mut q: ChunkQueue<i32> = ChunkQueue::new(2);
    q.push_slice(&[1, 2, 3]);
    let (padded, n) = q.take_tail(0).unwrap();
    assert_eq!(padded, vec![1, 2]);
    assert_eq!(n, 3);
}
