use retro_frontend::audio::{AudioBuffer, AudioBufferPool, SampleRing, BUFFER_LENGTH, POOL_SIZE};

#[test]
fn audio_buffer_new_is_silent() {
    let b = AudioBuffer::new(5);
    assert_eq!(b.len(), 5);
    assert_eq!(b.as_ptr(), &[0i16, 0, 0, 0, 0][..]);
}

#[test]
fn audio_buffer_extend_and_clear() {
    let mut b = AudioBuffer::new(0);
    b.extend_from_slice(&[1, -2, 3]);
    b.extend_from_slice(&[4]);
    assert_eq!(b.as_ptr(), &[1i16, -2, 3, 4][..]);
    b.clear();
    assert_eq!(b.len(), 0);
}

#[test]
fn buffer_length_is_64_ms_at_48_khz() {
    assert_eq!(BUFFER_LENGTH, 3072);
    assert_eq!(POOL_SIZE, 20);
}

#[test]
fn ring_keeps_newest_samples_in_order() {
    let mut r = SampleRing::new(8);
    let mut all: Vec<i16> = Vec::new();
    let mut next: i16 = 0;
    for chunk in [2usize, 4, 6, 2, 4, 2] {
        let batch: Vec<i16> = (0..chunk).map(|k| next + k as i16).collect();
        next += chunk as i16;
        all.extend_from_slice(&batch);
        r.push_samples(&batch);
    }
    assert_eq!(all.len(), 20);
    let mut out = AudioBuffer::new(0);
    r.append_to(&mut out);
    assert_eq!(out.as_ptr(), &all[all.len() - 8..]);
}

#[test]
fn ring_batch_longer_than_capacity_keeps_its_tail() {
    let mut r = SampleRing::new(4);
    r.push_samples(&[1, 2]);
    r.push_samples(&[10, 11, 12, 13, 14, 15]);
    let mut out = AudioBuffer::new(0);
    r.append_to(&mut out);
    assert_eq!(out.as_ptr(), &[12i16, 13, 14, 15][..]);
    assert_eq!(r.len(), 4);
    assert_eq!(r.max_len(), 4);
}

#[test]
fn ring_under_capacity_keeps_everything() {
    let mut r = SampleRing::new(10);
    r.push_samples(&[1, 2, 3]);
    r.push_samples(&[4, 5]);
    let mut out = AudioBuffer::new(0);
    r.append_to(&mut out);
    assert_eq!(out.as_ptr(), &[1i16, 2, 3, 4, 5][..]);
    r.clear();
    assert_eq!(r.len(), 0);
}

#[test]
fn submit_reports_every_frame_accepted() {
    let mut pool = AudioBufferPool::new(3, 4);
    let samples: Vec<i16> = (0..20).collect();
    assert_eq!(pool.submit(&samples), 10);
    assert_eq!(pool.submit(&[]), 0);
    let mut out = AudioBuffer::new(0);
    pool.drain(&mut out);
    assert_eq!(out.as_ptr(), &[16i16, 17, 18, 19][..]);
}

#[test]
fn submits_exceeding_capacity_keep_most_recent() {
    let mut pool = AudioBufferPool::new(2, 6);
    pool.submit(&[1, 2, 3, 4]);
    pool.submit(&[5, 6]);
    pool.submit(&[7, 8, 9, 10]);
    let mut out = AudioBuffer::new(0);
    pool.drain(&mut out);
    assert_eq!(out.as_ptr(), &[5i16, 6, 7, 8, 9, 10][..]);
}

#[test]
fn drain_appends_and_empties() {
    let mut pool = AudioBufferPool::new(1, 8);
    pool.submit(&[1, 2]);
    let mut out = AudioBuffer::new(0);
    out.extend_from_slice(&[9]);
    pool.drain(&mut out);
    assert_eq!(out.as_ptr(), &[9i16, 1, 2][..]);
    let mut again = AudioBuffer::new(0);
    pool.drain(&mut again);
    assert_eq!(again.len(), 0);
    assert_eq!(pool.pool_len(), 1);
}

#[test]
fn empty_pool_allocates_one_buffer() {
    let mut pool = AudioBufferPool::new(0, 4);
    assert_eq!(pool.pool_len(), 0);
    pool.submit(&[1, 2]);
    assert_eq!(pool.pool_len(), 1);
    pool.submit(&[3, 4]);
    assert_eq!(pool.pool_len(), 1);
}

#[test]
fn pool_size_steady_after_ten_thousand_cycles() {
    let mut pool = AudioBufferPool::with_defaults();
    assert_eq!(pool.pool_len(), POOL_SIZE);
    assert_eq!(pool.max_buffer_len(), BUFFER_LENGTH);
    let batch: Vec<i16> = (0..1600).map(|k| (k % 200) as i16).collect();
    let mut out = AudioBuffer::new(0);
    for cycle in 0..10_000 {
        pool.submit(&batch);
        pool.submit(&batch);
        if cycle % 2 == 0 {
            out.clear();
            pool.drain(&mut out);
            assert!(out.len() <= BUFFER_LENGTH);
        }
    }
    assert_eq!(pool.pool_len(), POOL_SIZE);
}
