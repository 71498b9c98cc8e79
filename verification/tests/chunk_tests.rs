use backup_util::CHUNK_SIZE;
use backup_util::chunks::chunk_count_of;
use backup_util::chunks::chunk_of;
use backup_util::chunks::split_chunks;

fn pattern_bytes(n: usize) -> Vec<u8> {
    let block: Vec<u8> = (0..1024u32).map(|i| (i % 251) as u8).collect();
    let mut data = Vec::with_capacity(n);
    while data.len() + block.len() <= n {
        data.extend_from_slice(&block);
    }
    let rest = n - data.len();
    data.extend_from_slice(&block[..rest]);
    assert_eq!(data.len(), n);
    data
}

fn check_reassembly(n: usize) {
    let data = pattern_bytes(n);
    let chunks = split_chunks(&data, CHUNK_SIZE);
    let expected_count = if n == 0 { 1 } else { (n + CHUNK_SIZE - 1) / CHUNK_SIZE };
    assert_eq!(chunks.len(), expected_count);
    for (i, c) in chunks.iter().enumerate() {
        if i + 1 < chunks.len() {
            assert_eq!(c.len(), CHUNK_SIZE);
        } else {
            assert!(c.len() <= CHUNK_SIZE);
        }
    }
    let mut joined: Vec<u8> = Vec::with_capacity(n);
    for c in &chunks {
        joined.extend_from_slice(c);
    }
    assert_eq!(joined, data);
}

#[test]
fn reassembles_empty_stream() {
    check_reassembly(0);
}

#[test]
fn reassembles_one_byte() {
    check_reassembly(1);
}

#[test]
fn reassembles_one_under_chunk_size() {
    check_reassembly(CHUNK_SIZE - 1);
}

#[test]
fn reassembles_exactly_chunk_size() {
    check_reassembly(CHUNK_SIZE);
}

#[test]
fn reassembles_one_over_chunk_size() {
    check_reassembly(CHUNK_SIZE + 1);
}

#[test]
fn reassembles_three_chunk_sizes() {
    check_reassembly(3 * CHUNK_SIZE);
}

#[test]
fn empty_stream_yields_one_empty_chunk() {
    let chunks = split_chunks(&[], CHUNK_SIZE);
    assert_eq!(chunks.len(), 1);
    assert!(chunks[0].is_empty());
}

#[test]
fn chunk_count_of_small_sizes() {
    assert_eq!(chunk_count_of(0, 4), 1);
    assert_eq!(chunk_count_of(1, 4), 1);
    assert_eq!(chunk_count_of(4, 4), 1);
    assert_eq!(chunk_count_of(5, 4), 2);
    assert_eq!(chunk_count_of(8, 4), 2);
    assert_eq!(chunk_count_of(9, 4), 3);
}

#[test]
fn chunk_of_matches_split() {
    let data: Vec<u8> = (0..23u8).collect();
    let chunks = split_chunks(&data, 5);
    assert_eq!(chunks.len(), 5);
    for i in 0..chunks.len() {
        assert_eq!(chunk_of(&data, i, 5), chunks[i]);
    }
    assert_eq!(chunks[4], vec![20, 21, 22]);
}
