use puma::writes::write_chunk_at;

#[test]
fn disjoint_chunks_land_the_same_bytes_in_either_order() {
    let d1: Vec<u8> = vec![1, 2, 3, 4];
    let d2: Vec<u8> = vec![9, 8, 7];
    let mut first_then_second: Vec<u8> = Vec::new();
    write_chunk_at(&mut first_then_second, 0, &d1);
    write_chunk_at(&mut first_then_second, 4, &d2);
    let mut second_then_first: Vec<u8> = Vec::new();
    write_chunk_at(&mut second_then_first, 4, &d2);
    write_chunk_at(&mut second_then_first, 0, &d1);
    assert_eq!(first_then_second, second_then_first);
    assert_eq!(first_then_second, vec![1, 2, 3, 4, 9, 8, 7]);
}

#[test]
fn each_offset_holds_its_own_chunks_byte() {
    let mut file: Vec<u8> = Vec::new();
    write_chunk_at(&mut file, 6, &[10, 11]);
    write_chunk_at(&mut file, 0, &[1, 2, 3]);
    assert_eq!(file.len(), 8);
    assert_eq!(&file[0..3], &[1, 2, 3]);
    assert_eq!(&file[6..8], &[10, 11]);
}

#[test]
fn a_gap_between_writes_reads_as_zero() {
    let mut file: Vec<u8> = Vec::new();
    write_chunk_at(&mut file, 3, &[5]);
    assert_eq!(file, vec![0, 0, 0, 5]);
}

#[test]
fn a_dropped_chunk_leaves_detectable_wrong_bytes() {
    // three four-byte chunks; the middle one is dropped
    let source: Vec<u8> = (1..=12).collect();
    let mut file: Vec<u8> = Vec::new();
    write_chunk_at(&mut file, 0, &source[0..4]);
    write_chunk_at(&mut file, 8, &source[8..12]);
    assert_eq!(file.len(), 12);
    assert_ne!(&file[4..8], &source[4..8]);
    assert_eq!(&file[4..8], &[0, 0, 0, 0]);
}

#[test]
fn overlap_with_existing_content_overwrites_only_its_range() {
    let mut file: Vec<u8> = vec![1, 1, 1, 1, 1];
    write_chunk_at(&mut file, 1, &[7, 7]);
    assert_eq!(file, vec![1, 7, 7, 1, 1]);
}
