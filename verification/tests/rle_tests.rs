use sketchover::rle::rle_compress;
use sketchover::rle::rle_decompress;

#[test]
fn compress_builds_maximal_runs() {
    let buf: Vec<u32> = vec![7, 7, 7, 0, 0, 9];
    let e = rle_compress(&buf);
    assert_eq!(e, vec![(3, 7), (2, 0), (1, 9)]);
}

#[test]
fn compress_single_run() {
    let buf: Vec<u32> = vec![4, 4, 4, 4];
    let e = rle_compress(&buf);
    assert_eq!(e, vec![(4, 4)]);
}

#[test]
fn compress_trailing_run_of_length_one() {
    let buf: Vec<u32> = vec![1, 1, 2];
    let e = rle_compress(&buf);
    assert_eq!(e, vec![(2, 1), (1, 2)]);
}

#[test]
fn run_lengths_sum_to_buffer_length() {
    let buf: Vec<u32> = vec![5, 5, 0, 0, 0, 1, 2, 2, 2, 2];
    let e = rle_compress(&buf);
    let total: u64 = e.iter().map(|&(count, _)| count as u64).sum();
    assert_eq!(total, buf.len() as u64);
}

#[test]
fn compress_decompress_round_trip() {
    let buf: Vec<u32> = vec![0, 0, 3, 3, 3, 0, 8, 8, 0, 0, 0, 0];
    let e = rle_compress(&buf);
    let mut out: Vec<u32> = vec![99; buf.len()];
    rle_decompress(&mut out, &e);
    assert_eq!(out, buf);
}

#[test]
fn decompress_writes_runs_in_order() {
    let e: Vec<(u32, u32)> = vec![(2, 10), (1, 20), (3, 30)];
    let mut out: Vec<u32> = vec![0; 6];
    rle_decompress(&mut out, &e);
    assert_eq!(out, vec![10, 10, 20, 30, 30, 30]);
}
