use header_downloader::header_slices::{
    align_block_num_to_slice_start, HeaderSliceStatus, HeaderSlices, HEADER_MEM_SIZE,
    HEADER_SLICE_SIZE,
};
use header_downloader::models::{BlockHash, BlockHeader, BlockNumber, PeerId};

fn mem_for(slices: usize) -> usize {
    slices * HEADER_SLICE_SIZE * HEADER_MEM_SIZE
}

fn hash_of(n: u64) -> BlockHash {
    let mut b = [0u8; 32];
    b[..8].copy_from_slice(&n.to_le_bytes());
    b[31] = 0xab;
    BlockHash(b)
}

fn slice_headers(start: u64) -> Vec<BlockHeader> {
    (start..start + HEADER_SLICE_SIZE as u64)
        .map(|n| BlockHeader {
            number: BlockNumber(n),
            hash: hash_of(n),
            parent_hash: hash_of(n.wrapping_sub(1)),
        })
        .collect()
}

fn starts(w: &HeaderSlices) -> Vec<u64> {
    (0..w.len()).map(|i| w.slice(i).start_block_num.0).collect()
}

#[test]
fn align_rounds_down_to_slice_start() {
    assert_eq!(align_block_num_to_slice_start(BlockNumber(0)), BlockNumber(0));
    assert_eq!(align_block_num_to_slice_start(BlockNumber(191)), BlockNumber(0));
    assert_eq!(align_block_num_to_slice_start(BlockNumber(192)), BlockNumber(192));
    assert_eq!(align_block_num_to_slice_start(BlockNumber(500)), BlockNumber(384));
}

#[test]
fn new_window_is_full_of_empty_slices() {
    let w = HeaderSlices::new(mem_for(3), BlockNumber(0), BlockNumber(576));
    assert_eq!(w.len(), 3);
    assert_eq!(starts(&w), vec![0, 192, 384]);
    assert_eq!(w.clone_statuses(), vec![HeaderSliceStatus::Empty; 3]);
    assert_eq!(w.min_block_num(), BlockNumber(0));
    assert_eq!(w.max_block_num(), BlockNumber(576));
    assert_eq!(w.final_block_num(), BlockNumber(576));
    assert_eq!(w.count_slices_in_status(HeaderSliceStatus::Empty), 3);
    assert!(!w.is_empty_at_final_position());
}

#[test]
fn window_is_capped_by_memory() {
    let w = HeaderSlices::new(mem_for(3), BlockNumber(0), BlockNumber(1920));
    assert_eq!(w.len(), 3);
    assert_eq!(w.max_block_num(), BlockNumber(576));
    let w = HeaderSlices::new(mem_for(3) - 1, BlockNumber(0), BlockNumber(1920));
    assert_eq!(w.len(), 2);
}

#[test]
fn window_is_capped_by_range() {
    let w = HeaderSlices::new(mem_for(10), BlockNumber(384), BlockNumber(768));
    assert_eq!(w.len(), 2);
    assert_eq!(starts(&w), vec![384, 576]);
}

#[test]
fn counters_follow_status_changes() {
    let mut w = HeaderSlices::new(mem_for(3), BlockNumber(0), BlockNumber(576));
    w.start_request(1, 10);
    assert_eq!(w.slice(1).status, HeaderSliceStatus::Waiting);
    assert_eq!(w.slice(1).request_time, Some(10));
    assert_eq!(w.slice(1).request_attempt, 1);
    w.accept_headers(1, PeerId(7), slice_headers(192));
    assert_eq!(w.slice(1).status, HeaderSliceStatus::Downloaded);
    assert_eq!(w.slice(1).request_time, None);
    assert_eq!(w.slice(1).from_peer_id, Some(PeerId(7)));
    w.set_slice_status(1, HeaderSliceStatus::Invalid);
    let counters = w.status_counters();
    assert_eq!(counters.len(), 7);
    assert_eq!(counters[0], (HeaderSliceStatus::Empty, 2));
    assert_eq!(counters[5], (HeaderSliceStatus::Invalid, 1));
    let total: usize = counters.iter().map(|c| c.1).sum();
    assert_eq!(total, w.len());
    w.set_slice_status(1, HeaderSliceStatus::Empty);
    assert!(w.slice(1).headers.is_none());
    assert!(w.slice(1).from_peer_id.is_none());
    assert_eq!(w.slice(1).request_attempt, 1);
    assert_eq!(w.count_slices_in_status(HeaderSliceStatus::Empty), 3);
    assert_eq!(w.count_slices_in_status(HeaderSliceStatus::Invalid), 0);
}

#[test]
fn finds_slices_by_status_and_start() {
    let mut w = HeaderSlices::new(mem_for(5), BlockNumber(0), BlockNumber(960));
    w.start_request(1, 0);
    w.start_request(3, 0);
    w.start_request(4, 0);
    assert_eq!(w.find_by_status(HeaderSliceStatus::Waiting), Some(1));
    assert_eq!(w.find_by_status(HeaderSliceStatus::Saved), None);
    assert_eq!(w.find_batch_by_status(HeaderSliceStatus::Waiting, 2), vec![1, 3]);
    assert_eq!(w.find_batch_by_status(HeaderSliceStatus::Waiting, 10), vec![1, 3, 4]);
    assert_eq!(w.find_batch_by_status(HeaderSliceStatus::Waiting, 0), Vec::<usize>::new());
    assert_eq!(w.find_by_start_block_num(BlockNumber(576)), Some(3));
    assert_eq!(w.find_by_start_block_num(BlockNumber(100)), None);
    assert_eq!(w.find_by_start_block_num(BlockNumber(960)), None);
    assert!(w.has_one_of_statuses(&[HeaderSliceStatus::Saved, HeaderSliceStatus::Waiting]));
    assert!(!w.has_one_of_statuses(&[HeaderSliceStatus::Saved, HeaderSliceStatus::Invalid]));
    assert!(!w.has_one_of_statuses(&[]));
}

fn save_slice(w: &mut HeaderSlices, i: usize) {
    let start = w.slice(i).start_block_num.0;
    w.start_request(i, 0);
    w.accept_headers(i, PeerId(1), slice_headers(start));
    w.set_slice_status(i, HeaderSliceStatus::VerifiedInternally);
    w.set_slice_status(i, HeaderSliceStatus::Verified);
    w.set_slice_status(i, HeaderSliceStatus::Saved);
}

#[test]
fn remove_takes_only_the_head() {
    let mut w = HeaderSlices::new(mem_for(3), BlockNumber(0), BlockNumber(1920));
    save_slice(&mut w, 0);
    save_slice(&mut w, 1);
    w.remove(HeaderSliceStatus::Saved);
    assert_eq!(starts(&w), vec![384]);
    assert_eq!(w.min_block_num(), BlockNumber(384));
    assert_eq!(w.max_block_num(), BlockNumber(576));
    assert_eq!(w.count_slices_in_status(HeaderSliceStatus::Saved), 0);
    // an empty slice behind a non-matching head stays
    let mut w = HeaderSlices::new(mem_for(3), BlockNumber(0), BlockNumber(576));
    w.start_request(0, 0);
    w.remove(HeaderSliceStatus::Empty);
    assert_eq!(w.len(), 3);
}

#[test]
fn refill_appends_up_to_capacity_and_final() {
    let mut w = HeaderSlices::new(mem_for(3), BlockNumber(0), BlockNumber(768));
    save_slice(&mut w, 0);
    save_slice(&mut w, 1);
    w.remove(HeaderSliceStatus::Saved);
    w.refill();
    assert_eq!(starts(&w), vec![384, 576]);
    assert_eq!(w.max_block_num(), BlockNumber(768));
    assert_eq!(w.count_slices_in_status(HeaderSliceStatus::Empty), 2);
    for i in 0..w.len() {
        save_slice(&mut w, i);
    }
    w.remove(HeaderSliceStatus::Saved);
    w.refill();
    assert_eq!(w.len(), 0);
    assert!(w.is_empty_at_final_position());
}

#[test]
fn slices_stay_adjacent_after_moves() {
    let mut w = HeaderSlices::new(mem_for(4), BlockNumber(192), BlockNumber(1920));
    save_slice(&mut w, 0);
    w.remove(HeaderSliceStatus::Saved);
    w.refill();
    let s = starts(&w);
    for k in 1..s.len() {
        assert_eq!(s[k], s[k - 1] + 192);
    }
    assert_eq!(w.max_block_num().0, s[0] + (s.len() as u64) * 192);
}

#[test]
fn status_names_and_order() {
    let all = HeaderSliceStatus::all();
    assert_eq!(all.len(), 7);
    assert_eq!(all[0], HeaderSliceStatus::Empty);
    assert_eq!(all[6], HeaderSliceStatus::Saved);
    assert_eq!(HeaderSliceStatus::VerifiedInternally.name(), "VerifiedInternally");
    assert_eq!(HeaderSliceStatus::Saved.index(), 6);
}

#[test]
fn hashes_compare_by_bytes() {
    assert!(hash_of(5).same_as(&hash_of(5)));
    assert!(!hash_of(5).same_as(&hash_of(6)));
}

#[test]
fn same_status_is_a_no_op() {
    let mut w = HeaderSlices::new(mem_for(3), BlockNumber(0), BlockNumber(576));
    w.start_request(0, 42);
    w.set_slice_status(0, HeaderSliceStatus::Waiting);
    assert_eq!(w.slice(0).status, HeaderSliceStatus::Waiting);
    assert_eq!(w.slice(0).request_time, Some(42));
    assert_eq!(w.count_slices_in_status(HeaderSliceStatus::Waiting), 1);
    w.accept_headers(0, PeerId(3), slice_headers(0));
    w.set_slice_status(0, HeaderSliceStatus::Downloaded);
    assert_eq!(w.slice(0).status, HeaderSliceStatus::Downloaded);
    assert_eq!(w.slice(0).from_peer_id, Some(PeerId(3)));
    assert_eq!(w.count_slices_in_status(HeaderSliceStatus::Downloaded), 1);
    assert_eq!(w.count_slices_in_status(HeaderSliceStatus::Empty), 2);
}

#[test]
fn empty_range_needs_no_memory() {
    let w = HeaderSlices::new(0, BlockNumber(384), BlockNumber(384));
    assert_eq!(w.len(), 0);
    assert!(w.is_empty_at_final_position());
}
