use header_downloader::downloader::{
    check_headers_cover, check_headers_linked, Checkpoints, Downloader, DownloaderError,
    DownloaderRunState, FetchRequest, StagesDue, MAX_REQUEST_ATTEMPTS, REQUEST_TIMEOUT_MS,
};
use header_downloader::header_slices::{HeaderSliceStatus, HEADER_MEM_SIZE, HEADER_SLICE_SIZE};
use header_downloader::models::{BlockHash, BlockHeader, BlockNumber, PeerId};

fn mem_for(slices: usize) -> usize {
    slices * HEADER_SLICE_SIZE * HEADER_MEM_SIZE
}

fn hash_of(n: u64) -> BlockHash {
    let mut b = [0u8; 32];
    b[..8].copy_from_slice(&n.to_le_bytes());
    b[31] = 0xab;
    BlockHash(b)
}

fn slice_headers(start: u64) -> Vec<BlockHeader> {
    (start..start + HEADER_SLICE_SIZE as u64)
        .map(|n| BlockHeader {
            number: BlockNumber(n),
            hash: hash_of(n),
            parent_hash: hash_of(n.wrapping_sub(1)),
        })
        .collect()
}

/// Entry k holds the hash of the header that ends the slice before k * 192.
fn checkpoints(final_block: u64) -> Checkpoints {
    let hashes = (0..=final_block / 192)
        .map(|k| hash_of((k * 192).wrapping_sub(1)))
        .collect();
    Checkpoints { hashes }
}

fn downloader(start: u64, final_block: u64, slices: usize) -> Downloader {
    Downloader::new(
        mem_for(slices),
        BlockNumber(start),
        BlockNumber(final_block),
        None,
        checkpoints(final_block),
    )
    .unwrap()
}

/// What a mock peer answers to a request; `None` drops it.
type Responder = dyn FnMut(&FetchRequest, u32) -> Option<Vec<BlockHeader>>;

struct Outcome {
    written: Vec<u64>,
    penalized: Vec<PeerId>,
    requests: usize,
    max_window: usize,
}

/// Runs the stages in turn until the run is done, or `stop_at` blocks have
/// been written.
fn drive(d: &mut Downloader, peers: &[PeerId], respond: &mut Responder, stop_at: Option<u64>) -> Outcome {
    let peers = peers.to_vec();
    let mut out = Outcome { written: vec![], penalized: vec![], requests: 0, max_window: d.window.len() };
    let mut now: u64 = 0;
    let mut attempts: std::collections::HashMap<u64, u32> = Default::default();
    for _ in 0..10_000 {
        if d.is_done() {
            break;
        }
        while let Some(req) = d.fetch_request(now, &peers).unwrap() {
            out.requests += 1;
            let a = attempts.entry(req.start_block_num.0).or_insert(0);
            *a += 1;
            if let Some(h) = respond(&req, *a) {
                d.receive_headers(req.peer_id, h);
            }
        }
        d.verify_internal();
        d.verify_link();
        out.penalized.extend(d.penalize_invalid());
        while let Some(i) = d.next_to_save() {
            let h = d.window.slice(i).headers.as_ref().unwrap();
            out.written.extend(h.iter().map(|x| x.number.0));
            d.mark_saved(i);
            if let Some(s) = stop_at {
                if d.report().final_block_num.0 >= s {
                    return out;
                }
            }
        }
        d.refill_stage();
        out.max_window = out.max_window.max(d.window.len());
        now += 1000;
        d.retry_timed_out(now);
    }
    out
}

fn honest(req: &FetchRequest, _: u32) -> Option<Vec<BlockHeader>> {
    Some(slice_headers(req.start_block_num.0))
}

#[test]
fn happy_path_writes_every_header_in_order() {
    let mut d = downloader(0, 576, 3);
    let out = drive(&mut d, &[PeerId(1), PeerId(2)], &mut honest, None);
    assert_eq!(out.written, (0..576).collect::<Vec<u64>>());
    assert_eq!(out.requests, 3);
    assert!(out.penalized.is_empty());
    let report = d.report();
    assert_eq!(report.final_block_num, BlockNumber(576));
    assert_eq!(report.run_state, DownloaderRunState { max_block_num: BlockNumber(576) });
}

#[test]
fn bad_peer_is_penalized_and_slice_refetched() {
    let mut d = downloader(0, 576, 3);
    let mut respond = |req: &FetchRequest, attempt: u32| {
        let mut h = slice_headers(req.start_block_num.0);
        if req.start_block_num.0 == 192 && attempt == 1 {
            h[5].parent_hash = hash_of(9999);
        }
        Some(h)
    };
    let out = drive(&mut d, &[PeerId(1), PeerId(2)], &mut respond, None);
    assert_eq!(out.penalized, vec![PeerId(2)]);
    assert_eq!(out.requests, 4);
    assert_eq!(out.written, (0..576).collect::<Vec<u64>>());
    assert_eq!(d.report().final_block_num, BlockNumber(576));
}

#[test]
fn lost_response_is_retried_after_timeout() {
    let mut d = downloader(0, 576, 3);
    let mut respond = |req: &FetchRequest, attempt: u32| {
        if req.start_block_num.0 == 384 && attempt == 1 {
            None
        } else {
            Some(slice_headers(req.start_block_num.0))
        }
    };
    let out = drive(&mut d, &[PeerId(1)], &mut respond, None);
    assert_eq!(out.requests, 4);
    assert_eq!(out.written, (0..576).collect::<Vec<u64>>());
}

#[test]
fn checkpoint_mismatch_resets_slice() {
    let mut d = downloader(0, 576, 3);
    let mut respond = |req: &FetchRequest, attempt: u32| {
        let start = req.start_block_num.0;
        if start == 384 && attempt == 1 {
            // consistent inside, but not the canonical chain
            let h = (start..start + 192)
                .map(|n| BlockHeader {
                    number: BlockNumber(n),
                    hash: hash_of(n + 1_000_000),
                    parent_hash: hash_of((n + 1_000_000).wrapping_sub(1)),
                })
                .collect();
            Some(h)
        } else {
            Some(slice_headers(start))
        }
    };
    let out = drive(&mut d, &[PeerId(1), PeerId(2), PeerId(3)], &mut respond, None);
    assert_eq!(out.penalized, vec![PeerId(3)]);
    assert_eq!(out.written, (0..576).collect::<Vec<u64>>());
}

#[test]
fn window_stays_within_memory_bound() {
    let mut d = downloader(0, 1920, 3);
    let out = drive(&mut d, &[PeerId(1)], &mut honest, None);
    assert!(out.max_window <= 3);
    assert_eq!(out.written, (0..1920).collect::<Vec<u64>>());
    assert_eq!(d.report().final_block_num, BlockNumber(1920));
}

#[test]
fn resumed_run_continues_from_run_state() {
    let mut d = downloader(0, 1920, 3);
    let first = drive(&mut d, &[PeerId(1)], &mut honest, Some(960));
    assert_eq!(first.written, (0..960).collect::<Vec<u64>>());
    let state = d.report().run_state;
    assert_eq!(state.max_block_num, BlockNumber(960));
    let mut d2 = Downloader::new(mem_for(3), BlockNumber(0), BlockNumber(1920), Some(state), checkpoints(1920)).unwrap();
    let second = drive(&mut d2, &[PeerId(1)], &mut honest, None);
    assert_eq!(second.written, (960..1920).collect::<Vec<u64>>());
    assert_eq!(d2.report().final_block_num, BlockNumber(1920));
}

#[test]
fn same_inputs_give_same_output() {
    let mut a = downloader(0, 1152, 2);
    let mut b = downloader(0, 1152, 2);
    let oa = drive(&mut a, &[PeerId(1), PeerId(2)], &mut honest, None);
    let ob = drive(&mut b, &[PeerId(1), PeerId(2)], &mut honest, None);
    assert_eq!(oa.written, ob.written);
    assert_eq!(a.report(), b.report());
}

#[test]
fn mem_limit_below_one_slice_fails() {
    let r = Downloader::new(mem_for(1) - 1, BlockNumber(0), BlockNumber(576), None, checkpoints(576));
    assert_eq!(r.err(), Some(DownloaderError::MemLimitTooSmall));
    assert!(Downloader::new(mem_for(1), BlockNumber(0), BlockNumber(576), None, checkpoints(576)).is_ok());
}

#[test]
fn empty_range_completes_without_requests() {
    let mut d = downloader(384, 384, 3);
    assert!(d.is_done());
    assert_eq!(d.fetch_request(0, &vec![PeerId(1)]), Ok(None));
    assert_eq!(d.report().final_block_num, BlockNumber(384));
}

#[test]
fn configuration_errors() {
    let cp = || checkpoints(576);
    let e = |s: u64, f: u64, rs: Option<u64>| {
        Downloader::new(mem_for(3), BlockNumber(s), BlockNumber(f), rs.map(|m| DownloaderRunState { max_block_num: BlockNumber(m) }), cp()).err()
    };
    assert_eq!(e(1, 576, None), Some(DownloaderError::StartNotAligned));
    assert_eq!(e(0, 577, None), Some(DownloaderError::FinalNotAligned));
    assert_eq!(e(576, 192, None), Some(DownloaderError::FinalBeforeStart));
    assert_eq!(e(192, 576, Some(0)), Some(DownloaderError::RunStateOutOfRange));
    assert_eq!(e(0, 576, Some(768)), Some(DownloaderError::RunStateOutOfRange));
    assert_eq!(e(0, 576, Some(100)), Some(DownloaderError::RunStateOutOfRange));
    assert_eq!(e(0, 576, Some(576)), None);
}

#[test]
fn fetch_uses_peers_round_robin() {
    let mut d = downloader(0, 576, 3);
    let peers = vec![PeerId(5), PeerId(6)];
    let r1 = d.fetch_request(0, &peers).unwrap().unwrap();
    let r2 = d.fetch_request(0, &peers).unwrap().unwrap();
    let r3 = d.fetch_request(0, &peers).unwrap().unwrap();
    assert_eq!((r1.peer_id, r1.start_block_num, r1.count), (PeerId(5), BlockNumber(0), 192));
    assert_eq!((r2.peer_id, r2.start_block_num), (PeerId(6), BlockNumber(192)));
    assert_eq!((r3.peer_id, r3.start_block_num), (PeerId(5), BlockNumber(384)));
    assert_eq!(d.fetch_request(0, &peers), Ok(None));
    assert_eq!(d.window.count_slices_in_status(HeaderSliceStatus::Waiting), 3);
}

#[test]
fn fetch_without_peers_does_nothing() {
    let mut d = downloader(0, 576, 3);
    assert_eq!(d.fetch_request(0, &vec![]), Ok(None));
    assert_eq!(d.window.count_slices_in_status(HeaderSliceStatus::Empty), 3);
}

#[test]
fn receive_rejects_stale_and_malformed_responses() {
    let mut d = downloader(0, 576, 3);
    let peers = vec![PeerId(1)];
    d.fetch_request(0, &peers).unwrap();
    // slice 192 was never requested
    assert!(!d.receive_headers(PeerId(1), slice_headers(192)));
    // too short
    let mut short = slice_headers(0);
    short.pop();
    assert!(!d.receive_headers(PeerId(1), short));
    // wrong numbering
    let mut gap = slice_headers(0);
    gap[10].number = BlockNumber(500);
    assert!(!d.receive_headers(PeerId(1), gap));
    // unknown start
    assert!(!d.receive_headers(PeerId(1), slice_headers(5000)));
    assert!(!d.receive_headers(PeerId(1), vec![]));
    assert!(d.receive_headers(PeerId(1), slice_headers(0)));
    // duplicate
    assert!(!d.receive_headers(PeerId(2), slice_headers(0)));
    assert_eq!(d.window.slice(0).from_peer_id, Some(PeerId(1)));
}

#[test]
fn retry_waits_for_the_timeout() {
    let mut d = downloader(0, 576, 3);
    d.fetch_request(1000, &vec![PeerId(1)]).unwrap();
    d.retry_timed_out(1000 + REQUEST_TIMEOUT_MS);
    assert_eq!(d.window.slice(0).status, HeaderSliceStatus::Waiting);
    d.retry_timed_out(1001 + REQUEST_TIMEOUT_MS);
    assert_eq!(d.window.slice(0).status, HeaderSliceStatus::Empty);
    assert_eq!(d.window.slice(0).request_attempt, 1);
    assert_eq!(d.window.slice(0).request_time, None);
}

#[test]
fn persistent_failure_stalls() {
    let mut d = downloader(0, 576, 1);
    let peers = vec![PeerId(1)];
    let mut now = 0;
    for _ in 0..MAX_REQUEST_ATTEMPTS {
        assert!(d.fetch_request(now, &peers).unwrap().is_some());
        now += REQUEST_TIMEOUT_MS + 1;
        d.retry_timed_out(now);
    }
    assert_eq!(
        d.fetch_request(now, &peers),
        Err(DownloaderError::Stalled { start_block_num: BlockNumber(0) })
    );
}

#[test]
fn save_waits_for_the_head_slice() {
    let mut d = downloader(0, 576, 3);
    let peers = vec![PeerId(1)];
    for _ in 0..3 {
        d.fetch_request(0, &peers).unwrap();
    }
    assert!(d.receive_headers(PeerId(1), slice_headers(192)));
    d.verify_internal();
    d.verify_link();
    assert_eq!(d.window.slice(1).status, HeaderSliceStatus::Verified);
    assert_eq!(d.next_to_save(), None);
    assert!(d.receive_headers(PeerId(1), slice_headers(0)));
    d.verify_internal();
    d.verify_link();
    assert_eq!(d.next_to_save(), Some(0));
    d.mark_saved(0);
    assert_eq!(d.next_to_save(), Some(1));
    d.mark_saved(1);
    assert_eq!(d.next_to_save(), None);
    assert_eq!(d.report().final_block_num, BlockNumber(384));
}

#[test]
fn header_checks() {
    let h = slice_headers(192);
    assert!(check_headers_cover(&h, BlockNumber(192)));
    assert!(!check_headers_cover(&h, BlockNumber(0)));
    assert!(check_headers_linked(&h, BlockNumber(192)));
    let mut bad = h.clone();
    bad[5].parent_hash = hash_of(1);
    assert!(check_headers_cover(&bad, BlockNumber(192)));
    assert!(!check_headers_linked(&bad, BlockNumber(192)));
}

#[test]
fn checkpoint_lookup() {
    let cp = checkpoints(576);
    assert_eq!(cp.get(BlockNumber(384)), Some(hash_of(383)));
    assert_eq!(cp.get(BlockNumber(100)), None);
    assert_eq!(cp.get(BlockNumber(768)), None);
}

#[test]
fn stages_due_follow_the_counts() {
    let mut d = downloader(0, 1152, 3);
    let due = d.stages_due();
    assert_eq!(
        due,
        StagesDue {
            fetch: true,
            retry: false,
            verify_internal: false,
            verify_link: false,
            penalize: false,
            save: false,
            refill: false,
        }
    );
    d.fetch_request(0, &vec![PeerId(1)]).unwrap();
    assert!(d.stages_due().retry);
    assert!(d.receive_headers(PeerId(1), slice_headers(0)));
    assert!(d.stages_due().verify_internal);
    d.verify_internal();
    assert!(d.stages_due().verify_link);
    d.verify_link();
    assert!(d.stages_due().save);
    d.mark_saved(0);
    assert!(d.stages_due().refill);
    d.refill_stage();
    assert_eq!(d.window.len(), 3);
    assert_eq!(d.window.min_block_num(), BlockNumber(192));
    assert_eq!(d.window.max_block_num(), BlockNumber(768));
}

#[test]
fn refill_stage_keeps_unsaved_slices() {
    let mut d = downloader(0, 1152, 3);
    let peers = vec![PeerId(1)];
    d.fetch_request(0, &peers).unwrap();
    d.fetch_request(7, &peers).unwrap();
    assert!(d.receive_headers(PeerId(1), slice_headers(0)));
    d.verify_internal();
    d.verify_link();
    d.mark_saved(0);
    d.refill_stage();
    assert_eq!(d.window.len(), 3);
    assert_eq!(d.window.slice(0).status, HeaderSliceStatus::Waiting);
    assert_eq!(d.window.slice(0).request_time, Some(7));
    assert_eq!(d.window.slice(2).start_block_num, BlockNumber(576));
    assert_eq!(d.window.slice(2).status, HeaderSliceStatus::Empty);
}
