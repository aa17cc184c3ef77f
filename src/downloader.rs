use vstd::prelude::*;
use crate::header_slices::{
    HeaderSlice, HeaderSliceStatus, HeaderSlices, WindowView, count_status, headers_cover,
    is_allowed_transition, lemma_count_same_places, lemma_count_update, lemma_pointwise_transitions, lemma_saved_prefix, slices_for_mem_limit, transitions_allowed,
    with_status, HEADER_SLICE_SIZE,
};
use crate::header_slices::min_int;
use crate::models::{BlockHash, BlockHeader, BlockNumber, PeerId};

verus! {

/// Milliseconds after which an unanswered request is given up and its slice
/// requested again.
pub const REQUEST_TIMEOUT_MS: u64 = 5000;

/// Requests made for one slice before the run is reported as stalled.
pub const MAX_REQUEST_ATTEMPTS: u16 = 16;

/// What a run reached, handed to the next run to resume from.
#[derive(Copy, Clone, Debug, PartialEq, Eq, Structural)]
pub struct DownloaderRunState {
    pub max_block_num: BlockNumber,
}

/// The result of a run: the block reached and the state to resume from.
#[derive(Copy, Clone, Debug, PartialEq, Eq, Structural)]
pub struct DownloaderReport {
    pub final_block_num: BlockNumber,
    pub run_state: DownloaderRunState,
}

/// Why a downloader cannot be built or cannot go on.
#[derive(Copy, Clone, Debug, PartialEq, Eq, Structural)]
pub enum DownloaderError {
    StartNotAligned,
    FinalNotAligned,
    FinalBeforeStart,
    MemLimitTooSmall,
    RunStateOutOfRange,
    /// A slice was requested `MAX_REQUEST_ATTEMPTS` times without success.
    Stalled { start_block_num: BlockNumber },
}

/// A request for the headers `start_block_num .. start_block_num + count`.
#[derive(Copy, Clone, Debug, PartialEq, Eq, Structural)]
pub struct FetchRequest {
    pub peer_id: PeerId,
    pub start_block_num: BlockNumber,
    pub count: usize,
}

/// Which stages have work: each one's input status has a slice, or, for the
/// refill, saved slices to drop or room to grow toward the final block.
#[derive(Copy, Clone, Debug, PartialEq, Eq, Structural)]
pub struct StagesDue {
    pub fetch: bool,
    pub retry: bool,
    pub verify_internal: bool,
    pub verify_link: bool,
    pub penalize: bool,
    pub save: bool,
    pub refill: bool,
}

/// The baked-in canonical hashes: entry `k` is the hash expected at height
/// `k * HEADER_SLICE_SIZE`.
pub struct Checkpoints {
    pub hashes: Vec<BlockHash>,
}

impl Checkpoints {
    /// The hash expected at height `n`, if the table has one.
    pub open spec fn spec_get(&self, n: u64) -> Option<BlockHash> {
        if n % 192 == 0 && n / 192 < self.hashes@.len() {
            Some(self.hashes@[(n / 192) as int])
        } else {
            None
        }
    }

    pub fn get(&self, n: BlockNumber) -> (r: Option<BlockHash>)
        ensures
            r == self.spec_get(n.0),
    {
        let size = HEADER_SLICE_SIZE as u64;
        if n.0 % size == 0 && n.0 / size < self.hashes.len() as u64 {
            Some(self.hashes[(n.0 / size) as usize])
        } else {
            None
        }
    }
}

/// The configuration error for these arguments, if any, checked in this order.
pub open spec fn config_error(
    mem_limit: usize,
    start_block_num: u64,
    final_block_num: u64,
    previous_run_state: Option<DownloaderRunState>,
) -> Option<DownloaderError> {
    if start_block_num % 192 != 0 {
        Some(DownloaderError::StartNotAligned)
    } else if final_block_num % 192 != 0 {
        Some(DownloaderError::FinalNotAligned)
    } else if final_block_num < start_block_num {
        Some(DownloaderError::FinalBeforeStart)
    } else if slices_for_mem_limit(mem_limit) == 0 {
        Some(DownloaderError::MemLimitTooSmall)
    } else if (previous_run_state matches Some(rs) && (rs.max_block_num.0 % 192 != 0
        || rs.max_block_num.0 < start_block_num || rs.max_block_num.0 > final_block_num)) {
        Some(DownloaderError::RunStateOutOfRange)
    } else {
        None
    }
}

/// Where a run starts: the point a previous run reached, or the given start.
pub open spec fn resume_block_num(start_block_num: u64, previous_run_state: Option<DownloaderRunState>) -> u64 {
    match previous_run_state {
        Some(rs) => rs.max_block_num.0,
        None => start_block_num,
    }
}

/// `headers` numbers the blocks of the slice at `start` and each header names
/// the one before it as its parent.
pub open spec fn headers_linked(headers: Seq<BlockHeader>, start: u64) -> bool {
    &&& headers_cover(headers, start)
    &&& forall|i: int| 1 <= i < 192 ==> #[trigger] headers[i].parent_hash.0@ == headers[i - 1].hash.0@
}

/// A request sent at `sent` has timed out at `now`.
pub open spec fn timed_out(now: u64, sent: u64) -> bool {
    now >= sent && now - sent > REQUEST_TIMEOUT_MS
}


/// The slice after the retry step at time `now`.
pub open spec fn retry_slice(s: HeaderSlice, now: u64) -> HeaderSlice {
    if s.status == HeaderSliceStatus::Waiting && (s.request_time matches Some(t) && timed_out(now, t)) {
        with_status(s, HeaderSliceStatus::Empty)
    } else {
        s
    }
}

/// The slice after the inner verification step.
pub open spec fn verify_internal_slice(s: HeaderSlice) -> HeaderSlice {
    if s.status == HeaderSliceStatus::Downloaded {
        with_status(
            s,
            if (s.headers matches Some(h) && headers_linked(h@, s.start_block_num.0)) {
                HeaderSliceStatus::VerifiedInternally
            } else {
                HeaderSliceStatus::Invalid
            },
        )
    } else {
        s
    }
}

/// The last header of the slice has the hash that the checkpoint table holds
/// for the slice's end.
pub open spec fn matches_checkpoint(s: HeaderSlice, checkpoints: Checkpoints) -> bool {
    &&& s.headers matches Some(h)
    &&& h@.len() > 0
    &&& checkpoints.spec_get((s.start_block_num.0 + 192) as u64) matches Some(c)
    &&& c.0@ == h@.last().hash.0@
}

/// The slice after the checkpoint step.
pub open spec fn verify_link_slice(s: HeaderSlice, checkpoints: Checkpoints) -> HeaderSlice {
    if s.status == HeaderSliceStatus::VerifiedInternally {
        with_status(
            s,
            if matches_checkpoint(s, checkpoints) {
                HeaderSliceStatus::Verified
            } else {
                HeaderSliceStatus::Invalid
            },
        )
    } else {
        s
    }
}

/// The slice after the penalty step.
pub open spec fn penalize_slice(s: HeaderSlice) -> HeaderSlice {
    if s.status == HeaderSliceStatus::Invalid {
        with_status(s, HeaderSliceStatus::Empty)
    } else {
        s
    }
}

/// The peers that supplied the invalid slices of `s`, in window order.
pub open spec fn invalid_peers(s: Seq<HeaderSlice>) -> Seq<PeerId>
    decreases s.len(),
{
    if s.len() == 0 {
        Seq::empty()
    } else {
        invalid_peers(s.drop_last()) + if s.last().status == HeaderSliceStatus::Invalid
            && s.last().from_peer_id is Some {
            seq![s.last().from_peer_id.unwrap()]
        } else {
            Seq::empty()
        }
    }
}

/// The pre-verified header downloader: the slice window, the checkpoint
/// table, and the decisions of each stage. The caller performs the network
/// and database work that the stages ask for.
pub struct Downloader {
    pub window: HeaderSlices,
    pub checkpoints: Checkpoints,
    /// Position of the next peer in the round-robin over the peer list.
    pub next_peer: usize,
}

impl Downloader {
    pub open spec fn wf(&self) -> bool {
        &&& self.window.wf()
        &&& (self.window@.max_slices == 0 ==> self.window@.max_block_num == self.window@.final_block_num)
    }


    /// The state in which `new` leaves a downloader built from these arguments.
    pub open spec fn is_initial(
        &self,
        mem_limit: usize,
        start_block_num: BlockNumber,
        final_block_num: BlockNumber,
        previous_run_state: Option<DownloaderRunState>,
    ) -> bool {
        let start = resume_block_num(start_block_num.0, previous_run_state);
        &&& self.wf()
        &&& self.next_peer == 0
        &&& self.window@.max_slices == min_int(
            slices_for_mem_limit(mem_limit),
            (final_block_num.0 - start) / 192,
        )
        &&& self.window@.slices.len() == self.window@.max_slices
        &&& forall|i: int|
            0 <= i < self.window@.slices.len() ==> #[trigger] self.window@.slices[i].is_fresh(
                (start + i * 192) as u64,
            )
        &&& self.window@.max_block_num == start + self.window@.slices.len() * 192
        &&& self.window@.final_block_num == final_block_num.0
        &&& self.window@.saved_block_num() == start
    }

    /// Builds a downloader for `start_block_num .. final_block_num` within
    /// `mem_limit` bytes, resuming where `previous_run_state` ended if given.
    pub fn new(
        mem_limit: usize,
        start_block_num: BlockNumber,
        final_block_num: BlockNumber,
        previous_run_state: Option<DownloaderRunState>,
        checkpoints: Checkpoints,
    ) -> (r: Result<Downloader, DownloaderError>)
        ensures
            config_error(mem_limit, start_block_num.0, final_block_num.0, previous_run_state) matches Some(e)
                ==> r == Err::<Downloader, DownloaderError>(e),
            config_error(mem_limit, start_block_num.0, final_block_num.0, previous_run_state) is None ==> (
            r matches Ok(d) && d.is_initial(mem_limit, start_block_num, final_block_num, previous_run_state)
                && d.checkpoints == checkpoints),
    {
        let size = HEADER_SLICE_SIZE as u64;
        if start_block_num.0 % size != 0 {
            return Err(DownloaderError::StartNotAligned);
        }
        if final_block_num.0 % size != 0 {
            return Err(DownloaderError::FinalNotAligned);
        }
        if final_block_num.0 < start_block_num.0 {
            return Err(DownloaderError::FinalBeforeStart);
        }
        if mem_limit / crate::header_slices::HEADER_MEM_SIZE / HEADER_SLICE_SIZE == 0 {
            return Err(DownloaderError::MemLimitTooSmall);
        }
        let start = match previous_run_state {
            Some(rs) => {
                if rs.max_block_num.0 % size != 0 || rs.max_block_num.0 < start_block_num.0
                    || rs.max_block_num.0 > final_block_num.0 {
                    return Err(DownloaderError::RunStateOutOfRange);
                }
                rs.max_block_num
            },
            None => start_block_num,
        };
        let window = HeaderSlices::new(mem_limit, start, final_block_num);
        proof {
            if window@.max_slices == 0 {
                assert((final_block_num.0 - start.0) / 192 == 0);
            }
        }
        Ok(Downloader { window, checkpoints, next_peer: 0 })
    }

    /// The slice at `index` matches the checkpoint for its end.
    fn slice_matches_checkpoint(&self, index: usize) -> (r: bool)
        requires
            self.wf(),
            index < self.window@.slices.len(),
        ensures
            r == matches_checkpoint(self.window@.slices[index as int], self.checkpoints),
    {
        let s = self.window.slice(index);
        proof {
            assert(s.start_block_num.0 + 192 <= self.window@.max_block_num) by {
                assert(s.start_block_num.0 == self.window@.max_block_num - (self.window@.slices.len() - index) * 192);
            }
        }
        match &s.headers {
            Some(h) => {
                if h.len() == 0 {
                    return false;
                }
                let end = BlockNumber(s.start_block_num.0 + HEADER_SLICE_SIZE as u64);
                match self.checkpoints.get(end) {
                    Some(c) => c.same_as(&h[h.len() - 1].hash),
                    None => false,
                }
            },
            None => false,
        }
    }

    /// Returns to `Empty` every waiting slice whose request has timed out at
    /// `now` (milliseconds).
    pub fn retry_timed_out(&mut self, now: u64)
        requires
            old(self).wf(),
        ensures
            final(self).wf(),
            final(self).window@.slices == old(self).window@.slices.map_values(|s: HeaderSlice| retry_slice(s, now)),
            final(self).window@.max_slices == old(self).window@.max_slices,
            final(self).window@.max_block_num == old(self).window@.max_block_num,
            final(self).window@.final_block_num == old(self).window@.final_block_num,
            final(self).checkpoints == old(self).checkpoints,
            final(self).next_peer == old(self).next_peer,
            transitions_allowed(old(self).window@, final(self).window@),
            final(self).window@.saved_block_num() == old(self).window@.saved_block_num(),
    {
        let ghost v = self.window@;
        let ghost cp = self.checkpoints;
        let ghost np = self.next_peer;
        let mut i: usize = 0;
        while i < self.window.len()
            invariant
                self.wf(),
                self.checkpoints == cp,
                self.next_peer == np,
                v.wf(),
                i <= v.slices.len(),
                self.window@.slices.len() == v.slices.len(),
                self.window@.max_slices == v.max_slices,
                self.window@.max_block_num == v.max_block_num,
                self.window@.final_block_num == v.final_block_num,
                forall|j: int| 0 <= j < i ==> #[trigger] self.window@.slices[j] == ({ let s = v.slices[j]; retry_slice(s, now) }),
                forall|j: int| i <= j < v.slices.len() ==> #[trigger] self.window@.slices[j] == v.slices[j],
            decreases v.slices.len() - i,
        {
            proof {
                assert(self.window@.slices[i as int] == v.slices[i as int]);
                assert(v.slices[i as int].wf());
            }
            let s = self.window.slice(i);
            if s.status == HeaderSliceStatus::Waiting {
                if let Some(t) = s.request_time {
                    if now >= t && now - t > REQUEST_TIMEOUT_MS {
                        self.window.set_slice_status(i, HeaderSliceStatus::Empty);
                    }
                }
            }
            i = i + 1;
        }
        proof {
            assert(self.window@.slices =~= v.slices.map_values(|s: HeaderSlice| retry_slice(s, now)));
            lemma_pointwise_transitions(v, self.window@);
            assert forall|j: int| 0 <= j < v.slices.len() implies (#[trigger] v.slices[j].status == HeaderSliceStatus::Saved)
                == (self.window@.slices[j].status == HeaderSliceStatus::Saved) by {
                assert(v.slices[j].wf());
            }
            lemma_count_same_places(v.slices, self.window@.slices, HeaderSliceStatus::Saved);
        }
    }

    /// Checks each downloaded slice's block numbers and parent hashes, and
    /// marks it verified internally or invalid.
    pub fn verify_internal(&mut self)
        requires
            old(self).wf(),
        ensures
            final(self).wf(),
            final(self).window@.slices == old(self).window@.slices.map_values(|s: HeaderSlice| verify_internal_slice(s)),
            final(self).window@.max_slices == old(self).window@.max_slices,
            final(self).window@.max_block_num == old(self).window@.max_block_num,
            final(self).window@.final_block_num == old(self).window@.final_block_num,
            final(self).checkpoints == old(self).checkpoints,
            final(self).next_peer == old(self).next_peer,
            transitions_allowed(old(self).window@, final(self).window@),
            final(self).window@.saved_block_num() == old(self).window@.saved_block_num(),
    {
        let ghost v = self.window@;
        let ghost cp = self.checkpoints;
        let ghost np = self.next_peer;
        let mut i: usize = 0;
        while i < self.window.len()
            invariant
                self.wf(),
                self.checkpoints == cp,
                self.next_peer == np,
                v.wf(),
                i <= v.slices.len(),
                self.window@.slices.len() == v.slices.len(),
                self.window@.max_slices == v.max_slices,
                self.window@.max_block_num == v.max_block_num,
                self.window@.final_block_num == v.final_block_num,
                forall|j: int| 0 <= j < i ==> #[trigger] self.window@.slices[j] == ({ let s = v.slices[j]; verify_internal_slice(s) }),
                forall|j: int| i <= j < v.slices.len() ==> #[trigger] self.window@.slices[j] == v.slices[j],
            decreases v.slices.len() - i,
        {
            proof {
                assert(self.window@.slices[i as int] == v.slices[i as int]);
                assert(v.slices[i as int].wf());
            }
            let s = self.window.slice(i);
            if s.status == HeaderSliceStatus::Downloaded {
                let ok = match &s.headers {
                    Some(h) => check_headers_linked(h, s.start_block_num),
                    None => false,
                };
                if ok {
                    self.window.set_slice_status(i, HeaderSliceStatus::VerifiedInternally);
                } else {
                    self.window.set_slice_status(i, HeaderSliceStatus::Invalid);
                }
            }
            i = i + 1;
        }
        proof {
            assert(self.window@.slices =~= v.slices.map_values(|s: HeaderSlice| verify_internal_slice(s)));
            lemma_pointwise_transitions(v, self.window@);
            assert forall|j: int| 0 <= j < v.slices.len() implies (#[trigger] v.slices[j].status == HeaderSliceStatus::Saved)
                == (self.window@.slices[j].status == HeaderSliceStatus::Saved) by {
                assert(v.slices[j].wf());
            }
            lemma_count_same_places(v.slices, self.window@.slices, HeaderSliceStatus::Saved);
        }
    }

    /// Checks each internally verified slice against the checkpoint table, and
    /// marks it verified or invalid.
    pub fn verify_link(&mut self)
        requires
            old(self).wf(),
        ensures
            final(self).wf(),
            final(self).window@.slices == old(self).window@.slices.map_values(|s: HeaderSlice| verify_link_slice(s, old(self).checkpoints)),
            final(self).window@.max_slices == old(self).window@.max_slices,
            final(self).window@.max_block_num == old(self).window@.max_block_num,
            final(self).window@.final_block_num == old(self).window@.final_block_num,
            final(self).checkpoints == old(self).checkpoints,
            final(self).next_peer == old(self).next_peer,
            transitions_allowed(old(self).window@, final(self).window@),
            final(self).window@.saved_block_num() == old(self).window@.saved_block_num(),
    {
        let ghost v = self.window@;
        let ghost cp = self.checkpoints;
        let ghost np = self.next_peer;
        let mut i: usize = 0;
        while i < self.window.len()
            invariant
                self.wf(),
                self.checkpoints == cp,
                self.next_peer == np,
                v.wf(),
                i <= v.slices.len(),
                self.window@.slices.len() == v.slices.len(),
                self.window@.max_slices == v.max_slices,
                self.window@.max_block_num == v.max_block_num,
                self.window@.final_block_num == v.final_block_num,
                forall|j: int| 0 <= j < i ==> #[trigger] self.window@.slices[j] == ({ let s = v.slices[j]; verify_link_slice(s, cp) }),
                forall|j: int| i <= j < v.slices.len() ==> #[trigger] self.window@.slices[j] == v.slices[j],
            decreases v.slices.len() - i,
        {
            proof {
                assert(self.window@.slices[i as int] == v.slices[i as int]);
                assert(v.slices[i as int].wf());
            }
            let s = self.window.slice(i);
            if s.status == HeaderSliceStatus::VerifiedInternally {
                let ok = self.slice_matches_checkpoint(i);
                if ok {
                    self.window.set_slice_status(i, HeaderSliceStatus::Verified);
                } else {
                    self.window.set_slice_status(i, HeaderSliceStatus::Invalid);
                }
            }
            i = i + 1;
        }
        proof {
            assert(self.window@.slices =~= v.slices.map_values(|s: HeaderSlice| verify_link_slice(s, cp)));
            lemma_pointwise_transitions(v, self.window@);
            assert forall|j: int| 0 <= j < v.slices.len() implies (#[trigger] v.slices[j].status == HeaderSliceStatus::Saved)
                == (self.window@.slices[j].status == HeaderSliceStatus::Saved) by {
                assert(v.slices[j].wf());
            }
            lemma_count_same_places(v.slices, self.window@.slices, HeaderSliceStatus::Saved);
        }
    }

    /// Returns every invalid slice to `Empty` and hands back the peers that
    /// supplied them, to be penalized.
    pub fn penalize_invalid(&mut self) -> (r: Vec<PeerId>)
        requires
            old(self).wf(),
        ensures
            final(self).wf(),
            final(self).window@.slices == old(self).window@.slices.map_values(|s: HeaderSlice| penalize_slice(s)),
            final(self).window@.max_slices == old(self).window@.max_slices,
            final(self).window@.max_block_num == old(self).window@.max_block_num,
            final(self).window@.final_block_num == old(self).window@.final_block_num,
            final(self).checkpoints == old(self).checkpoints,
            final(self).next_peer == old(self).next_peer,
            transitions_allowed(old(self).window@, final(self).window@),
            r@ == invalid_peers(old(self).window@.slices),
            final(self).window@.saved_block_num() == old(self).window@.saved_block_num(),
    {
        let ghost v = self.window@;
        let ghost cp = self.checkpoints;
        let ghost np = self.next_peer;
        let mut peers: Vec<PeerId> = Vec::new();
        let mut i: usize = 0;
        while i < self.window.len()
            invariant
                self.wf(),
                self.checkpoints == cp,
                self.next_peer == np,
                v.wf(),
                i <= v.slices.len(),
                self.window@.slices.len() == v.slices.len(),
                self.window@.max_slices == v.max_slices,
                self.window@.max_block_num == v.max_block_num,
                self.window@.final_block_num == v.final_block_num,
                forall|j: int| 0 <= j < i ==> #[trigger] self.window@.slices[j] == ({ let s = v.slices[j]; penalize_slice(s) }),
                forall|j: int| i <= j < v.slices.len() ==> #[trigger] self.window@.slices[j] == v.slices[j],
                peers@ == invalid_peers(v.slices.subrange(0, i as int)),
            decreases v.slices.len() - i,
        {
            proof {
                assert(self.window@.slices[i as int] == v.slices[i as int]);
                assert(v.slices[i as int].wf());
            }
            let s = self.window.slice(i);
            if s.status == HeaderSliceStatus::Invalid {
                if let Some(p) = s.from_peer_id {
                    peers.push(p);
                }
                self.window.set_slice_status(i, HeaderSliceStatus::Empty);
            }
            proof {
                let t = v.slices.subrange(0, i + 1);
                assert(t.drop_last() =~= v.slices.subrange(0, i as int));
            }
            i = i + 1;
        }
        proof {
            assert(self.window@.slices =~= v.slices.map_values(|s: HeaderSlice| penalize_slice(s)));
            lemma_pointwise_transitions(v, self.window@);
            assert forall|j: int| 0 <= j < v.slices.len() implies (#[trigger] v.slices[j].status == HeaderSliceStatus::Saved)
                == (self.window@.slices[j].status == HeaderSliceStatus::Saved) by {
                assert(v.slices[j].wf());
            }
            lemma_count_same_places(v.slices, self.window@.slices, HeaderSliceStatus::Saved);
        }
        proof {
            assert(i == v.slices.len());
            assert(v.slices.subrange(0, i as int) =~= v.slices);
        }
        peers
    }

    /// Picks the earliest empty slice, marks it requested at `now` and names
    /// the next peer in round-robin order to ask for it. Gives nothing when
    /// there is no peer or no empty slice; fails when that slice has already
    /// been requested `MAX_REQUEST_ATTEMPTS` times.
    pub fn fetch_request(&mut self, now: u64, peers: &Vec<PeerId>) -> (r: Result<Option<FetchRequest>, DownloaderError>)
        requires
            old(self).wf(),
        ensures
            final(self).wf(),
            transitions_allowed(old(self).window@, final(self).window@),
            (peers@.len() == 0 || forall|j: int| 0 <= j < old(self).window@.slices.len()
                ==> #[trigger] old(self).window@.slices[j].status != HeaderSliceStatus::Empty)
                ==> r == Ok::<Option<FetchRequest>, DownloaderError>(None) && final(self).window@ == old(self).window@
                && final(self).next_peer == old(self).next_peer,
            peers@.len() > 0 ==> forall|i: int| #[trigger] old(self).window@.first_in_status(HeaderSliceStatus::Empty, i) ==> {
                let s = old(self).window@.slices[i];
                if s.request_attempt >= MAX_REQUEST_ATTEMPTS {
                    &&& r == Err::<Option<FetchRequest>, DownloaderError>(DownloaderError::Stalled { start_block_num: s.start_block_num })
                    &&& final(self).window@ == old(self).window@
                    &&& final(self).next_peer == old(self).next_peer
                } else {
                    &&& r == Ok::<Option<FetchRequest>, DownloaderError>(Some(FetchRequest {
                        peer_id: peers@[(old(self).next_peer as int) % (peers@.len() as int)],
                        start_block_num: s.start_block_num,
                        count: 192,
                    }))
                    &&& final(self).window@.slices == old(self).window@.slices.update(i, HeaderSlice {
                        status: HeaderSliceStatus::Waiting,
                        request_time: Some(now),
                        request_attempt: (s.request_attempt + 1) as u16,
                        ..s
                    })
                    &&& final(self).next_peer == (old(self).next_peer as int) % (peers@.len() as int) + 1
                }
            },
            final(self).window@.max_slices == old(self).window@.max_slices,
            final(self).window@.max_block_num == old(self).window@.max_block_num,
            final(self).window@.final_block_num == old(self).window@.final_block_num,
            final(self).checkpoints == old(self).checkpoints,
            final(self).window@.saved_block_num() == old(self).window@.saved_block_num(),
    {
        let ghost v = self.window@;
        if peers.len() == 0 {
            proof { lemma_pointwise_transitions(v, v); }
            return Ok(None);
        }
        match self.window.find_by_status(HeaderSliceStatus::Empty) {
            None => {
                proof {
                    lemma_pointwise_transitions(v, v);
                }
                Ok(None)
            },
            Some(i) => {
                let s = self.window.slice(i);
                let start_block_num = s.start_block_num;
                if s.request_attempt >= MAX_REQUEST_ATTEMPTS {
                    proof { lemma_pointwise_transitions(v, v); }
                    return Err(DownloaderError::Stalled { start_block_num });
                }
                let k = self.next_peer % peers.len();
                let peer_id = peers[k];
                self.window.start_request(i, now);
                proof {
                    assert forall|j: int| 0 <= j < v.slices.len() implies (#[trigger] v.slices[j].status == HeaderSliceStatus::Saved)
                        == (self.window@.slices[j].status == HeaderSliceStatus::Saved) by {}
                    lemma_count_same_places(v.slices, self.window@.slices, HeaderSliceStatus::Saved);
                }
                self.next_peer = k + 1;
                Ok(Some(FetchRequest { peer_id, start_block_num, count: HEADER_SLICE_SIZE }))
            },
        }
    }

    /// Takes a response of `headers` from `peer`: stores them in the waiting
    /// slice that starts at the first header's number if they are exactly
    /// that slice's blocks, and tells whether they were taken.
    pub fn receive_headers(&mut self, peer: PeerId, headers: Vec<BlockHeader>) -> (r: bool)
        requires
            old(self).wf(),
        ensures
            final(self).wf(),
            transitions_allowed(old(self).window@, final(self).window@),
            r == (headers@.len() > 0 && exists|i: int| 0 <= i < old(self).window@.slices.len()
                && #[trigger] old(self).window@.slices[i].start_block_num == headers@[0].number
                && old(self).window@.slices[i].status == HeaderSliceStatus::Waiting
                && headers_cover(headers@, headers@[0].number.0)),
            !r ==> final(self).window@ == old(self).window@,
            r ==> exists|i: int| 0 <= i < old(self).window@.slices.len()
                && #[trigger] old(self).window@.slices[i].start_block_num == headers@[0].number
                && final(self).window@.slices == old(self).window@.slices.update(i, HeaderSlice {
                    status: HeaderSliceStatus::Downloaded,
                    headers: Some(headers),
                    from_peer_id: Some(peer),
                    request_time: None,
                    ..old(self).window@.slices[i]
                }),
            final(self).window@.max_slices == old(self).window@.max_slices,
            final(self).window@.max_block_num == old(self).window@.max_block_num,
            final(self).window@.final_block_num == old(self).window@.final_block_num,
            final(self).checkpoints == old(self).checkpoints,
            final(self).next_peer == old(self).next_peer,
            final(self).window@.saved_block_num() == old(self).window@.saved_block_num(),
    {
        let ghost v = self.window@;
        proof { lemma_pointwise_transitions(v, v); }
        if headers.len() == 0 {
            return false;
        }
        let start = headers[0].number;
        let found = self.window.find_by_start_block_num(start);
        match found {
            None => false,
            Some(i) => {
                proof {
                    assert forall|j: int| 0 <= j < v.slices.len() && #[trigger] v.slices[j].start_block_num == start
                        implies j == i by {
                        assert(v.slices[j].start_block_num.0 == v.max_block_num - (v.slices.len() - j) * 192);
                        assert(v.slices[i as int].start_block_num.0 == v.max_block_num - (v.slices.len() - i) * 192);
                    }
                }
                if self.window.slice(i).status != HeaderSliceStatus::Waiting {
                    return false;
                }
                if !check_headers_cover(&headers, start) {
                    return false;
                }
                self.window.accept_headers(i, peer, headers);
                proof {
                    assert forall|j: int| 0 <= j < v.slices.len() implies (#[trigger] v.slices[j].status == HeaderSliceStatus::Saved)
                        == (self.window@.slices[j].status == HeaderSliceStatus::Saved) by {}
                    lemma_count_same_places(v.slices, self.window@.slices, HeaderSliceStatus::Saved);
                }
                true
            },
        }
    }

    /// Position of the slice to write to the database next: the first slice
    /// that is not saved, if it is verified.
    pub fn next_to_save(&self) -> (r: Option<usize>)
        requires
            self.wf(),
        ensures
            r matches Some(i) ==> {
                &&& i < self.window@.slices.len()
                &&& self.window@.slices[i as int].status == HeaderSliceStatus::Verified
                &&& forall|j: int| 0 <= j < i ==> #[trigger] self.window@.slices[j].status == HeaderSliceStatus::Saved
                &&& self.window@.slices[i as int].start_block_num.0 == self.window@.saved_block_num()
            },
            r is None ==> ({
                let k = count_status(self.window@.slices, HeaderSliceStatus::Saved) as int;
                k == self.window@.slices.len() || self.window@.slices[k].status != HeaderSliceStatus::Verified
            }),
    {
        let ghost v = self.window@;
        proof { lemma_saved_prefix(v); }
        let k = self.window.count_slices_in_status(HeaderSliceStatus::Saved);
        if k < self.window.len() && self.window.slice(k).status == HeaderSliceStatus::Verified {
            proof {
                assert(v.slices[k as int].start_block_num.0 == v.max_block_num - (v.slices.len() - k) * 192);
            }
            Some(k)
        } else {
            None
        }
    }

    /// Marks the slice at `index`, just written to the database, as saved.
    /// Writes thus go in ascending block order without gaps: the slice starts
    /// at the window's next block to save, which moves on by one slice.
    pub fn mark_saved(&mut self, index: usize)
        requires
            old(self).wf(),
            index < old(self).window@.slices.len(),
            old(self).window@.slices[index as int].status == HeaderSliceStatus::Verified,
            forall|j: int| 0 <= j < index ==> #[trigger] old(self).window@.slices[j].status == HeaderSliceStatus::Saved,
        ensures
            final(self).wf(),
            transitions_allowed(old(self).window@, final(self).window@),
            final(self).window@.slices == old(self).window@.slices.update(index as int, HeaderSlice {
                status: HeaderSliceStatus::Saved,
                ..old(self).window@.slices[index as int]
            }),
            old(self).window@.slices[index as int].start_block_num.0 == old(self).window@.saved_block_num(),
            final(self).window@.saved_block_num() == old(self).window@.saved_block_num() + 192,
            final(self).window@.max_slices == old(self).window@.max_slices,
            final(self).window@.max_block_num == old(self).window@.max_block_num,
            final(self).window@.final_block_num == old(self).window@.final_block_num,
            final(self).checkpoints == old(self).checkpoints,
            final(self).next_peer == old(self).next_peer,
    {
        let ghost v = self.window@;
        proof {
            lemma_saved_prefix(v);
            assert(v.slices[index as int].start_block_num.0 == v.max_block_num - (v.slices.len() - index) * 192);
            if index > 0 {
                assert(v.slices[index - 1].status == HeaderSliceStatus::Saved);
            }
            assert(v.slices[index as int].status != HeaderSliceStatus::Saved);
            assert(index == count_status(v.slices, HeaderSliceStatus::Saved));
            lemma_count_update(v.slices, index as int, with_status(v.slices[index as int], HeaderSliceStatus::Saved), HeaderSliceStatus::Saved);
        }
        self.window.set_slice_status(index, HeaderSliceStatus::Saved);
    }

    /// Drops the saved slices from the head of the window and appends empty
    /// ones at the tail up to its capacity or the final block.
    pub fn refill_stage(&mut self)
        requires
            old(self).wf(),
        ensures
            final(self).wf(),
            transitions_allowed(old(self).window@, final(self).window@),
            final(self).window@.saved_block_num() == old(self).window@.saved_block_num(),
            ({
                let n = count_status(old(self).window@.slices, HeaderSliceStatus::Saved) as int;
                let kept = old(self).window@.slices.len() - n;
                &&& kept <= final(self).window@.slices.len()
                &&& final(self).window@.slices.subrange(0, kept) == old(self).window@.slices.subrange(
                    n,
                    old(self).window@.slices.len() as int,
                )
                &&& forall|i: int|
                    kept <= i < final(self).window@.slices.len() ==> #[trigger] final(self).window@.slices[i].is_fresh(
                        (old(self).window@.max_block_num + (i - kept) * 192) as u64,
                    )
                &&& final(self).window@.max_block_num == old(self).window@.max_block_num + (
                    final(self).window@.slices.len() - kept) * 192
            }),
            final(self).window@.slices.len() > 0 ==> final(self).window@.slices[0].status != HeaderSliceStatus::Saved,
            final(self).window@.slices.len() == final(self).window@.max_slices
                || final(self).window@.max_block_num == final(self).window@.final_block_num,
            final(self).window@.slices.len() == 0 ==> final(self).window@.max_block_num == final(self).window@.final_block_num,
            final(self).window@.max_slices == old(self).window@.max_slices,
            final(self).window@.final_block_num == old(self).window@.final_block_num,
            final(self).checkpoints == old(self).checkpoints,
            final(self).next_peer == old(self).next_peer,
    {
        let ghost v = self.window@;
        proof { lemma_saved_prefix(v); }
        self.window.remove(HeaderSliceStatus::Saved);
        let ghost w = self.window@;
        proof {
            lemma_saved_prefix(w);
            let n = v.slices.len() - w.slices.len();
            assert(count_status(v.slices, HeaderSliceStatus::Saved) == n) by {
                if count_status(v.slices, HeaderSliceStatus::Saved) < n {
                    let c = count_status(v.slices, HeaderSliceStatus::Saved) as int;
                    assert(v.slices[c].status == HeaderSliceStatus::Saved);
                } else if count_status(v.slices, HeaderSliceStatus::Saved) > n {
                    assert(w.slices[0] == v.slices[n]);
                }
            }
            if w.slices.len() > 0 {
                assert(w.slices[0].status != HeaderSliceStatus::Saved);
            }
            assert(count_status(w.slices, HeaderSliceStatus::Saved) == 0) by {
                if count_status(w.slices, HeaderSliceStatus::Saved) > 0 {
                    assert(w.slices[0].status == HeaderSliceStatus::Saved);
                }
            }
        }
        self.window.refill();
        proof {
            let u = self.window@;
            let n = count_status(v.slices, HeaderSliceStatus::Saved) as int;
            assert(u.slices.subrange(0, w.slices.len() as int) =~= v.slices.subrange(n, v.slices.len() as int));
            lemma_saved_prefix(u);
            assert(count_status(u.slices, HeaderSliceStatus::Saved) == 0) by {
                if count_status(u.slices, HeaderSliceStatus::Saved) > 0 {
                    assert(u.slices[0].status == HeaderSliceStatus::Saved);
                    if w.slices.len() > 0 {
                        assert(u.slices[0] == u.slices.subrange(0, w.slices.len() as int)[0]);
                    } else {
                        assert(u.slices[0].is_fresh((w.max_block_num + (0 - w.slices.len()) * 192) as u64));
                    }
                }
            }
            if u.slices.len() > 0 {
                if w.slices.len() > 0 {
                    assert(u.slices[0] == u.slices.subrange(0, w.slices.len() as int)[0]);
                } else {
                    assert(u.slices[0].is_fresh((w.max_block_num + (0 - w.slices.len()) * 192) as u64));
                }
            }
            assert forall|i: int, j: int|
                0 <= i < v.slices.len() && 0 <= j < u.slices.len() && #[trigger] v.slices[i].start_block_num
                    == #[trigger] u.slices[j].start_block_num implies v.slices[i].status
                    == u.slices[j].status || is_allowed_transition(
                    v.slices[i].status,
                    u.slices[j].status,
                ) by {
                assert(v.slices[i].start_block_num.0 == v.max_block_num - (v.slices.len() - i) * 192);
                if j < w.slices.len() {
                    assert(u.slices[j] == u.slices.subrange(0, w.slices.len() as int)[j]);
                    assert(w.slices[j].start_block_num.0 == w.max_block_num - (w.slices.len() - j) * 192);
                    assert(w.slices[j] == v.slices[j + v.slices.len() - w.slices.len()]);
                } else {
                    assert(u.slices[j].is_fresh((w.max_block_num + (j - w.slices.len()) * 192) as u64));
                }
            }
            assert forall|i: int|
                0 <= i < v.slices.len() && #[trigger] v.slices[i].start_block_num.0
                    < u.min_block_num() implies v.slices[i].status == HeaderSliceStatus::Saved by {
                assert(v.slices[i].start_block_num.0 == v.max_block_num - (v.slices.len() - i) * 192);
            }
        }
    }

    /// The stages that the coordinator is to run next.
    pub fn stages_due(&self) -> (r: StagesDue)
        requires
            self.wf(),
        ensures
            r.fetch == (count_status(self.window@.slices, HeaderSliceStatus::Empty) > 0),
            r.retry == (count_status(self.window@.slices, HeaderSliceStatus::Waiting) > 0),
            r.verify_internal == (count_status(self.window@.slices, HeaderSliceStatus::Downloaded) > 0),
            r.verify_link == (count_status(self.window@.slices, HeaderSliceStatus::VerifiedInternally) > 0),
            r.penalize == (count_status(self.window@.slices, HeaderSliceStatus::Invalid) > 0),
            r.save == (count_status(self.window@.slices, HeaderSliceStatus::Verified) > 0),
            r.refill == (count_status(self.window@.slices, HeaderSliceStatus::Saved) > 0 || (
                self.window@.slices.len() < self.window@.max_slices && self.window@.max_block_num
                    < self.window@.final_block_num)),
    {
        let w = &self.window;
        StagesDue {
            fetch: w.count_slices_in_status(HeaderSliceStatus::Empty) > 0,
            retry: w.count_slices_in_status(HeaderSliceStatus::Waiting) > 0,
            verify_internal: w.count_slices_in_status(HeaderSliceStatus::Downloaded) > 0,
            verify_link: w.count_slices_in_status(HeaderSliceStatus::VerifiedInternally) > 0,
            penalize: w.count_slices_in_status(HeaderSliceStatus::Invalid) > 0,
            save: w.count_slices_in_status(HeaderSliceStatus::Verified) > 0,
            refill: w.count_slices_in_status(HeaderSliceStatus::Saved) > 0 || (w.len() < self.window.max_slices()
                && w.max_block_num().0 < w.final_block_num().0),
        }
    }

    /// The run has written every block up to the final one.
    pub fn is_done(&self) -> (r: bool)
        ensures
            r == (self.window@.max_block_num >= self.window@.final_block_num && self.window@.slices.len() == 0),
    {
        self.window.is_empty_at_final_position()
    }

    /// The block reached so far: every block below it has been written.
    pub fn report(&self) -> (r: DownloaderReport)
        requires
            self.wf(),
        ensures
            r.final_block_num.0 == self.window@.saved_block_num(),
            r.run_state.max_block_num == r.final_block_num,
    {
        proof { lemma_saved_prefix(self.window@); }
        let saved = self.window.count_slices_in_status(HeaderSliceStatus::Saved);
        let min = self.window.min_block_num();
        let reached = BlockNumber(min.0 + (saved as u64) * 192);
        DownloaderReport { final_block_num: reached, run_state: DownloaderRunState { max_block_num: reached } }
    }
}


/// A run over an empty range is over as soon as it is built: the window is
/// empty, the final block is reached, and no slice is left to request.
pub proof fn lemma_empty_range_is_done(
    d: Downloader,
    mem_limit: usize,
    start_block_num: BlockNumber,
)
    requires
        d.is_initial(mem_limit, start_block_num, start_block_num, None),
    ensures
        d.window@.slices.len() == 0,
        d.window@.max_block_num >= d.window@.final_block_num,
        count_status(d.window@.slices, HeaderSliceStatus::Empty) == 0,
{
}

/// Two downloaders built from the same arguments start in the same state.
pub proof fn lemma_same_inputs_same_state(
    d1: Downloader,
    d2: Downloader,
    mem_limit: usize,
    start_block_num: BlockNumber,
    final_block_num: BlockNumber,
    previous_run_state: Option<DownloaderRunState>,
)
    requires
        d1.is_initial(mem_limit, start_block_num, final_block_num, previous_run_state),
        d2.is_initial(mem_limit, start_block_num, final_block_num, previous_run_state),
    ensures
        d1.window@ == d2.window@,
        d1.next_peer == d2.next_peer,
{
    lemma_initial_window_unique(d1, d2, mem_limit, start_block_num, final_block_num,
        resume_block_num(start_block_num.0, previous_run_state), previous_run_state);
}

/// A run resumed from the state that an earlier run reached starts in the
/// same state as a fresh run from that block.
pub proof fn lemma_resume_matches_fresh_start(
    resumed: Downloader,
    fresh: Downloader,
    mem_limit: usize,
    start_block_num: BlockNumber,
    final_block_num: BlockNumber,
    run_state: DownloaderRunState,
)
    requires
        resumed.is_initial(mem_limit, start_block_num, final_block_num, Some(run_state)),
        fresh.is_initial(mem_limit, run_state.max_block_num, final_block_num, None),
    ensures
        resumed.window@ == fresh.window@,
        resumed.next_peer == fresh.next_peer,
{
    lemma_initial_window_unique(resumed, fresh, mem_limit, start_block_num, final_block_num,
        run_state.max_block_num.0, Some(run_state));
}

proof fn lemma_initial_window_unique(
    d1: Downloader,
    d2: Downloader,
    mem_limit: usize,
    start_block_num: BlockNumber,
    final_block_num: BlockNumber,
    start: u64,
    previous_run_state: Option<DownloaderRunState>,
)
    requires
        d1.is_initial(mem_limit, start_block_num, final_block_num, previous_run_state),
        d2.wf(),
        d2.next_peer == 0,
        d2.window@.max_slices == d1.window@.max_slices,
        d2.window@.slices.len() == d2.window@.max_slices,
        forall|i: int|
            0 <= i < d2.window@.slices.len() ==> #[trigger] d2.window@.slices[i].is_fresh(
                (start + i * 192) as u64,
            ),
        start == resume_block_num(start_block_num.0, previous_run_state),
        d2.window@.max_block_num == start + d2.window@.slices.len() * 192,
        d2.window@.final_block_num == final_block_num.0,
    ensures
        d1.window@ == d2.window@,
        d1.next_peer == d2.next_peer,
{
    let v1 = d1.window@;
    let v2 = d2.window@;
    assert forall|i: int| 0 <= i < v1.slices.len() implies v1.slices[i] == v2.slices[i] by {
        assert(v1.slices[i].is_fresh((start + i * 192) as u64));
        assert(v2.slices[i].is_fresh((start + i * 192) as u64));
    }
    assert(v1.slices =~= v2.slices);
    assert forall|k: int| 0 <= k < 7 implies v1.counters[k] == v2.counters[k] by {
        let st = HeaderSliceStatus::all_spec()[k];
        assert(st.index_of() == k);
        assert(v1.counters[st.index_of()] == count_status(v1.slices, st));
        assert(v2.counters[st.index_of()] == count_status(v2.slices, st));
    }
    assert(v1.counters =~= v2.counters);
}

/// Writes over a whole run go in ascending block order without gaps, from
/// the run's start. `saved_points[k]` is the window's `saved_block_num` when
/// the `k`-th slice is written, and `written[k]` that slice's start. `new`
/// sets the first point to the start, `next_to_save` hands out the slice at
/// the current point, and `mark_saved` moves it by one slice while every
/// other step keeps it.
pub proof fn lemma_writes_in_order(start_block_num: BlockNumber, saved_points: Seq<int>, written: Seq<int>)
    requires
        written.len() == saved_points.len(),
        saved_points.len() > 0 ==> saved_points[0] == start_block_num.0,
        forall|k: int| 0 <= k < written.len() ==> #[trigger] written[k] == saved_points[k],
        forall|k: int| 0 <= k < saved_points.len() - 1 ==> #[trigger] saved_points[k + 1] == saved_points[k] + 192,
    ensures
        forall|k: int| 0 <= k < written.len() ==> #[trigger] written[k] == start_block_num.0 + 192 * k,
    decreases written.len(),
{
    if written.len() > 0 {
        let m = written.len() - 1;
        lemma_writes_in_order(start_block_num, saved_points.take(m), written.take(m));
        assert forall|k: int| 0 <= k < written.len() implies #[trigger] written[k] == start_block_num.0 + 192 * k by {
            if k < m {
                assert(written.take(m)[k] == written[k]);
            } else if m > 0 {
                assert(saved_points.take(m)[m - 1] == saved_points[m - 1]);
                assert(written.take(m)[m - 1] == written[m - 1]);
                let j = m - 1;
                assert(saved_points[j + 1] == saved_points[j] + 192);
            }
        }
    }
}

/// Checks that `headers` are the blocks of the slice at `start`, in order.
pub fn check_headers_cover(headers: &Vec<BlockHeader>, start: BlockNumber) -> (r: bool)
    ensures
        r == headers_cover(headers@, start.0),
{
    if headers.len() != HEADER_SLICE_SIZE {
        return false;
    }
    let mut i: usize = 0;
    while i < HEADER_SLICE_SIZE
        invariant
            headers@.len() == 192,
            i <= 192,
            forall|j: int| 0 <= j < i ==> #[trigger] headers@[j].number.0 == start.0 + j,
        decreases 192 - i,
    {
        if start.0 > u64::MAX - (i as u64) {
            assert(headers@[i as int].number.0 != start.0 + i);
            return false;
        }
        if headers[i].number.0 != start.0 + i as u64 {
            return false;
        }
        i = i + 1;
    }
    true
}

/// Checks the inner consistency of a downloaded slice: block numbers and
/// parent hashes.
pub fn check_headers_linked(headers: &Vec<BlockHeader>, start: BlockNumber) -> (r: bool)
    ensures
        r == headers_linked(headers@, start.0),
{
    if !check_headers_cover(headers, start) {
        return false;
    }
    let mut i: usize = 1;
    while i < HEADER_SLICE_SIZE
        invariant
            headers@.len() == 192,
            1 <= i <= 192,
            forall|j: int| 1 <= j < i ==> #[trigger] headers@[j].parent_hash.0@ == headers@[j - 1].hash.0@,
        decreases 192 - i,
    {
        if !headers[i].parent_hash.same_as(&headers[i - 1].hash) {
            return false;
        }
        i = i + 1;
    }
    true
}

} // verus!
