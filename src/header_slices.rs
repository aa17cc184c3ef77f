use vstd::prelude::*;
use crate::models::{BlockHeader, BlockNumber, PeerId};

verus! {

/// Number of consecutive headers held by one slice.
pub const HEADER_SLICE_SIZE: usize = 192;

/// Bytes that one header is taken to occupy when the memory budget is turned
/// into a number of slices.
pub const HEADER_MEM_SIZE: usize = 512;

/// Lifecycle of a slice in the window.
#[derive(Copy, Clone, Debug, PartialEq, Eq, Structural, Hash)]
pub enum HeaderSliceStatus {
    /// initialized, needs to be obtained
    Empty,
    /// fetch request sent to a peer
    Waiting,
    /// received from a peer
    Downloaded,
    /// headers inside the slice have a consistent structure and are linked in a proper way
    VerifiedInternally,
    /// headers of the slice are linked in a proper way to a known checkpoint
    Verified,
    /// verification failed
    Invalid,
    /// saved in the database
    Saved,
}

impl HeaderSliceStatus {
    /// Position of the status in the fixed order of all statuses.
    pub open spec fn index_of(self) -> int {
        match self {
            HeaderSliceStatus::Empty => 0,
            HeaderSliceStatus::Waiting => 1,
            HeaderSliceStatus::Downloaded => 2,
            HeaderSliceStatus::VerifiedInternally => 3,
            HeaderSliceStatus::Verified => 4,
            HeaderSliceStatus::Invalid => 5,
            HeaderSliceStatus::Saved => 6,
        }
    }

    /// A slice in this status carries headers.
    pub open spec fn has_headers(self) -> bool {
        !(self == HeaderSliceStatus::Empty || self == HeaderSliceStatus::Waiting)
    }

    pub fn index(&self) -> (r: usize)
        ensures
            r == self.index_of(),
    {
        match self {
            HeaderSliceStatus::Empty => 0,
            HeaderSliceStatus::Waiting => 1,
            HeaderSliceStatus::Downloaded => 2,
            HeaderSliceStatus::VerifiedInternally => 3,
            HeaderSliceStatus::Verified => 4,
            HeaderSliceStatus::Invalid => 5,
            HeaderSliceStatus::Saved => 6,
        }
    }

    /// Every status, in order.
    pub open spec fn all_spec() -> Seq<HeaderSliceStatus> {
        seq![
            HeaderSliceStatus::Empty,
            HeaderSliceStatus::Waiting,
            HeaderSliceStatus::Downloaded,
            HeaderSliceStatus::VerifiedInternally,
            HeaderSliceStatus::Verified,
            HeaderSliceStatus::Invalid,
            HeaderSliceStatus::Saved,
        ]
    }

    /// Every status, in order.
    pub fn all() -> (r: Vec<HeaderSliceStatus>)
        ensures
            r@ == Self::all_spec(),
    {
        let r = vec![
            HeaderSliceStatus::Empty,
            HeaderSliceStatus::Waiting,
            HeaderSliceStatus::Downloaded,
            HeaderSliceStatus::VerifiedInternally,
            HeaderSliceStatus::Verified,
            HeaderSliceStatus::Invalid,
            HeaderSliceStatus::Saved,
        ];
        assert(r@ =~= Self::all_spec());
        r
    }

    /// The status's name, as shown to users.
    pub fn name(&self) -> (r: &'static str) {
        match self {
            HeaderSliceStatus::Empty => "Empty",
            HeaderSliceStatus::Waiting => "Waiting",
            HeaderSliceStatus::Downloaded => "Downloaded",
            HeaderSliceStatus::VerifiedInternally => "VerifiedInternally",
            HeaderSliceStatus::Verified => "Verified",
            HeaderSliceStatus::Invalid => "Invalid",
            HeaderSliceStatus::Saved => "Saved",
        }
    }
}

/// The edges along which a slice may change its status.
pub open spec fn is_allowed_transition(from: HeaderSliceStatus, to: HeaderSliceStatus) -> bool {
    match from {
        HeaderSliceStatus::Empty => to == HeaderSliceStatus::Waiting,
        HeaderSliceStatus::Waiting => to == HeaderSliceStatus::Empty || to
            == HeaderSliceStatus::Downloaded,
        HeaderSliceStatus::Downloaded => to == HeaderSliceStatus::VerifiedInternally || to
            == HeaderSliceStatus::Invalid,
        HeaderSliceStatus::VerifiedInternally => to == HeaderSliceStatus::Verified || to
            == HeaderSliceStatus::Invalid,
        HeaderSliceStatus::Verified => to == HeaderSliceStatus::Saved,
        HeaderSliceStatus::Invalid => to == HeaderSliceStatus::Empty,
        HeaderSliceStatus::Saved => false,
    }
}

/// A batch of `HEADER_SLICE_SIZE` consecutive headers and its lifecycle state.
pub struct HeaderSlice {
    pub start_block_num: BlockNumber,
    pub status: HeaderSliceStatus,
    pub headers: Option<Vec<BlockHeader>>,
    pub from_peer_id: Option<PeerId>,
    /// Time at which the fetch request was sent, in milliseconds.
    pub request_time: Option<u64>,
    pub request_attempt: u16,
}

/// `headers` numbers the blocks `start .. start + HEADER_SLICE_SIZE` in order.
pub open spec fn headers_cover(headers: Seq<BlockHeader>, start: u64) -> bool {
    &&& headers.len() == 192
    &&& forall|i: int| 0 <= i < 192 ==> #[trigger] headers[i].number.0 == start + i
}

impl HeaderSlice {
    pub open spec fn wf(&self) -> bool {
        &&& (self.headers.is_some() <==> self.status.has_headers())
        &&& (self.request_time.is_some() <==> self.status == HeaderSliceStatus::Waiting)
        &&& (self.headers matches Some(h) ==> headers_cover(h@, self.start_block_num.0))
    }

    /// A freshly created slice at `start`.
    pub open spec fn is_fresh(&self, start: u64) -> bool {
        &&& self.start_block_num.0 == start
        &&& self.status == HeaderSliceStatus::Empty
        &&& self.headers.is_none()
        &&& self.from_peer_id.is_none()
        &&& self.request_time.is_none()
        &&& self.request_attempt == 0
    }
}

/// Number of slices of `s` in status `st`.
pub open spec fn count_status(s: Seq<HeaderSlice>, st: HeaderSliceStatus) -> nat
    decreases s.len(),
{
    if s.len() == 0 {
        0
    } else {
        count_status(s.drop_last(), st) + if s.last().status == st {
            1nat
        } else {
            0nat
        }
    }
}

pub proof fn lemma_count_push(s: Seq<HeaderSlice>, x: HeaderSlice, st: HeaderSliceStatus)
    ensures
        count_status(s.push(x), st) == count_status(s, st) + if x.status == st {
            1nat
        } else {
            0nat
        },
{
    assert(s.push(x).drop_last() =~= s);
}

pub proof fn lemma_count_update(s: Seq<HeaderSlice>, i: int, x: HeaderSlice, st: HeaderSliceStatus)
    requires
        0 <= i < s.len(),
    ensures
        count_status(s.update(i, x), st) + (if s[i].status == st {
            1nat
        } else {
            0nat
        }) == count_status(s, st) + if x.status == st {
            1nat
        } else {
            0nat
        },
    decreases s.len(),
{
    if i == s.len() - 1 {
        assert(s.update(i, x).drop_last() =~= s.drop_last());
    } else {
        assert(s.update(i, x).drop_last() =~= s.drop_last().update(i, x));
        lemma_count_update(s.drop_last(), i, x, st);
    }
}

pub proof fn lemma_count_drop_first(s: Seq<HeaderSlice>, st: HeaderSliceStatus)
    requires
        s.len() > 0,
    ensures
        count_status(s.subrange(1, s.len() as int), st) + (if s[0].status == st {
            1nat
        } else {
            0nat
        }) == count_status(s, st),
    decreases s.len(),
{
    if s.len() == 1 {
        assert(s.subrange(1, 1) =~= Seq::<HeaderSlice>::empty());
        assert(s.drop_last() =~= Seq::<HeaderSlice>::empty());
    } else {
        lemma_count_drop_first(s.drop_last(), st);
        assert(s.subrange(1, s.len() as int).drop_last() =~= s.drop_last().subrange(
            1,
            s.len() - 1,
        ));
    }
}

/// The per-status counts add up to the number of slices.
pub proof fn lemma_counts_sum(s: Seq<HeaderSlice>)
    ensures
        count_status(s, HeaderSliceStatus::Empty) + count_status(s, HeaderSliceStatus::Waiting)
            + count_status(s, HeaderSliceStatus::Downloaded) + count_status(
            s,
            HeaderSliceStatus::VerifiedInternally,
        ) + count_status(s, HeaderSliceStatus::Verified) + count_status(
            s,
            HeaderSliceStatus::Invalid,
        ) + count_status(s, HeaderSliceStatus::Saved) == s.len(),
    decreases s.len(),
{
    if s.len() > 0 {
        lemma_counts_sum(s.drop_last());
    }
}


/// What a window holds, for contracts.
pub struct WindowView {
    pub slices: Seq<HeaderSlice>,
    pub max_slices: nat,
    /// One past the highest block covered by a slice that was ever added.
    pub max_block_num: u64,
    pub final_block_num: u64,
    /// Count of slices in each status, indexed by `index_of`.
    pub counters: Seq<usize>,
}

impl WindowView {
    pub open spec fn wf(self) -> bool {
        &&& self.max_block_num <= self.final_block_num
        &&& self.max_block_num % 192 == 0
        &&& self.final_block_num % 192 == 0
        &&& self.slices.len() <= self.max_slices
        &&& self.slices.len() * 192 <= self.max_block_num
        &&& forall|i: int|
            0 <= i < self.slices.len() ==> #[trigger] self.slices[i].start_block_num.0
                == self.max_block_num - (self.slices.len() - i) * 192
        &&& forall|i: int| 0 <= i < self.slices.len() ==> #[trigger] self.slices[i].wf()
        &&& self.counters.len() == 7
        &&& forall|st: HeaderSliceStatus| #[trigger]
            self.counters[st.index_of()] == count_status(self.slices, st)
        &&& forall|i: int, j: int|
            0 <= i < j < self.slices.len() && #[trigger] self.slices[j].status
                == HeaderSliceStatus::Saved ==> #[trigger] self.slices[i].status
                == HeaderSliceStatus::Saved
    }

    /// The lowest block still in the window, or `max_block_num` when it is empty.
    pub open spec fn min_block_num(self) -> int {
        self.max_block_num - self.slices.len() * 192
    }

    /// The next block to be written to the database: the start of the first
    /// slice that is not saved yet, or `max_block_num` when all are saved.
    pub open spec fn saved_block_num(self) -> int {
        self.min_block_num() + count_status(self.slices, HeaderSliceStatus::Saved) * 192
    }

    /// Slice `i` is the first one in status `st`.
    pub open spec fn first_in_status(self, st: HeaderSliceStatus, i: int) -> bool {
        &&& 0 <= i < self.slices.len()
        &&& self.slices[i].status == st
        &&& forall|j: int| 0 <= j < i ==> #[trigger] self.slices[j].status != st
    }
}


/// `s` after its status is set to `st`: a slice that returns to `Empty` drops
/// its headers, its peer and its request time; other fields are kept.
pub open spec fn with_status(s: HeaderSlice, st: HeaderSliceStatus) -> HeaderSlice {
    if st == s.status {
        s
    } else if st == HeaderSliceStatus::Empty {
        HeaderSlice { status: st, headers: None, from_peer_id: None, request_time: None, ..s }
    } else {
        HeaderSlice { status: st, ..s }
    }
}

/// Every slice kept from `old` to `new` moved along an allowed edge or kept
/// its status, and every slice that left the window was saved.
pub open spec fn transitions_allowed(old: WindowView, new: WindowView) -> bool {
    &&& forall|i: int, j: int|
        0 <= i < old.slices.len() && 0 <= j < new.slices.len() && #[trigger] old.slices[i].start_block_num
            == #[trigger] new.slices[j].start_block_num ==> old.slices[i].status
            == new.slices[j].status || is_allowed_transition(
            old.slices[i].status,
            new.slices[j].status,
        )
    &&& forall|i: int|
        0 <= i < old.slices.len() && #[trigger] old.slices[i].start_block_num.0
            < new.min_block_num() ==> old.slices[i].status == HeaderSliceStatus::Saved
}

pub open spec fn one_if(b: bool) -> nat {
    if b { 1 } else { 0 }
}

proof fn lemma_count_le_len(s: Seq<HeaderSlice>, st: HeaderSliceStatus)
    ensures
        count_status(s, st) <= s.len(),
{
    lemma_counts_sum(s);
}

/// Putting a well-formed slice with the same start in place of another keeps
/// the window well-formed, given counters adjusted for the status change.
proof fn lemma_replace_slice(v: WindowView, index: int, x: HeaderSlice, counters: Seq<usize>)
    requires
        v.wf(),
        0 <= index < v.slices.len(),
        x.wf(),
        x.start_block_num == v.slices[index].start_block_num,
        x.status == HeaderSliceStatus::Saved ==> forall|j: int|
            0 <= j < index ==> #[trigger] v.slices[j].status == HeaderSliceStatus::Saved,
        v.slices[index].status == HeaderSliceStatus::Saved ==> x.status == HeaderSliceStatus::Saved,
        counters.len() == 7,
        forall|st: HeaderSliceStatus| #[trigger]
            counters[st.index_of()] + one_if(v.slices[index].status == st) == v.counters[st.index_of()]
                + one_if(x.status == st),
    ensures
        (WindowView { slices: v.slices.update(index, x), counters, ..v }).wf(),
{
    let w = WindowView { slices: v.slices.update(index, x), counters, ..v };
    assert forall|st: HeaderSliceStatus| #[trigger] w.counters[st.index_of()] == count_status(w.slices, st) by {
        lemma_count_update(v.slices, index, x, st);
        assert(v.counters[st.index_of()] == count_status(v.slices, st));
    }
    assert forall|i: int| 0 <= i < w.slices.len() implies #[trigger] w.slices[i].wf() by {
        if i != index {
            assert(v.slices[i].wf());
        }
    }
    assert forall|i: int| 0 <= i < w.slices.len() implies #[trigger] w.slices[i].start_block_num.0
        == w.max_block_num - (w.slices.len() - i) * 192 by {
        assert(v.slices[i].start_block_num.0 == v.max_block_num - (v.slices.len() - i) * 192);
    }
    assert forall|i: int, j: int|
        0 <= i < j < w.slices.len() && #[trigger] w.slices[j].status
            == HeaderSliceStatus::Saved implies #[trigger] w.slices[i].status
        == HeaderSliceStatus::Saved by {
        if j == index {
            assert(v.slices[i].status == HeaderSliceStatus::Saved);
        } else if i == index {
            assert(v.slices[j].status == HeaderSliceStatus::Saved);
            assert(v.slices[i].status == HeaderSliceStatus::Saved);
        } else {
            assert(v.slices[j].status == HeaderSliceStatus::Saved);
        }
    }
}


/// Changing one slice in place along an allowed edge is an allowed step.
proof fn lemma_update_transitions(v: WindowView, w: WindowView, index: int, x: HeaderSlice)
    requires
        v.wf(),
        0 <= index < v.slices.len(),
        w.slices == v.slices.update(index, x),
        w.max_block_num == v.max_block_num,
        x.start_block_num == v.slices[index].start_block_num,
        x.status == v.slices[index].status || is_allowed_transition(v.slices[index].status, x.status),
    ensures
        transitions_allowed(v, w),
{
    assert forall|i: int, j: int|
        0 <= i < v.slices.len() && 0 <= j < w.slices.len() && #[trigger] v.slices[i].start_block_num
            == #[trigger] w.slices[j].start_block_num implies v.slices[i].status
            == w.slices[j].status || is_allowed_transition(
            v.slices[i].status,
            w.slices[j].status,
        ) by {
        assert(v.slices[i].start_block_num.0 == v.max_block_num - (v.slices.len() - i) * 192);
        assert(v.slices[j].start_block_num.0 == v.max_block_num - (v.slices.len() - j) * 192);
        if j != index {
            assert(w.slices[j] == v.slices[j]);
        }
    }
    assert forall|i: int|
        0 <= i < v.slices.len() && #[trigger] v.slices[i].start_block_num.0
            < w.min_block_num() implies v.slices[i].status == HeaderSliceStatus::Saved by {
        assert(v.slices[i].start_block_num.0 == v.max_block_num - (v.slices.len() - i) * 192);
    }
}

/// Changing slices in place, each along an allowed edge or not at all, is an
/// allowed step.
pub proof fn lemma_pointwise_transitions(v: WindowView, w: WindowView)
    requires
        v.wf(),
        w.slices.len() == v.slices.len(),
        w.max_block_num == v.max_block_num,
        forall|i: int| 0 <= i < v.slices.len() ==> #[trigger] w.slices[i].start_block_num == v.slices[i].start_block_num
            && (w.slices[i].status == v.slices[i].status || is_allowed_transition(
            v.slices[i].status,
            w.slices[i].status,
        )),
    ensures
        transitions_allowed(v, w),
{
    assert forall|i: int, j: int|
        0 <= i < v.slices.len() && 0 <= j < w.slices.len() && #[trigger] v.slices[i].start_block_num
            == #[trigger] w.slices[j].start_block_num implies v.slices[i].status
            == w.slices[j].status || is_allowed_transition(
            v.slices[i].status,
            w.slices[j].status,
        ) by {
        assert(v.slices[i].start_block_num.0 == v.max_block_num - (v.slices.len() - i) * 192);
        assert(v.slices[j].start_block_num.0 == v.max_block_num - (v.slices.len() - j) * 192);
        assert(w.slices[j].start_block_num == v.slices[j].start_block_num);
    }
    assert forall|i: int|
        0 <= i < v.slices.len() && #[trigger] v.slices[i].start_block_num.0
            < w.min_block_num() implies v.slices[i].status == HeaderSliceStatus::Saved by {
        assert(v.slices[i].start_block_num.0 == v.max_block_num - (v.slices.len() - i) * 192);
    }
}

/// In a well-formed window the saved slices are exactly the first
/// `count_status(.., Saved)` ones.
pub proof fn lemma_saved_prefix(v: WindowView)
    requires
        v.wf(),
    ensures
        count_status(v.slices, HeaderSliceStatus::Saved) <= v.slices.len(),
        forall|j: int|
            0 <= j < v.slices.len() ==> (#[trigger] v.slices[j].status == HeaderSliceStatus::Saved
                <==> j < count_status(v.slices, HeaderSliceStatus::Saved)),
{
    lemma_saved_prefix_seq(v.slices);
}

proof fn lemma_saved_prefix_seq(s: Seq<HeaderSlice>)
    requires
        forall|i: int, j: int|
            0 <= i < j < s.len() && #[trigger] s[j].status == HeaderSliceStatus::Saved
                ==> #[trigger] s[i].status == HeaderSliceStatus::Saved,
    ensures
        count_status(s, HeaderSliceStatus::Saved) <= s.len(),
        forall|j: int|
            0 <= j < s.len() ==> (#[trigger] s[j].status == HeaderSliceStatus::Saved
                <==> j < count_status(s, HeaderSliceStatus::Saved)),
    decreases s.len(),
{
    if s.len() > 0 {
        let d = s.drop_last();
        assert forall|i: int, j: int|
            0 <= i < j < d.len() && #[trigger] d[j].status == HeaderSliceStatus::Saved
                implies #[trigger] d[i].status == HeaderSliceStatus::Saved by {
            assert(s[j].status == HeaderSliceStatus::Saved);
        }
        lemma_saved_prefix_seq(d);
        if s.last().status == HeaderSliceStatus::Saved {
            assert forall|j: int| 0 <= j < s.len() implies #[trigger] s[j].status
                == HeaderSliceStatus::Saved by {
                if j < s.len() - 1 {
                    assert(s[s.len() - 1].status == HeaderSliceStatus::Saved);
                }
            }
            assert(count_status(d, HeaderSliceStatus::Saved) == d.len()) by {
                assert forall|j: int| 0 <= j < d.len() implies #[trigger] d[j].status
                    == HeaderSliceStatus::Saved by {
                    assert(s[j].status == HeaderSliceStatus::Saved);
                }
                if count_status(d, HeaderSliceStatus::Saved) < d.len() {
                    assert(d[d.len() - 1].status == HeaderSliceStatus::Saved);
                }
            }
        } else {
            assert forall|j: int| 0 <= j < s.len() implies (#[trigger] s[j].status
                == HeaderSliceStatus::Saved <==> j < count_status(s, HeaderSliceStatus::Saved)) by {
                if j < s.len() - 1 {
                    assert(d[j] == s[j]);
                }
            }
        }
    }
}

/// Two windows of equal length whose slices agree, place by place, on being
/// in status `st` have the same count of it.
pub proof fn lemma_count_same_places(s: Seq<HeaderSlice>, t: Seq<HeaderSlice>, st: HeaderSliceStatus)
    requires
        s.len() == t.len(),
        forall|i: int| 0 <= i < s.len() ==> (#[trigger] s[i].status == st) == (t[i].status == st),
    ensures
        count_status(s, st) == count_status(t, st),
    decreases s.len(),
{
    if s.len() > 0 {
        assert(s[s.len() - 1].status == st <==> t[t.len() - 1].status == st);
        lemma_count_same_places(s.drop_last(), t.drop_last(), st);
    }
}

/// In every well-formed window each slice starts one slice after the one
/// before it.
pub proof fn lemma_slices_adjacent(v: WindowView)
    requires
        v.wf(),
    ensures
        forall|i: int|
            0 <= i < v.slices.len() - 1 ==> #[trigger] v.slices[i + 1].start_block_num.0
                == v.slices[i].start_block_num.0 + 192,
{
    assert forall|i: int| 0 <= i < v.slices.len() - 1 implies #[trigger] v.slices[i + 1].start_block_num.0
        == v.slices[i].start_block_num.0 + 192 by {
        assert(v.slices[i].start_block_num.0 == v.max_block_num - (v.slices.len() - i) * 192);
        assert(v.slices[i + 1].start_block_num.0 == v.max_block_num - (v.slices.len() - (i + 1)) * 192);
    }
}

/// In every well-formed window the counter of each status is the number of
/// slices in it, and the counters add up to the number of slices.
pub proof fn lemma_counters_match(v: WindowView)
    requires
        v.wf(),
    ensures
        forall|st: HeaderSliceStatus| #[trigger] v.counters[st.index_of()] == count_status(v.slices, st),
        v.counters[0] + v.counters[1] + v.counters[2] + v.counters[3] + v.counters[4] + v.counters[5]
            + v.counters[6] == v.slices.len(),
{
    lemma_counts_sum(v.slices);
    assert(v.counters[HeaderSliceStatus::Empty.index_of()] == count_status(v.slices, HeaderSliceStatus::Empty));
    assert(v.counters[HeaderSliceStatus::Waiting.index_of()] == count_status(v.slices, HeaderSliceStatus::Waiting));
    assert(v.counters[HeaderSliceStatus::Downloaded.index_of()] == count_status(v.slices, HeaderSliceStatus::Downloaded));
    assert(v.counters[HeaderSliceStatus::VerifiedInternally.index_of()] == count_status(v.slices, HeaderSliceStatus::VerifiedInternally));
    assert(v.counters[HeaderSliceStatus::Verified.index_of()] == count_status(v.slices, HeaderSliceStatus::Verified));
    assert(v.counters[HeaderSliceStatus::Invalid.index_of()] == count_status(v.slices, HeaderSliceStatus::Invalid));
    assert(v.counters[HeaderSliceStatus::Saved.index_of()] == count_status(v.slices, HeaderSliceStatus::Saved));
}

/// In every well-formed window with slices, `max_block_num` lies
/// `len * HEADER_SLICE_SIZE` blocks past the start of the first slice.
pub proof fn lemma_max_block_num(v: WindowView)
    requires
        v.wf(),
    ensures
        v.slices.len() > 0 ==> v.max_block_num == v.slices[0].start_block_num.0 + v.slices.len() * 192,
{
    if v.slices.len() > 0 {
        assert(v.slices[0].start_block_num.0 == v.max_block_num - (v.slices.len() - 0) * 192);
    }
}

/// A memory-bounded sliding window of slices over the block range being
/// downloaded, with a count of the slices in each status.
///
/// With max_slices = 3 it holds, for example:
/// slice 0: headers 0-192, slice 1: headers 192-384, slice 2: headers 384-576.
pub struct HeaderSlices {
    slices: Vec<HeaderSlice>,
    max_slices: usize,
    max_block_num: BlockNumber,
    final_block_num: BlockNumber,
    counters: Vec<usize>,
}

impl View for HeaderSlices {
    type V = WindowView;

    closed spec fn view(&self) -> WindowView {
        WindowView {
            slices: self.slices@,
            max_slices: self.max_slices as nat,
            max_block_num: self.max_block_num.0,
            final_block_num: self.final_block_num.0,
            counters: self.counters@,
        }
    }
}

/// Number of slices that a memory budget holds.
pub open spec fn slices_for_mem_limit(mem_limit: usize) -> int {
    mem_limit as int / 512 / 192
}

pub open spec fn min_int(a: int, b: int) -> int {
    if a <= b { a } else { b }
}

impl HeaderSlices {
    pub open spec fn wf(&self) -> bool {
        self@.wf()
    }

    /// Creates a window over `start_block_num .. final_block_num` that holds at
    /// most as many slices as `mem_limit` bytes allow, filled with empty slices.
    pub fn new(mem_limit: usize, start_block_num: BlockNumber, final_block_num: BlockNumber) -> (r:
        Self)
        requires
            start_block_num.0 % 192 == 0,
            final_block_num.0 % 192 == 0,
            start_block_num.0 <= final_block_num.0,
            slices_for_mem_limit(mem_limit) > 0 || start_block_num.0 == final_block_num.0,
        ensures
            r.wf(),
            r@.max_slices == min_int(
                slices_for_mem_limit(mem_limit),
                (final_block_num.0 - start_block_num.0) / 192,
            ),
            r@.slices.len() == r@.max_slices,
            forall|i: int|
                0 <= i < r@.slices.len() ==> #[trigger] r@.slices[i].is_fresh(
                    (start_block_num.0 + i * 192) as u64,
                ),
            r@.max_block_num == start_block_num.0 + r@.slices.len() * 192,
            r@.final_block_num == final_block_num.0,
            r@.saved_block_num() == start_block_num.0,
    {
        let mem_slices = mem_limit / HEADER_MEM_SIZE / HEADER_SLICE_SIZE;
        let range_slices: u64 = (final_block_num.0 - start_block_num.0) / (HEADER_SLICE_SIZE as u64);
        let max_slices: usize = if (mem_slices as u64) <= range_slices {
            mem_slices
        } else {
            range_slices as usize
        };
        proof {
            let d = final_block_num.0 - start_block_num.0;
            assert(max_slices <= d / 192);
            assert(max_slices * 192 <= d) by (nonlinear_arith)
                requires max_slices <= d / 192, d >= 0;
        }
        let mut slices: Vec<HeaderSlice> = Vec::new();
        let mut i: usize = 0;
        while i < max_slices
            invariant
                i <= max_slices,
                max_slices * 192 <= final_block_num.0 - start_block_num.0,
                slices@.len() == i,
                forall|j: int|
                    0 <= j < i ==> #[trigger] slices@[j].is_fresh(
                        (start_block_num.0 + j * 192) as u64,
                    ),
                forall|st: HeaderSliceStatus|
                    count_status(slices@, st) == if st == HeaderSliceStatus::Empty {
                        i as nat
                    } else {
                        0nat
                    },
            decreases max_slices - i,
        {
            proof {
                assert(i * 192 < max_slices * 192) by (nonlinear_arith)
                    requires i < max_slices;
            }
            let slice = HeaderSlice {
                start_block_num: BlockNumber(start_block_num.0 + (i as u64) * 192),
                status: HeaderSliceStatus::Empty,
                headers: None,
                from_peer_id: None,
                request_time: None,
                request_attempt: 0,
            };
            proof {
                assert forall|st: HeaderSliceStatus| true implies count_status(slices@.push(slice), st)
                    == if st == HeaderSliceStatus::Empty { (i + 1) as nat } else { 0nat } by {
                    lemma_count_push(slices@, slice, st);
                }
            }
            slices.push(slice);
            i = i + 1;
        }
        let counters = vec![max_slices, 0, 0, 0, 0, 0, 0];
        let r = HeaderSlices {
            slices,
            max_slices,
            max_block_num: BlockNumber(start_block_num.0 + (max_slices as u64) * 192),
            final_block_num,
            counters,
        };
        proof {
            assert forall|st: HeaderSliceStatus| #[trigger]
                r@.counters[st.index_of()] == count_status(r@.slices, st) by {
                match st {
                    HeaderSliceStatus::Empty => {},
                    _ => {},
                }
            }
            assert((start_block_num.0 + max_slices * 192) % 192 == 0) by (nonlinear_arith)
                requires start_block_num.0 % 192 == 0;
            assert(r@.max_block_num <= r@.final_block_num);
            assert forall|i: int| 0 <= i < r@.slices.len() implies #[trigger] r@.slices[i].wf() by {
                assert(r@.slices[i].is_fresh((start_block_num.0 + i * 192) as u64));
            }
            assert forall|i: int| 0 <= i < r@.slices.len() implies #[trigger] r@.slices[i].start_block_num.0
                == r@.max_block_num - (r@.slices.len() - i) * 192 by {
                assert(r@.slices[i].is_fresh((start_block_num.0 + i * 192) as u64));
            }
            assert(count_status(r@.slices, HeaderSliceStatus::Saved) == 0);
            assert(r@.slices.len() <= r@.max_slices);
            assert(r@.slices.len() * 192 <= r@.max_block_num);
            assert forall|i: int, j: int|
                0 <= i < j < r@.slices.len() && #[trigger] r@.slices[j].status
                    == HeaderSliceStatus::Saved implies #[trigger] r@.slices[i].status
                == HeaderSliceStatus::Saved by {
                assert(r@.slices[j].is_fresh((start_block_num.0 + j * 192) as u64));
            }
        }
        r
    }


    /// Moves one slice's count from `from` to `to`.
    fn shift_counter(&mut self, from: HeaderSliceStatus, to: HeaderSliceStatus)
        requires
            old(self)@.counters.len() == 7,
            from != to,
            old(self)@.counters[from.index_of()] >= 1,
            old(self)@.counters[to.index_of()] < usize::MAX,
        ensures
            final(self)@ == (WindowView {
                counters: old(self)@.counters.update(from.index_of(), (old(self)@.counters[from.index_of()] - 1) as usize).update(
                    to.index_of(),
                    (old(self)@.counters[to.index_of()] + 1) as usize,
                ),
                ..old(self)@
            }),
    {
        let f = from.index();
        let t = to.index();
        self.counters[f] = self.counters[f] - 1;
        self.counters[t] = self.counters[t] + 1;
    }

    /// Takes the slice at `index` out of the window, leaving a stub in its place.
    fn take_slice(&mut self, index: usize) -> (r: HeaderSlice)
        requires
            index < old(self)@.slices.len(),
        ensures
            r == old(self)@.slices[index as int],
            final(self)@.slices.len() == old(self)@.slices.len(),
            final(self)@ == (WindowView { slices: final(self)@.slices, ..old(self)@ }),
            final(self)@.slices == old(self)@.slices.update(index as int, final(self)@.slices[index as int]),
            final(self)@.slices[index as int].status == r.status,
    {
        let mut r = HeaderSlice {
            start_block_num: self.slices[index].start_block_num,
            status: self.slices[index].status,
            headers: None,
            from_peer_id: None,
            request_time: None,
            request_attempt: 0,
        };
        std::mem::swap(&mut self.slices[index], &mut r);
        r
    }

    /// Puts `x` back at `index` after `take_slice`, adjusting the counters to
    /// its status.
    fn put_slice(&mut self, index: usize, x: HeaderSlice, Ghost(v): Ghost<WindowView>)
        requires
            v.wf(),
            index < v.slices.len(),
            old(self)@ == (WindowView { slices: old(self)@.slices, ..v }),
            old(self)@.slices == v.slices.update(index as int, old(self)@.slices[index as int]),
            old(self)@.slices[index as int].status == v.slices[index as int].status,
            x.wf(),
            x.start_block_num == v.slices[index as int].start_block_num,
            x.status == HeaderSliceStatus::Saved ==> forall|j: int|
                0 <= j < index ==> #[trigger] v.slices[j].status == HeaderSliceStatus::Saved,
            v.slices[index as int].status == HeaderSliceStatus::Saved ==> x.status
                == HeaderSliceStatus::Saved,
        ensures
            final(self).wf(),
            final(self)@.slices == v.slices.update(index as int, x),
            final(self)@.max_slices == v.max_slices,
            final(self)@.max_block_num == v.max_block_num,
            final(self)@.final_block_num == v.final_block_num,
    {
        let from = self.slices[index].status;
        let to = x.status;
        proof {
            assert(from == v.slices[index as int].status);
        }
        if from != to {
            proof {
                lemma_count_update(v.slices, index as int, x, from);
                lemma_count_update(v.slices, index as int, x, to);
                lemma_count_le_len(v.slices.update(index as int, x), to);
                assert(v.counters[from.index_of()] == count_status(v.slices, from));
                assert(v.counters[to.index_of()] == count_status(v.slices, to));
            }
            self.shift_counter(from, to);
        }
        self.slices[index] = x;
        proof {
            let c = self@.counters;
            assert forall|st: HeaderSliceStatus| #[trigger]
                c[st.index_of()] + one_if(v.slices[index as int].status == st) == v.counters[st.index_of()]
                    + one_if(x.status == st) by {
                match st {
                    HeaderSliceStatus::Empty => {},
                    HeaderSliceStatus::Waiting => {},
                    HeaderSliceStatus::Downloaded => {},
                    HeaderSliceStatus::VerifiedInternally => {},
                    HeaderSliceStatus::Verified => {},
                    HeaderSliceStatus::Invalid => {},
                    HeaderSliceStatus::Saved => {},
                }
            }
            lemma_replace_slice(v, index as int, x, c);
            assert(self@.slices =~= v.slices.update(index as int, x));
            assert(self@ == (WindowView { slices: v.slices.update(index as int, x), counters: c, ..v }));
        }
    }

    /// Sets the status of the slice at `index`. A slice that returns to
    /// `Empty` drops its headers, its peer and its request time. Moves to
    /// `Waiting` and `Downloaded` carry data and go through `start_request`
    /// and `accept_headers`; a slice is saved only after all slices before it.
    pub fn set_slice_status(&mut self, index: usize, status: HeaderSliceStatus)
        requires
            old(self).wf(),
            index < old(self)@.slices.len(),
            status == old(self)@.slices[index as int].status || is_allowed_transition(
                old(self)@.slices[index as int].status,
                status,
            ),
            status != old(self)@.slices[index as int].status ==> status != HeaderSliceStatus::Waiting,
            status != old(self)@.slices[index as int].status ==> status != HeaderSliceStatus::Downloaded,
            status != old(self)@.slices[index as int].status && status == HeaderSliceStatus::Saved
                ==> forall|j: int|
                0 <= j < index ==> #[trigger] old(self)@.slices[j].status == HeaderSliceStatus::Saved,
        ensures
            final(self).wf(),
            final(self)@.slices == old(self)@.slices.update(
                index as int,
                with_status(old(self)@.slices[index as int], status),
            ),
            final(self)@.max_slices == old(self)@.max_slices,
            final(self)@.max_block_num == old(self)@.max_block_num,
            final(self)@.final_block_num == old(self)@.final_block_num,
            transitions_allowed(old(self)@, final(self)@),
            final(self)@.slices[index as int].status == status,
            status == old(self)@.slices[index as int].status ==> final(self)@ == old(self)@,
            forall|st: HeaderSliceStatus|
                #[trigger] count_status(final(self)@.slices, st) + one_if(old(self)@.slices[index as int].status == st)
                    == count_status(old(self)@.slices, st) + one_if(status == st),
    {
        let ghost v = self@;
        let old_status = self.slices[index].status;
        if status == old_status {
            proof {
                assert(v.slices.update(index as int, with_status(v.slices[index as int], status)) =~= v.slices);
                lemma_update_transitions(v, v, index as int, v.slices[index as int]);
            }
            return;
        }
        let mut x = self.take_slice(index);
        x.status = status;
        if status == HeaderSliceStatus::Empty {
            x.headers = None;
            x.from_peer_id = None;
            x.request_time = None;
        }
        proof {
            assert(v.slices[index as int].wf());
        }
        self.put_slice(index, x, Ghost(v));
        proof {
            assert(x == with_status(v.slices[index as int], status));
            lemma_update_transitions(v, self@, index as int, x);
            assert forall|st: HeaderSliceStatus|
                #[trigger] count_status(self@.slices, st) + one_if(v.slices[index as int].status == st)
                    == count_status(v.slices, st) + one_if(status == st) by {
                lemma_count_update(v.slices, index as int, x, st);
            }
        }
    }


    /// Marks the empty slice at `index` as requested at time `now`
    /// (milliseconds) and counts the attempt, saturating at `u16::MAX`.
    pub fn start_request(&mut self, index: usize, now: u64)
        requires
            old(self).wf(),
            index < old(self)@.slices.len(),
            old(self)@.slices[index as int].status == HeaderSliceStatus::Empty,
        ensures
            final(self).wf(),
            final(self)@.slices == old(self)@.slices.update(
                index as int,
                HeaderSlice {
                    status: HeaderSliceStatus::Waiting,
                    request_time: Some(now),
                    request_attempt: if old(self)@.slices[index as int].request_attempt < u16::MAX {
                        (old(self)@.slices[index as int].request_attempt + 1) as u16
                    } else {
                        u16::MAX
                    },
                    ..old(self)@.slices[index as int]
                },
            ),
            final(self)@.max_slices == old(self)@.max_slices,
            final(self)@.max_block_num == old(self)@.max_block_num,
            final(self)@.final_block_num == old(self)@.final_block_num,
            transitions_allowed(old(self)@, final(self)@),
    {
        let ghost v = self@;
        let mut x = self.take_slice(index);
        x.status = HeaderSliceStatus::Waiting;
        x.request_time = Some(now);
        if x.request_attempt < u16::MAX {
            x.request_attempt = x.request_attempt + 1;
        }
        proof {
            assert(v.slices[index as int].wf());
        }
        self.put_slice(index, x, Ghost(v));
        proof {
            lemma_update_transitions(v, self@, index as int, x);
        }
    }

    /// Stores `headers` from `peer` in the waiting slice at `index` and marks
    /// it downloaded.
    pub fn accept_headers(&mut self, index: usize, peer: PeerId, headers: Vec<BlockHeader>)
        requires
            old(self).wf(),
            index < old(self)@.slices.len(),
            old(self)@.slices[index as int].status == HeaderSliceStatus::Waiting,
            headers_cover(headers@, old(self)@.slices[index as int].start_block_num.0),
        ensures
            final(self).wf(),
            final(self)@.slices == old(self)@.slices.update(
                index as int,
                HeaderSlice {
                    status: HeaderSliceStatus::Downloaded,
                    headers: Some(headers),
                    from_peer_id: Some(peer),
                    request_time: None,
                    ..old(self)@.slices[index as int]
                },
            ),
            final(self)@.max_slices == old(self)@.max_slices,
            final(self)@.max_block_num == old(self)@.max_block_num,
            final(self)@.final_block_num == old(self)@.final_block_num,
            transitions_allowed(old(self)@, final(self)@),
    {
        let ghost v = self@;
        let mut x = self.take_slice(index);
        x.status = HeaderSliceStatus::Downloaded;
        x.headers = Some(headers);
        x.from_peer_id = Some(peer);
        x.request_time = None;
        proof {
            assert(v.slices[index as int].wf());
        }
        self.put_slice(index, x, Ghost(v));
        proof {
            lemma_update_transitions(v, self@, index as int, x);
        }
    }

    /// Removes the slices in status `status` from the head of the window.
    pub fn remove(&mut self, status: HeaderSliceStatus)
        requires
            old(self).wf(),
        ensures
            final(self).wf(),
            final(self)@.slices.len() <= old(self)@.slices.len(),
            final(self)@.slices == old(self)@.slices.subrange(
                old(self)@.slices.len() - final(self)@.slices.len(),
                old(self)@.slices.len() as int,
            ),
            forall|i: int|
                0 <= i < old(self)@.slices.len() - final(self)@.slices.len()
                    ==> #[trigger] old(self)@.slices[i].status == status,
            final(self)@.slices.len() > 0 ==> final(self)@.slices[0].status != status,
            final(self)@.max_slices == old(self)@.max_slices,
            final(self)@.max_block_num == old(self)@.max_block_num,
            final(self)@.final_block_num == old(self)@.final_block_num,
            status == HeaderSliceStatus::Saved ==> transitions_allowed(old(self)@, final(self)@),
    {
        let ghost v = self@;
        while self.slices.len() > 0 && self.slices[0].status == status
            invariant
                self.wf(),
                self@.slices.len() <= v.slices.len(),
                self@.slices == v.slices.subrange(
                    v.slices.len() - self@.slices.len(),
                    v.slices.len() as int,
                ),
                forall|i: int|
                    0 <= i < v.slices.len() - self@.slices.len() ==> #[trigger] v.slices[i].status
                        == status,
                self@.max_slices == v.max_slices,
                self@.max_block_num == v.max_block_num,
                self@.final_block_num == v.final_block_num,
            decreases self@.slices.len(),
        {
            let ghost w = self@;
            proof {
                lemma_count_drop_first(w.slices, status);
                assert(w.counters[status.index_of()] == count_status(w.slices, status));
            }
            let k = status.index();
            self.counters[k] = self.counters[k] - 1;
            self.slices.remove(0);
            proof {
                let u = self@;
                assert(u.slices =~= w.slices.subrange(1, w.slices.len() as int));
                assert forall|st: HeaderSliceStatus| #[trigger] u.counters[st.index_of()] == count_status(u.slices, st) by {
                    lemma_count_drop_first(w.slices, st);
                    assert(w.counters[st.index_of()] == count_status(w.slices, st));
                }
                assert forall|i: int| 0 <= i < u.slices.len() implies #[trigger] u.slices[i].wf() by {
                    assert(w.slices[i + 1].wf());
                }
                assert forall|i: int| 0 <= i < u.slices.len() implies #[trigger] u.slices[i].start_block_num.0
                    == u.max_block_num - (u.slices.len() - i) * 192 by {
                    assert(w.slices[i + 1].start_block_num.0 == w.max_block_num - (w.slices.len() - (i + 1)) * 192);
                }
                assert forall|i: int, j: int|
                    0 <= i < j < u.slices.len() && #[trigger] u.slices[j].status
                        == HeaderSliceStatus::Saved implies #[trigger] u.slices[i].status
                    == HeaderSliceStatus::Saved by {
                    assert(w.slices[j + 1].status == HeaderSliceStatus::Saved);
                    assert(w.slices[i + 1].status == HeaderSliceStatus::Saved);
                }
                assert(u.slices =~= v.slices.subrange(v.slices.len() - u.slices.len(), v.slices.len() as int));
                assert forall|i: int|
                    0 <= i < v.slices.len() - u.slices.len() implies #[trigger] v.slices[i].status == status by {
                    if i == v.slices.len() - w.slices.len() {
                        assert(w.slices[0] == v.slices[i]);
                    }
                }
            }
        }
        proof {
            let u = self@;
            let n = v.slices.len() - u.slices.len();
            if status == HeaderSliceStatus::Saved {
                assert forall|i: int, j: int|
                    0 <= i < v.slices.len() && 0 <= j < u.slices.len() && #[trigger] v.slices[i].start_block_num
                        == #[trigger] u.slices[j].start_block_num implies v.slices[i].status
                        == u.slices[j].status || is_allowed_transition(
                        v.slices[i].status,
                        u.slices[j].status,
                    ) by {
                    assert(v.slices[i].start_block_num.0 == v.max_block_num - (v.slices.len() - i) * 192);
                    assert(v.slices[j + n].start_block_num.0 == v.max_block_num - (v.slices.len() - (j + n)) * 192);
                    assert(u.slices[j] == v.slices[j + n]);
                }
                assert forall|i: int|
                    0 <= i < v.slices.len() && #[trigger] v.slices[i].start_block_num.0
                        < u.min_block_num() implies v.slices[i].status == HeaderSliceStatus::Saved by {
                    assert(v.slices[i].start_block_num.0 == v.max_block_num - (v.slices.len() - i) * 192);
                }
            }
        }
    }

    /// Appends empty slices at the tail until the window is full or reaches
    /// the final block.
    pub fn refill(&mut self)
        requires
            old(self).wf(),
        ensures
            final(self).wf(),
            old(self)@.slices.len() <= final(self)@.slices.len(),
            final(self)@.slices.subrange(0, old(self)@.slices.len() as int) == old(self)@.slices,
            forall|i: int|
                old(self)@.slices.len() <= i < final(self)@.slices.len() ==> #[trigger] final(self)@.slices[i].is_fresh(
                    (old(self)@.max_block_num + (i - old(self)@.slices.len()) * 192) as u64,
                ),
            final(self)@.max_block_num == old(self)@.max_block_num + (final(self)@.slices.len()
                - old(self)@.slices.len()) * 192,
            final(self)@.slices.len() == final(self)@.max_slices || final(self)@.max_block_num
                == final(self)@.final_block_num,
            final(self)@.max_slices == old(self)@.max_slices,
            final(self)@.final_block_num == old(self)@.final_block_num,
            transitions_allowed(old(self)@, final(self)@),
    {
        let ghost v = self@;
        while self.slices.len() < self.max_slices && self.max_block_num.0 < self.final_block_num.0
            invariant
                self.wf(),
                v.wf(),
                v.slices.len() <= self@.slices.len(),
                self@.slices.subrange(0, v.slices.len() as int) == v.slices,
                forall|i: int|
                    v.slices.len() <= i < self@.slices.len() ==> #[trigger] self@.slices[i].is_fresh(
                        (v.max_block_num + (i - v.slices.len()) * 192) as u64,
                    ),
                self@.max_block_num == v.max_block_num + (self@.slices.len() - v.slices.len()) * 192,
                self@.max_slices == v.max_slices,
                self@.final_block_num == v.final_block_num,
            decreases self@.max_slices - self@.slices.len(),
        {
            let ghost w = self@;
            let slice = HeaderSlice {
                start_block_num: self.max_block_num,
                status: HeaderSliceStatus::Empty,
                headers: None,
                from_peer_id: None,
                request_time: None,
                request_attempt: 0,
            };
            proof {
                lemma_counts_sum(w.slices);
                assert(w.counters[HeaderSliceStatus::Empty.index_of()] == count_status(w.slices, HeaderSliceStatus::Empty));
                lemma_count_le_len(w.slices, HeaderSliceStatus::Empty);
                assert forall|st: HeaderSliceStatus| true implies count_status(w.slices.push(slice), st)
                    == count_status(w.slices, st) + one_if(st == HeaderSliceStatus::Empty) by {
                    lemma_count_push(w.slices, slice, st);
                }
            }
            self.counters[0] = self.counters[0] + 1;
            self.slices.push(slice);
            self.max_block_num = BlockNumber(self.max_block_num.0 + 192);
            proof {
                let u = self@;
                assert(u.slices == w.slices.push(slice));
                assert forall|st: HeaderSliceStatus| #[trigger] u.counters[st.index_of()] == count_status(u.slices, st) by {
                    assert(w.counters[st.index_of()] == count_status(w.slices, st));
                }
                assert forall|i: int| 0 <= i < u.slices.len() implies #[trigger] u.slices[i].wf() by {
                    if i < w.slices.len() {
                        assert(w.slices[i].wf());
                    }
                }
                assert forall|i: int| 0 <= i < u.slices.len() implies #[trigger] u.slices[i].start_block_num.0
                    == u.max_block_num - (u.slices.len() - i) * 192 by {
                    if i < w.slices.len() {
                        assert(w.slices[i].start_block_num.0 == w.max_block_num - (w.slices.len() - i) * 192);
                    }
                }
                assert forall|i: int, j: int|
                    0 <= i < j < u.slices.len() && #[trigger] u.slices[j].status
                        == HeaderSliceStatus::Saved implies #[trigger] u.slices[i].status
                    == HeaderSliceStatus::Saved by {
                    assert(w.slices[j].status == HeaderSliceStatus::Saved);
                    assert(w.slices[i].status == HeaderSliceStatus::Saved);
                }
                assert(u.slices.subrange(0, v.slices.len() as int) =~= v.slices) by {
                    assert(w.slices.subrange(0, v.slices.len() as int) == v.slices);
                }
                assert forall|i: int|
                    v.slices.len() <= i < u.slices.len() implies #[trigger] u.slices[i].is_fresh(
                        (v.max_block_num + (i - v.slices.len()) * 192) as u64,
                    ) by {
                    if i < w.slices.len() {
                        assert(w.slices[i].is_fresh((v.max_block_num + (i - v.slices.len()) * 192) as u64));
                    }
                }
            }
        }
        proof {
            let u = self@;
            assert forall|i: int, j: int|
                0 <= i < v.slices.len() && 0 <= j < u.slices.len() && #[trigger] v.slices[i].start_block_num
                    == #[trigger] u.slices[j].start_block_num implies v.slices[i].status
                    == u.slices[j].status || is_allowed_transition(
                    v.slices[i].status,
                    u.slices[j].status,
                ) by {
                assert(v.slices[i].start_block_num.0 == v.max_block_num - (v.slices.len() - i) * 192);
                if j < v.slices.len() {
                    assert(u.slices[j] == u.slices.subrange(0, v.slices.len() as int)[j]);
                    assert(v.slices[j].start_block_num.0 == v.max_block_num - (v.slices.len() - j) * 192);
                } else {
                    assert(u.slices[j].is_fresh((v.max_block_num + (j - v.slices.len()) * 192) as u64));
                }
            }
            assert forall|i: int|
                0 <= i < v.slices.len() && #[trigger] v.slices[i].start_block_num.0
                    < u.min_block_num() implies v.slices[i].status == HeaderSliceStatus::Saved by {
                assert(v.slices[i].start_block_num.0 == v.max_block_num - (v.slices.len() - i) * 192);
            }
        }
    }

    pub fn len(&self) -> (r: usize)
        ensures
            r == self@.slices.len(),
    {
        self.slices.len()
    }

    /// The slice at position `index` of the window.
    pub fn slice(&self, index: usize) -> (r: &HeaderSlice)
        requires
            index < self@.slices.len(),
        ensures
            *r == self@.slices[index as int],
    {
        &self.slices[index]
    }

    /// The status of each slice, in window order.
    pub fn clone_statuses(&self) -> (r: Vec<HeaderSliceStatus>)
        ensures
            r@ == self@.slices.map_values(|s: HeaderSlice| s.status),
    {
        let mut r: Vec<HeaderSliceStatus> = Vec::new();
        let mut i: usize = 0;
        while i < self.slices.len()
            invariant
                i <= self@.slices.len(),
                r@ == self@.slices.subrange(0, i as int).map_values(|s: HeaderSlice| s.status),
            decreases self@.slices.len() - i,
        {
            r.push(self.slices[i].status);
            i = i + 1;
            assert(r@ =~= self@.slices.subrange(0, i as int).map_values(|s: HeaderSlice| s.status));
        }
        assert(self@.slices.subrange(0, i as int) =~= self@.slices);
        r
    }

    /// Position of the slice that starts at `start_block_num`, if the window holds one.
    pub fn find_by_start_block_num(&self, start_block_num: BlockNumber) -> (r: Option<usize>)
        ensures
            r matches Some(i) ==> i < self@.slices.len() && self@.slices[i as int].start_block_num
                == start_block_num,
            r is None ==> forall|i: int|
                0 <= i < self@.slices.len() ==> #[trigger] self@.slices[i].start_block_num
                    != start_block_num,
    {
        let mut i: usize = 0;
        while i < self.slices.len()
            invariant
                i <= self@.slices.len(),
                forall|j: int| 0 <= j < i ==> #[trigger] self@.slices[j].start_block_num
                    != start_block_num,
            decreases self@.slices.len() - i,
        {
            if self.slices[i].start_block_num.0 == start_block_num.0 {
                return Some(i);
            }
            i = i + 1;
        }
        None
    }

    /// Position of the first slice in status `status`, if any.
    pub fn find_by_status(&self, status: HeaderSliceStatus) -> (r: Option<usize>)
        ensures
            r matches Some(i) ==> self@.first_in_status(status, i as int),
            r is None ==> forall|i: int|
                0 <= i < self@.slices.len() ==> #[trigger] self@.slices[i].status != status,
    {
        let mut i: usize = 0;
        while i < self.slices.len()
            invariant
                i <= self@.slices.len(),
                forall|j: int| 0 <= j < i ==> #[trigger] self@.slices[j].status != status,
            decreases self@.slices.len() - i,
        {
            if self.slices[i].status == status {
                return Some(i);
            }
            i = i + 1;
        }
        None
    }

    /// Positions of the first `batch_size` slices in status `status`, in window order.
    pub fn find_batch_by_status(&self, status: HeaderSliceStatus, batch_size: usize) -> (r: Vec<
        usize,
    >)
        ensures
            r@.len() <= batch_size,
            forall|a: int, b: int| 0 <= a < b < r@.len() ==> r@[a] < r@[b],
            forall|a: int|
                0 <= a < r@.len() ==> r@[a] < self@.slices.len() && #[trigger] self@.slices[r@[a] as int].status == status,
            forall|j: int|
                0 <= j < self@.slices.len() && #[trigger] self@.slices[j].status == status && (
                r@.len() < batch_size || (r@.len() > 0 && j < r@.last())) ==> r@.contains(
                    j as usize,
                ),
    {
        let mut batch: Vec<usize> = Vec::new();
        let mut i: usize = 0;
        while i < self.slices.len() && batch.len() < batch_size
            invariant
                i <= self@.slices.len(),
                batch@.len() <= batch_size,
                forall|a: int, b: int| 0 <= a < b < batch@.len() ==> batch@[a] < batch@[b],
                forall|a: int| 0 <= a < batch@.len() ==> #[trigger] batch@[a] < i,
                forall|a: int|
                    0 <= a < batch@.len() ==> #[trigger] self@.slices[batch@[a] as int].status
                        == status,
                forall|j: int|
                    0 <= j < i && #[trigger] self@.slices[j].status == status
                        ==> batch@.contains(j as usize),
            decreases self@.slices.len() - i,
        {
            if self.slices[i].status == status {
                let ghost old_batch = batch@;
                batch.push(i);
                proof {
                    assert(batch@[old_batch.len() as int] == i);
                    assert forall|j: int|
                        0 <= j < i + 1 && #[trigger] self@.slices[j].status == status
                            implies batch@.contains(j as usize) by {
                        if j < i {
                            let k = choose|k: int| 0 <= k < old_batch.len() && old_batch[k] == j as usize;
                            assert(batch@[k] == j as usize);
                        } else {
                            assert(batch@[old_batch.len() as int] == j as usize);
                        }
                    }
                }
            }
            i = i + 1;
        }
        proof {
            if batch@.len() > 0 {
                assert(batch@[batch@.len() - 1] < i);
            }
        }
        batch
    }

    /// Whether some slice is in one of `statuses`.
    pub fn has_one_of_statuses(&self, statuses: &[HeaderSliceStatus]) -> (r: bool)
        requires
            self.wf(),
        ensures
            r == exists|k: int|
                0 <= k < statuses@.len() && count_status(self@.slices, #[trigger] statuses@[k])
                    > 0,
    {
        let mut k: usize = 0;
        while k < statuses.len()
            invariant
                self.wf(),
                k <= statuses@.len(),
                forall|m: int| 0 <= m < k ==> count_status(self@.slices, #[trigger] statuses@[m]) == 0,
            decreases statuses@.len() - k,
        {
            if self.count_slices_in_status(statuses[k]) > 0 {
                return true;
            }
            k = k + 1;
        }
        false
    }

    /// How many slices are in status `status`.
    pub fn count_slices_in_status(&self, status: HeaderSliceStatus) -> (r: usize)
        requires
            self.wf(),
        ensures
            r == count_status(self@.slices, status),
    {
        let r = self.counters[status.index()];
        proof {
            assert(self@.counters[status.index_of()] == count_status(self@.slices, status));
        }
        r
    }

    /// Each status with the number of slices in it, in the order of `HeaderSliceStatus::all`.
    pub fn status_counters(&self) -> (r: Vec<(HeaderSliceStatus, usize)>)
        requires
            self.wf(),
        ensures
            r@.len() == 7,
            forall|k: int|
                0 <= k < 7 ==> #[trigger] r@[k] == (
                    HeaderSliceStatus::all_spec()[k],
                    count_status(self@.slices, HeaderSliceStatus::all_spec()[k]) as usize,
                ),
    {
        let all = HeaderSliceStatus::all();
        let mut r: Vec<(HeaderSliceStatus, usize)> = Vec::new();
        let mut k: usize = 0;
        while k < all.len()
            invariant
                self.wf(),
                all@ == HeaderSliceStatus::all_spec(),
                k <= 7,
                r@.len() == k,
                forall|m: int|
                    0 <= m < k ==> #[trigger] r@[m] == (
                        HeaderSliceStatus::all_spec()[m],
                        count_status(self@.slices, HeaderSliceStatus::all_spec()[m]) as usize,
                    ),
            decreases 7 - k,
        {
            let status = all[k];
            let count = self.count_slices_in_status(status);
            r.push((status, count));
            k = k + 1;
        }
        r
    }

    /// The lowest block still in the window, or `max_block_num` when it is empty.
    pub fn min_block_num(&self) -> (r: BlockNumber)
        requires
            self.wf(),
        ensures
            r.0 == self@.min_block_num(),
    {
        if self.slices.len() > 0 {
            self.slices[0].start_block_num
        } else {
            self.max_block_num
        }
    }

    pub fn max_slices(&self) -> (r: usize)
        ensures
            r == self@.max_slices,
    {
        self.max_slices
    }

    pub fn max_block_num(&self) -> (r: BlockNumber)
        ensures
            r.0 == self@.max_block_num,
    {
        self.max_block_num
    }

    pub fn final_block_num(&self) -> (r: BlockNumber)
        ensures
            r.0 == self@.final_block_num,
    {
        self.final_block_num
    }

    pub fn is_empty_at_final_position(&self) -> (r: bool)
        ensures
            r == (self@.max_block_num >= self@.final_block_num && self@.slices.len() == 0),
    {
        self.max_block_num.0 >= self.final_block_num.0 && self.slices.len() == 0
    }
}

/// Rounds a block number down to the start of the slice that contains it.
pub fn align_block_num_to_slice_start(num: BlockNumber) -> (r: BlockNumber)
    ensures
        r.0 == num.0 - num.0 % 192,
        r.0 % 192 == 0,
        r.0 <= num.0 < r.0 + 192,
{
    let slice_size = HEADER_SLICE_SIZE as u64;
    BlockNumber(num.0 / slice_size * slice_size)
}

} // verus!
