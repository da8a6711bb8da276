//! The scheduler: admission, completion routing, and result accounting.
//!
//! The scheduler owns the slot pool and the pending list. The unverified
//! driver around it performs the opens, submits the read requests this
//! module hands out, waits on the completion queue, and feeds each
//! completion back here under the slot index it was tagged with. Every
//! decision — which file enters which slot, how long the next read is,
//! whether a completion finishes a file or forces a resubmission, what every
//! terminal result holds — is made and verified here.
//!
//! The central bookkeeping invariant: the paths still pending, the paths in
//! flight, and the paths already reported always add up, as a multiset, to
//! exactly the input paths. Every admitted file therefore produces exactly
//! one terminal result, none twice, none dropped.

use vstd::prelude::*;
use vstd::multiset::Multiset;

use crate::digest::Accumulator;
use crate::digest::md5_of;
use crate::file_state::FileReadState;
use crate::file_state::Progress;
use crate::file_state::round_up_block;
use crate::file_state::spec_chunk_len;
use crate::file_state::spec_round_up_block;
use crate::pool::SlotPool;
use crate::pool::lemma_n_occupied_bounds;
use crate::pool::lemma_pool_accounting;
use crate::pool::n_occupied;
use crate::MAX_READ_SIZE;

verus! {

broadcast use {vstd::multiset::group_multiset_axioms, vstd::seq_lib::group_to_multiset_ensures};

/// Why one file failed; such a failure never touches other files.
#[derive(Clone, Copy, Debug, PartialEq, Eq, Structural)]
pub enum FileError {
    /// The file could not be opened.
    Open,
    /// The file's length could not be determined.
    Stat,
    /// A read of the file failed.
    Read,
}

/// The one terminal message a file yields: its digest, or why it failed.
pub struct FileResult {
    pub path: String,
    pub outcome: Result<Vec<u8>, FileError>,
}

/// One read to submit to the kernel interface, tagged with the slot index
/// that owns it as its correlation id. `len` is the number of bytes the
/// digest needs; `submit_len` is what to ask the kernel for — the same,
/// except that direct I/O rounds the final, possibly sub-block chunk up to
/// the block size, and the completion is then truncated back to the true
/// remaining length.
pub struct ReadRequest {
    pub slot: usize,
    pub file_idx: u32,
    pub offset: u64,
    pub len: usize,
    pub submit_len: usize,
}

/// What admitting one pending file led to.
pub enum AdmitOutcome {
    /// The file occupies a slot; submit this read.
    Started(ReadRequest),
    /// The file was finished on admission (it is empty): emit this result.
    /// No slot was consumed and no read is submitted.
    Report(FileResult),
}

/// What one completion led to.
pub enum CompleteOutcome {
    /// The file's cursor reached the end: its slot is free again; emit this
    /// result.
    Finished(FileResult),
    /// More bytes remain: submit this read for the same slot.
    Resubmit(ReadRequest),
}

/// The paths of the states in occupied slots, as a multiset: in-flight files
/// have no order.
pub open spec fn slot_paths(s: Seq<Option<FileReadState>>) -> Multiset<Seq<char>>
    decreases s.len(),
{
    if s.len() == 0 {
        Multiset::empty()
    } else {
        slot_paths(s.drop_last()).add(entry_paths(s.last()))
    }
}

/// The path of one table entry, as a multiset of at most one element.
pub open spec fn entry_paths(e: Option<FileReadState>) -> Multiset<Seq<char>> {
    match e {
        Some(st) => Multiset::singleton(st.path()),
        None => Multiset::empty(),
    }
}

/// The views of a list of paths.
pub open spec fn path_views(paths: Seq<String>) -> Seq<Seq<char>> {
    paths.map_values(|p: String| p@)
}

/// What well-formedness asks of one table entry: an occupied slot holds a
/// well-formed, unfinished state.
pub open spec fn entry_ok(e: Option<FileReadState>) -> bool {
    match e {
        Some(st) => st.wf() && st.position() < st.file_len(),
        None => true,
    }
}

/// Replacing one entry exchanges exactly that entry's path.
proof fn lemma_slot_paths_update(s: Seq<Option<FileReadState>>, i: int, v: Option<FileReadState>)
    requires
        0 <= i < s.len(),
    ensures
        slot_paths(s.update(i, v)).add(entry_paths(s[i])) == slot_paths(s).add(entry_paths(v)),
    decreases s.len(),
{
    let t = s.update(i, v);
    let ds = s.drop_last();
    if i == s.len() - 1 {
        assert(t.drop_last() =~= ds);
        assert(slot_paths(t) == slot_paths(ds).add(entry_paths(v)));
        assert(slot_paths(s) == slot_paths(ds).add(entry_paths(s[i])));
        assert(slot_paths(t).add(entry_paths(s[i])) =~= slot_paths(s).add(entry_paths(v)));
    } else {
        assert(t.drop_last() =~= ds.update(i, v));
        lemma_slot_paths_update(ds, i, v);
        assert(slot_paths(t) == slot_paths(ds.update(i, v)).add(entry_paths(s.last())));
        assert(slot_paths(s) == slot_paths(ds).add(entry_paths(s.last())));
        assert(ds[i] == s[i]);
        assert forall|q: Seq<char>|
            slot_paths(t).add(entry_paths(s[i])).count(q) == slot_paths(s).add(
                entry_paths(v),
            ).count(q) by {
            assert(slot_paths(ds.update(i, v)).add(entry_paths(s[i])).count(q) == slot_paths(
                ds,
            ).add(entry_paths(v)).count(q));
        }
        assert(slot_paths(t).add(entry_paths(s[i])) =~= slot_paths(s).add(entry_paths(v)));
    }
}

/// A table with no occupied entry holds no path.
proof fn lemma_slot_paths_unoccupied(s: Seq<Option<FileReadState>>)
    requires
        n_occupied(s) == 0,
    ensures
        slot_paths(s) == Multiset::<Seq<char>>::empty(),
    decreases s.len(),
{
    if s.len() > 0 {
        lemma_n_occupied_bounds(s.drop_last());
        lemma_slot_paths_unoccupied(s.drop_last());
        assert(slot_paths(s) =~= Multiset::<Seq<char>>::empty());
    }
}

/// The scheduler: the slot pool, the pending list, and the accounting of
/// what has been reported.
pub struct Scheduler {
    pool: SlotPool,
    pending: Vec<String>,
    direct_io: bool,
    next_file_idx: u32,
    input: Ghost<Seq<Seq<char>>>,
    reported: Ghost<Seq<Seq<char>>>,
}

/// Whether a read request is the right next read for the state `st` sitting
/// in slot `slot`, under the given direct-I/O choice.
pub open spec fn request_matches(req: ReadRequest, slot: int, st: FileReadState, direct: bool) -> bool {
    &&& req.slot == slot
    &&& req.file_idx == st.file_idx()
    &&& req.offset == st.position()
    &&& req.len == spec_chunk_len(st.file_len(), st.position())
    &&& req.submit_len as int == if direct {
        spec_round_up_block(req.len as int)
    } else {
        req.len as int
    }
    &&& 0 < req.len <= req.submit_len <= MAX_READ_SIZE
}

impl Scheduler {
    /// The fixed slot count.
    pub closed spec fn capacity(&self) -> int {
        self.pool.capacity()
    }

    /// The views of the paths not yet started, in admission order: the last
    /// is admitted next.
    pub closed spec fn pending_paths(&self) -> Seq<Seq<char>> {
        path_views(self.pending@)
    }

    /// The paths currently occupying slots.
    pub closed spec fn inflight_paths(&self) -> Multiset<Seq<char>> {
        slot_paths(self.pool.slots())
    }

    /// The paths of the results handed out so far, in emission order.
    pub closed spec fn reported_paths(&self) -> Seq<Seq<char>> {
        self.reported@
    }

    /// The views of the paths the run was started with.
    pub closed spec fn input_paths(&self) -> Seq<Seq<char>> {
        self.input@
    }

    /// The state occupying a slot, if any.
    pub closed spec fn slot_state(&self, i: int) -> Option<FileReadState> {
        self.pool.slot(i)
    }

    /// How many slots are occupied.
    pub closed spec fn n_inflight(&self) -> int {
        self.pool.n_occ()
    }

    /// How many slots are free.
    pub closed spec fn n_free(&self) -> int {
        self.pool.n_free()
    }

    /// Whether reads are submitted under direct-I/O alignment rules.
    pub closed spec fn direct(&self) -> bool {
        self.direct_io
    }

    /// The number the next file that opens is registered under. Every file
    /// admitted through `admit_ok` takes the next number, in admission
    /// order — empty files included, since a driver that pre-registers
    /// descriptors registers every file it opened, whether or not a read is
    /// ever submitted for it.
    pub closed spec fn next_idx(&self) -> u32 {
        self.next_file_idx
    }

    /// Well-formedness: the pool's accounting holds; every occupied slot
    /// holds a well-formed, unfinished state; pending, in-flight and
    /// reported paths add up to the input; and the registration counter
    /// stays within the input count.
    pub closed spec fn wf(&self) -> bool {
        &&& self.pool.wf()
        &&& forall|i: int| 0 <= i < self.pool.capacity() ==> entry_ok(#[trigger] self.pool.slot(i))
        &&& self.pending_paths().to_multiset().add(self.inflight_paths()).add(
            self.reported_paths().to_multiset(),
        ) == self.input_paths().to_multiset()
        &&& self.input@.len() <= u32::MAX
        &&& self.next_file_idx as int + self.pending@.len() <= self.input@.len()
    }

    /// A fresh scheduler over the given paths: all pending, nothing in
    /// flight, nothing reported. Paths are admitted from the end of the
    /// list.
    pub fn new(paths: Vec<String>, n: usize, direct_io: bool) -> (s: Scheduler)
        requires
            1 <= n,
            paths@.len() <= u32::MAX,
        ensures
            s.wf(),
            s.capacity() == n,
            s.direct() == direct_io,
            s.pending_paths() == path_views(paths@),
            s.input_paths() == s.pending_paths(),
            s.reported_paths() == Seq::<Seq<char>>::empty(),
            s.n_inflight() == 0,
            s.n_free() == n,
            s.next_idx() == 0,
    {
        let ghost views = path_views(paths@);
        let pool = SlotPool::new(n);
        let s = Scheduler {
            pool,
            pending: paths,
            direct_io,
            next_file_idx: 0,
            input: Ghost(views),
            reported: Ghost(Seq::empty()),
        };
        proof {
            lemma_slot_paths_unoccupied(s.pool.slots());
            assert(s.pending_paths().to_multiset().add(s.inflight_paths()).add(
                s.reported_paths().to_multiset(),
            ) =~= s.input_paths().to_multiset());
        }
        s
    }

    /// Whether a file can be admitted right now: a pending path and a free
    /// slot both exist.
    pub fn can_admit(&self) -> (r: bool)
        ensures
            r == (self.pending_paths().len() > 0 && self.n_free() > 0),
    {
        self.pending.len() > 0 && self.pool.free_count() > 0
    }

    /// The path admitted next, for the caller to open and measure.
    pub fn peek_pending(&self) -> (r: &String)
        requires
            self.pending_paths().len() > 0,
        ensures
            r@ == self.pending_paths().last(),
    {
        &self.pending[self.pending.len() - 1]
    }

    /// Admit the next pending path after it was opened and measured. Every
    /// admitted file takes the next registration number, in admission order,
    /// matching a driver that registered every opened descriptor. An empty
    /// file is then finished on the spot — its result carries the digest of
    /// the empty sequence and no slot is consumed, so no read is ever
    /// submitted for it. Any other file takes a free slot and the scheduler
    /// hands back its first read.
    pub fn admit_ok(&mut self, file_len: u64) -> (r: AdmitOutcome)
        requires
            old(self).wf(),
            old(self).pending_paths().len() > 0,
            old(self).n_free() > 0,
        ensures
            final(self).wf(),
            final(self).capacity() == old(self).capacity(),
            final(self).direct() == old(self).direct(),
            final(self).input_paths() == old(self).input_paths(),
            final(self).pending_paths() == old(self).pending_paths().drop_last(),
            r matches AdmitOutcome::Report(res) ==> {
                &&& file_len == 0
                &&& res.path@ == old(self).pending_paths().last()
                &&& res.outcome matches Ok(d) && d@ == md5_of(Seq::<u8>::empty()) && d@.len() == 16
                &&& forall|j: int|
                    0 <= j < old(self).capacity() ==> final(self).slot_state(j) == old(
                        self,
                    ).slot_state(j)
                &&& final(self).n_inflight() == old(self).n_inflight()
                &&& final(self).n_free() == old(self).n_free()
                &&& final(self).reported_paths() == old(self).reported_paths().push(res.path@)
                &&& final(self).next_idx() == old(self).next_idx() + 1
            },
            r matches AdmitOutcome::Started(req) ==> {
                &&& file_len > 0
                &&& 0 <= (req.slot as int) < old(self).capacity()
                &&& old(self).slot_state(req.slot as int) is None
                &&& final(self).slot_state(req.slot as int) matches Some(st) && {
                    &&& st.wf()
                    &&& st.path() == old(self).pending_paths().last()
                    &&& st.file_len() == file_len
                    &&& st.position() == 0
                    &&& st.absorbed() == Seq::<u8>::empty()
                    &&& st.file_idx() == old(self).next_idx()
                    &&& request_matches(req, req.slot as int, st, old(self).direct())
                }
                &&& forall|j: int|
                    0 <= j < old(self).capacity() && j != req.slot ==> final(self).slot_state(j)
                        == old(self).slot_state(j)
                &&& final(self).n_inflight() == old(self).n_inflight() + 1
                &&& final(self).n_free() == old(self).n_free() - 1
                &&& final(self).reported_paths() == old(self).reported_paths()
                &&& final(self).next_idx() == old(self).next_idx() + 1
            },
    {
        let ghost old_pending = self.pending@;
        let path = match self.pending.pop() {
            Some(p) => p,
            None => unreached(),
        };
        let ghost p = path@;
        proof {
            assert(path_views(old_pending).drop_last() =~= path_views(self.pending@));
            assert(path_views(old_pending) =~= path_views(self.pending@).push(p));
        }
        if file_len == 0 {
            self.next_file_idx = self.next_file_idx + 1;
            let acc = Accumulator::new();
            let digest = acc.finalize();
            self.reported = Ghost(self.reported@.push(p));
            proof {
                assert(self.pending_paths().to_multiset().add(self.inflight_paths()).add(
                    self.reported_paths().to_multiset(),
                ) =~= self.input_paths().to_multiset());
            }
            AdmitOutcome::Report(FileResult { path, outcome: Ok(digest) })
        } else {
            let idx = self.next_file_idx;
            let st = FileReadState::new(path, file_len, idx);
            let ghost gst = st;
            let needed = st.needed_len();
            self.next_file_idx = idx + 1;
            let ghost slots_before = self.pool.slots();
            let slot = match self.pool.acquire(st) {
                Some(i) => i,
                None => unreached(),
            };
            let submit_len = if self.direct_io {
                round_up_block(needed)
            } else {
                needed
            };
            proof {
                lemma_slot_paths_update(slots_before, slot as int, Some(gst));
                assert(slots_before[slot as int] is None);
                assert(entry_paths(slots_before[slot as int]) == Multiset::<Seq<char>>::empty());
                assert(self.pool.slots() == slots_before.update(slot as int, Some(gst)));
                assert(gst.path() == p);
                assert(self.inflight_paths().add(Multiset::<Seq<char>>::empty()) == slot_paths(
                    slots_before,
                ).add(Multiset::singleton(p)));
                assert(old(self).pending_paths().to_multiset() =~= self.pending_paths().to_multiset().insert(p));
                assert(old(self).pending_paths().to_multiset().add(old(self).inflight_paths()).add(
                    old(self).reported_paths().to_multiset(),
                ) == old(self).input_paths().to_multiset());
                assert forall|q: Seq<char>|
                    self.pending_paths().to_multiset().add(self.inflight_paths()).add(
                        self.reported_paths().to_multiset(),
                    ).count(q) == self.input_paths().to_multiset().count(q) by {
                    assert(old(self).pending_paths().to_multiset().add(
                        old(self).inflight_paths(),
                    ).add(old(self).reported_paths().to_multiset()).count(q) == old(
                        self,
                    ).input_paths().to_multiset().count(q));
                    assert(self.pending_paths().to_multiset().insert(p).count(q) == old(
                        self,
                    ).pending_paths().to_multiset().count(q));
                    assert(self.inflight_paths().add(Multiset::<Seq<char>>::empty()).count(q)
                        == slot_paths(slots_before).add(Multiset::singleton(p)).count(q));
                }
                assert(self.pending_paths().to_multiset().add(self.inflight_paths()).add(
                    self.reported_paths().to_multiset(),
                ) =~= self.input_paths().to_multiset());
                assert forall|j: int|
                    0 <= j < self.pool.capacity() implies entry_ok(#[trigger] self.pool.slot(j)) by {
                    if j != slot {
                        assert(self.pool.slot(j) == old(self).pool.slot(j));
                        assert(entry_ok(old(self).pool.slot(j)));
                    }
                }
            }
            AdmitOutcome::Started(
                ReadRequest { slot, file_idx: idx, offset: 0, len: needed, submit_len },
            )
        }
    }

    /// Admit the next pending path as failed: the caller could not open or
    /// measure it. The error result is handed back at once; no slot is
    /// touched and no other file is affected.
    pub fn admit_err(&mut self, error: FileError) -> (res: FileResult)
        requires
            old(self).wf(),
            old(self).pending_paths().len() > 0,
        ensures
            final(self).wf(),
            final(self).capacity() == old(self).capacity(),
            final(self).direct() == old(self).direct(),
            final(self).input_paths() == old(self).input_paths(),
            final(self).pending_paths() == old(self).pending_paths().drop_last(),
            res.path@ == old(self).pending_paths().last(),
            res.outcome == Err::<Vec<u8>, FileError>(error),
            forall|j: int|
                0 <= j < old(self).capacity() ==> final(self).slot_state(j) == old(
                    self,
                ).slot_state(j),
            final(self).n_inflight() == old(self).n_inflight(),
            final(self).n_free() == old(self).n_free(),
            final(self).reported_paths() == old(self).reported_paths().push(res.path@),
            final(self).next_idx() == old(self).next_idx(),
    {
        let ghost old_pending = self.pending@;
        let path = match self.pending.pop() {
            Some(p) => p,
            None => unreached(),
        };
        let ghost p = path@;
        self.reported = Ghost(self.reported@.push(p));
        proof {
            assert(path_views(old_pending).drop_last() =~= path_views(self.pending@));
            assert(path_views(old_pending) =~= path_views(self.pending@).push(p));
            assert(self.pending_paths().to_multiset().add(self.inflight_paths()).add(
                self.reported_paths().to_multiset(),
            ) =~= self.input_paths().to_multiset());
        }
        FileResult { path, outcome: Err(error) }
    }

    /// How many bytes the read in flight for this slot asked the digest for:
    /// a completion that delivered more must be truncated to this before it
    /// is fed back.
    pub fn needed_len(&self, slot: usize) -> (r: usize)
        requires
            self.wf(),
            0 <= (slot as int) < self.capacity(),
            self.slot_state(slot as int) is Some,
        ensures
            self.slot_state(slot as int) matches Some(st) ==> r == spec_chunk_len(
                st.file_len(),
                st.position(),
            ) && 1 <= r <= MAX_READ_SIZE,
    {
        self.pool.borrow_slot(slot).needed_len()
    }

    /// Route one completion back to the slot it was tagged with: feed the
    /// delivered bytes — possibly fewer than were asked for — to that file's
    /// digest in cursor order. A file whose cursor reaches the end leaves
    /// its slot and yields its result, whose digest is the MD5 of exactly
    /// the bytes delivered for it, in order; otherwise the scheduler hands
    /// back the next read for the same slot.
    pub fn complete(&mut self, slot: usize, bytes: &[u8]) -> (r: CompleteOutcome)
        requires
            old(self).wf(),
            0 <= (slot as int) < old(self).capacity(),
            old(self).slot_state(slot as int) matches Some(st) && 1 <= bytes@.len()
                && st.position() + bytes@.len() <= st.file_len(),
        ensures
            final(self).wf(),
            final(self).capacity() == old(self).capacity(),
            final(self).direct() == old(self).direct(),
            final(self).input_paths() == old(self).input_paths(),
            final(self).pending_paths() == old(self).pending_paths(),
            final(self).next_idx() == old(self).next_idx(),
            old(self).slot_state(slot as int) matches Some(st) ==> match r {
                CompleteOutcome::Finished(res) => {
                    &&& st.position() + bytes@.len() == st.file_len()
                    &&& res.path@ == st.path()
                    &&& res.outcome matches Ok(d) && d@ == md5_of(st.absorbed() + bytes@)
                        && d@.len() == 16
                    &&& (st.absorbed() + bytes@).len() == st.file_len()
                    &&& final(self).slot_state(slot as int) is None
                    &&& forall|j: int|
                        0 <= j < old(self).capacity() && j != slot ==> final(self).slot_state(j)
                            == old(self).slot_state(j)
                    &&& final(self).n_inflight() == old(self).n_inflight() - 1
                    &&& final(self).n_free() == old(self).n_free() + 1
                    &&& final(self).reported_paths() == old(self).reported_paths().push(st.path())
                },
                CompleteOutcome::Resubmit(req) => {
                    &&& st.position() + bytes@.len() < st.file_len()
                    &&& final(self).slot_state(slot as int) matches Some(st2) && {
                        &&& st2.wf()
                        &&& st2.path() == st.path()
                        &&& st2.file_len() == st.file_len()
                        &&& st2.file_idx() == st.file_idx()
                        &&& st2.position() == st.position() + bytes@.len()
                        &&& st2.absorbed() == st.absorbed() + bytes@
                        &&& request_matches(req, slot as int, st2, old(self).direct())
                    }
                    &&& forall|j: int|
                        0 <= j < old(self).capacity() && j != slot ==> final(self).slot_state(j)
                            == old(self).slot_state(j)
                    &&& final(self).n_inflight() == old(self).n_inflight()
                    &&& final(self).n_free() == old(self).n_free()
                    &&& final(self).reported_paths() == old(self).reported_paths()
                },
            },
    {
        let ghost slots_before = self.pool.slots();
        let ghost st_before = self.pool.slot(slot as int)->Some_0;
        let st = self.pool.slot_mut(slot);
        let progress = st.on_completion(bytes);
        proof {
            lemma_slot_paths_update(slots_before, slot as int, Some(*final(st)));
        }
        match progress {
            Progress::Finished => {
                let ghost slots_mid = self.pool.slots();
                let ghost st_mid = slots_mid[slot as int]->Some_0;
                let done = self.pool.release(slot);
                let (path, digest) = done.into_digest();
                let ghost p = path@;
                self.reported = Ghost(self.reported@.push(p));
                proof {
                    lemma_slot_paths_update(slots_mid, slot as int, None);
                    assert(slots_mid == slots_before.update(slot as int, Some(st_mid)));
                    assert(st_mid.path() == st_before.path());
                    assert forall|q: Seq<char>|
                        slot_paths(slots_mid).count(q) == slot_paths(slots_before).count(q) by {
                        assert(slot_paths(slots_mid).add(
                            Multiset::singleton(st_before.path()),
                        ).count(q) == slot_paths(slots_before).add(
                            Multiset::singleton(st_mid.path()),
                        ).count(q));
                    }
                    assert(slot_paths(slots_mid) =~= slot_paths(slots_before));
                    assert(self.pool.slots() == slots_mid.update(slot as int, None));
                    assert(self.inflight_paths().add(Multiset::singleton(st_mid.path()))
                        == slot_paths(slots_mid));
                    assert(p == st_before.path());
                    assert(self.reported_paths().to_multiset() =~= old(
                        self,
                    ).reported_paths().to_multiset().insert(p));
                    assert(old(self).pending_paths().to_multiset().add(
                        old(self).inflight_paths(),
                    ).add(old(self).reported_paths().to_multiset()) == old(
                        self,
                    ).input_paths().to_multiset());
                    assert(self.pending_paths().to_multiset().add(self.inflight_paths()).add(
                        self.reported_paths().to_multiset(),
                    ) =~= self.input_paths().to_multiset());
                    assert forall|j: int|
                        0 <= j < self.pool.capacity() implies entry_ok(
                        #[trigger] self.pool.slot(j),
                    ) by {
                        if j != slot {
                            assert(self.pool.slot(j) == old(self).pool.slot(j));
                            assert(entry_ok(old(self).pool.slot(j)));
                        }
                    }
                }
                CompleteOutcome::Finished(FileResult { path, outcome: Ok(digest) })
            },
            Progress::Resubmit => {
                let here = self.pool.borrow_slot(slot);
                let needed = here.needed_len();
                let offset = here.cursor();
                let file_idx = here.file_index();
                let submit_len = if self.direct_io {
                    round_up_block(needed)
                } else {
                    needed
                };
                proof {
                    let st_now = self.pool.slot(slot as int)->Some_0;
                    assert(self.pool.slots() == slots_before.update(slot as int, Some(st_now)));
                    assert(st_now.path() == st_before.path());
                    assert forall|q: Seq<char>|
                        self.inflight_paths().count(q) == old(self).inflight_paths().count(q) by {
                        assert(self.inflight_paths().add(
                            Multiset::singleton(st_before.path()),
                        ).count(q) == slot_paths(slots_before).add(
                            Multiset::singleton(st_now.path()),
                        ).count(q));
                    }
                    assert(self.inflight_paths() =~= old(self).inflight_paths());
                    assert(self.pending_paths().to_multiset().add(self.inflight_paths()).add(
                        self.reported_paths().to_multiset(),
                    ) =~= self.input_paths().to_multiset());
                    assert forall|j: int|
                        0 <= j < self.pool.capacity() implies entry_ok(
                        #[trigger] self.pool.slot(j),
                    ) by {
                        if j != slot {
                            assert(self.pool.slot(j) == old(self).pool.slot(j));
                            assert(entry_ok(old(self).pool.slot(j)));
                        }
                    }
                }
                CompleteOutcome::Resubmit(
                    ReadRequest { slot, file_idx, offset, len: needed, submit_len },
                )
            },
        }
    }

    /// Abandon the file occupying a slot because its read failed: the slot
    /// is freed and the file's one terminal result is the read error.
    pub fn complete_error(&mut self, slot: usize) -> (res: FileResult)
        requires
            old(self).wf(),
            0 <= (slot as int) < old(self).capacity(),
            old(self).slot_state(slot as int) is Some,
        ensures
            final(self).wf(),
            final(self).capacity() == old(self).capacity(),
            final(self).direct() == old(self).direct(),
            final(self).input_paths() == old(self).input_paths(),
            final(self).pending_paths() == old(self).pending_paths(),
            final(self).next_idx() == old(self).next_idx(),
            old(self).slot_state(slot as int) matches Some(st) ==> {
                &&& res.path@ == st.path()
                &&& res.outcome == Err::<Vec<u8>, FileError>(FileError::Read)
                &&& final(self).slot_state(slot as int) is None
                &&& forall|j: int|
                    0 <= j < old(self).capacity() && j != slot ==> final(self).slot_state(j) == old(
                        self,
                    ).slot_state(j)
                &&& final(self).n_inflight() == old(self).n_inflight() - 1
                &&& final(self).n_free() == old(self).n_free() + 1
                &&& final(self).reported_paths() == old(self).reported_paths().push(st.path())
            },
    {
        let ghost slots_before = self.pool.slots();
        let st = self.pool.release(slot);
        let path = st.into_path();
        let ghost p = path@;
        self.reported = Ghost(self.reported@.push(p));
        proof {
            lemma_slot_paths_update(slots_before, slot as int, None);
            assert(slots_before[slot as int] == Some(st));
            assert(entry_paths(slots_before[slot as int]) == Multiset::singleton(st.path()));
            assert(self.pool.slots() == slots_before.update(slot as int, None));
            assert(self.inflight_paths().add(Multiset::singleton(st.path())) == old(
                self,
            ).inflight_paths());
            assert(self.reported_paths().to_multiset() =~= old(
                self,
            ).reported_paths().to_multiset().insert(p));
            assert(self.pending_paths() == old(self).pending_paths());
            assert(old(self).pending_paths().to_multiset().add(old(self).inflight_paths()).add(
                old(self).reported_paths().to_multiset(),
            ) == old(self).input_paths().to_multiset());
            assert(self.pending_paths().to_multiset().add(self.inflight_paths()).add(
                self.reported_paths().to_multiset(),
            ) =~= self.input_paths().to_multiset());
            assert forall|j: int|
                0 <= j < self.pool.capacity() implies entry_ok(#[trigger] self.pool.slot(j)) by {
                if j != slot {
                    assert(self.pool.slot(j) == old(self).pool.slot(j));
                    assert(entry_ok(old(self).pool.slot(j)));
                }
            }
        }
        FileResult { path, outcome: Err(FileError::Read) }
    }

    /// Whether the run is over: nothing pending and nothing in flight.
    pub fn is_done(&self) -> (r: bool)
        requires
            self.wf(),
        ensures
            r == (self.pending_paths().len() == 0 && self.n_inflight() == 0),
    {
        proof {
            lemma_pool_accounting(&self.pool);
        }
        self.pending.len() == 0 && self.pool.occupied_count() == 0
    }

    /// How many paths have not been started yet.
    pub fn pending_count(&self) -> (r: usize)
        ensures
            r == self.pending_paths().len(),
    {
        self.pending.len()
    }

    /// How many files occupy slots right now.
    pub fn in_flight_count(&self) -> (r: usize)
        requires
            self.wf(),
        ensures
            r as int == self.n_inflight(),
    {
        self.pool.occupied_count()
    }

    /// The fixed slot count, as a value.
    pub fn slot_count(&self) -> (r: usize)
        ensures
            r as int == self.capacity(),
    {
        self.pool.num_slots()
    }
}

/// Bounded concurrency: at every point, occupied slots and free slots
/// partition the fixed capacity, so no more than the capacity is ever in
/// flight — however many paths were supplied.
pub proof fn lemma_bounded_occupancy(s: &Scheduler)
    requires
        s.wf(),
    ensures
        s.n_inflight() + s.n_free() == s.capacity(),
        0 <= s.n_inflight() <= s.capacity(),
{
    lemma_pool_accounting(&s.pool);
}

/// Conservation of files: at every point, the pending paths, the in-flight
/// paths and the reported paths together are exactly the input paths — so
/// no path is reported twice and none is dropped.
pub proof fn lemma_conservation(s: &Scheduler)
    requires
        s.wf(),
    ensures
        s.pending_paths().to_multiset().add(s.inflight_paths()).add(
            s.reported_paths().to_multiset(),
        ) == s.input_paths().to_multiset(),
{
}

/// Completeness: once nothing is pending and nothing is in flight, the
/// reported paths are exactly the input paths — every admitted file
/// produced exactly one terminal result.
pub proof fn lemma_done_all_reported(s: &Scheduler)
    requires
        s.wf(),
        s.pending_paths().len() == 0,
        s.n_inflight() == 0,
    ensures
        s.reported_paths().to_multiset() == s.input_paths().to_multiset(),
{
    lemma_conservation(s);
    lemma_inflight_empty(s);
    assert(s.pending_paths().to_multiset().len() == 0);
    assert(s.pending_paths().to_multiset() =~= Multiset::empty());
    assert(s.reported_paths().to_multiset() =~= s.input_paths().to_multiset());
}

/// An empty occupancy means no in-flight path at all.
proof fn lemma_inflight_empty(s: &Scheduler)
    requires
        s.wf(),
        s.n_inflight() == 0,
    ensures
        s.inflight_paths() == Multiset::<Seq<char>>::empty(),
{
    lemma_slot_paths_unoccupied(s.pool.slots());
}

} // verus!
