use crate::frame::{Frame, FrameError, FrameHeader, FrameNo, PAGE_SIZE};
use crate::seen::SeenPages;
use vstd::prelude::*;

verus! {

/// Identifies a sealed segment of log history covering
/// `[start_frame_no, end_frame_no]`.
#[derive(Clone, Copy, Debug, PartialEq, Eq, Structural)]
pub struct SegmentKey {
    pub start_frame_no: u64,
    pub end_frame_no: u64,
}

/// A frame as stored in a compacted segment: no commit marker is kept.
#[derive(Clone, Debug)]
pub struct CompactedFrame {
    pub frame_no: u64,
    pub page_no: u32,
    pub data: Vec<u8>,
}

/// One entry of a segment index: a page and the byte offset of its newest
/// frame inside the segment.
pub type IndexEntry = (u32, u64);

/// The pages that a sequence of index entries names.
pub open spec fn index_pages(idx: Seq<IndexEntry>) -> Set<u32>
    decreases idx.len(),
{
    if idx.len() == 0 {
        Set::empty()
    } else {
        index_pages(idx.skip(1)).insert(idx[0].0)
    }
}

/// The entries of an index that a backward scan has to read, in index order:
/// those whose page is neither in `seen` nor named by an earlier entry.
pub open spec fn fresh_entries(idx: Seq<IndexEntry>, seen: Set<u32>) -> Seq<IndexEntry>
    decreases idx.len(),
{
    if idx.len() == 0 {
        Seq::empty()
    } else if seen.contains(idx[0].0) {
        fresh_entries(idx.skip(1), seen)
    } else {
        seq![idx[0]] + fresh_entries(idx.skip(1), seen.insert(idx[0].0))
    }
}

/// Where the scan goes after a segment: `None` once the segment reaches down
/// to the floor, else the position to search below the segment.
pub open spec fn after_segment(key: SegmentKey, until: u64) -> Option<u64> {
    if key.start_frame_no <= until {
        None
    } else {
        Some((key.start_frame_no - 1) as u64)
    }
}

/// The frame rebuilt from a compacted one: its page comes from the index,
/// and it carries no commit marker.
pub open spec fn rebuilt(c: CompactedFrame, page_no: u32) -> (FrameHeader, Seq<u8>) {
    (FrameHeader { frame_no: c.frame_no, page_no, size_after: 0 }, c.data@)
}

/// Decision state of one backward catch-up scan over segment storage.
///
/// The caller performs the storage queries: while `query` returns
/// `Some(x)`, it locates the newest segment that ends at or before `x` and
/// fetches its index. It then calls `claim_next` from position 0, and again
/// just past each position returned. For each position returned it asks
/// `take_fetch`, and fetches the segment's data when told to; it reads the
/// frame at that entry's offset, passes it to `accept`, and yields what comes
/// back. When `claim_next` returns `None`, the caller hands the segment to
/// `finish_segment`.
pub struct StreamCursor {
    current: u64,
    until: u64,
    finished: bool,
    fetched: bool,
}

impl StreamCursor {
    pub closed spec fn current_spec(&self) -> u64 {
        self.current
    }

    pub closed spec fn until_spec(&self) -> u64 {
        self.until
    }

    pub closed spec fn finished_spec(&self) -> bool {
        self.finished
    }

    /// Whether the data of the segment being scanned has been fetched.
    pub closed spec fn fetched_spec(&self) -> bool {
        self.fetched
    }

    /// A scan that starts at `current` and reaches back to the floor `until`.
    pub fn new(current: FrameNo, until: FrameNo) -> (r: StreamCursor)
        ensures
            r.current_spec() == current,
            r.until_spec() == until,
            !r.finished_spec(),
            !r.fetched_spec(),
    {
        StreamCursor { current, until, finished: false, fetched: false }
    }

    /// Called for each entry claimed in the current segment: whether the
    /// segment's data must be fetched now. That is so for the first entry
    /// only, so the data is fetched at most once per segment, and only when
    /// some page of it is needed.
    pub fn take_fetch(&mut self) -> (r: bool)
        ensures
            r == !old(self).fetched_spec(),
            final(self).fetched_spec(),
            final(self).current_spec() == old(self).current_spec(),
            final(self).until_spec() == old(self).until_spec(),
            final(self).finished_spec() == old(self).finished_spec(),
    {
        let r = !self.fetched;
        self.fetched = true;
        r
    }

    /// The bound of the next segment search, or `None` once the scan is over.
    pub fn query(&self) -> (r: Option<FrameNo>)
        ensures
            r == (if self.finished_spec() {
                None
            } else {
                Some(self.current_spec())
            }),
    {
        if self.finished {
            None
        } else {
            Some(self.current)
        }
    }

    pub fn until(&self) -> (r: FrameNo)
        ensures
            r == self.until_spec(),
    {
        self.until
    }

    /// Closes the segment that the last query located: moves below it, or
    /// ends the scan when it reaches down to the floor.
    pub fn finish_segment(&mut self, key: &SegmentKey)
        requires
            !old(self).finished_spec(),
        ensures
            final(self).until_spec() == old(self).until_spec(),
            !final(self).fetched_spec(),
            final(self).finished_spec() == after_segment(*key, old(self).until_spec()) is None,
            after_segment(*key, old(self).until_spec()) matches Some(c)
                ==> final(self).current_spec() == c,
    {
        self.fetched = false;
        match next_position(key, self.until) {
            None => {
                self.finished = true;
            },
            Some(c) => {
                self.current = c;
            },
        }
    }

    /// Turns a compacted frame read for `page_no` into a frame to yield, or
    /// `None` when it lies below the floor. A payload that is not one page
    /// long is rejected.
    pub fn accept(&self, compacted: CompactedFrame, page_no: u32) -> (r: Result<
        Option<Frame>,
        FrameError,
    >)
        ensures
            r is Err <==> compacted.data@.len() != PAGE_SIZE,
            r is Err ==> r == Err::<Option<Frame>, FrameError>(FrameError::InvalidFrameSize),
            r matches Ok(o) ==> (o is Some <==> compacted.frame_no >= self.until_spec()),
            r matches Ok(Some(f)) ==> f@ == rebuilt(compacted, page_no) && f.wf()
                && f.header.frame_no >= self.until_spec(),
    {
        rebuild_frame(compacted, page_no, self.until)
    }
}

/// Finds the first entry at or after `from` whose page is not in `seen`,
/// marks that page as seen and returns the entry's position; `None` when no
/// such entry is left. Calling it from 0, and then just past each position
/// returned, claims exactly the entries of `fresh_entries`, in order.
pub fn claim_next(seen: &mut SeenPages, index: &Vec<IndexEntry>, from: usize) -> (r: Option<usize>)
    requires
        from <= index@.len(),
    ensures
        r is None ==> final(seen)@ == old(seen)@ && fresh_entries(index@.skip(from as int), old(seen)@)
            == Seq::<IndexEntry>::empty(),
        r matches Some(k) ==> {
            &&& from <= k < index@.len()
            &&& !old(seen)@.contains(index@[k as int].0)
            &&& final(seen)@ == old(seen)@.insert(index@[k as int].0)
            &&& fresh_entries(index@.skip(from as int), old(seen)@) == seq![index@[k as int]]
                + fresh_entries(index@.skip(k + 1), final(seen)@)
        },
{
    let mut i: usize = from;
    while i < index.len()
        invariant
            from <= i <= index@.len(),
            seen@ == old(seen)@,
            fresh_entries(index@.skip(from as int), seen@) == fresh_entries(
                index@.skip(i as int),
                seen@,
            ),
        decreases index@.len() - i,
    {
        let page = index[i].0;
        assert(index@.skip(i as int).skip(1) =~= index@.skip(i + 1));
        if !seen.contains(page) {
            seen.insert(page);
            return Some(i);
        }
        i = i + 1;
    }
    assert(index@.skip(i as int) =~= Seq::<IndexEntry>::empty());
    None
}

/// Claims every entry of `index` whose page is not yet seen, returning them
/// in index order; afterwards every page of the index is seen.
pub fn claim_fresh_pages(seen: &mut SeenPages, index: &Vec<IndexEntry>) -> (r: Vec<IndexEntry>)
    ensures
        r@ == fresh_entries(index@, old(seen)@),
        final(seen)@ == old(seen)@.union(index_pages(index@)),
{
    let ghost start = seen@;
    let mut out: Vec<IndexEntry> = Vec::new();
    let mut from: usize = 0;
    let n = index.len();
    proof {
        assert(index@.skip(0) =~= index@);
        lemma_claimed_pages(index@, start);
        assert(Seq::<IndexEntry>::empty() + fresh_entries(index@, start) =~= fresh_entries(
            index@,
            start,
        ));
    }
    loop
        invariant
            start == old(seen)@,
            n == index@.len(),
            from <= index@.len(),
            fresh_entries(index@, start) == out@ + fresh_entries(index@.skip(from as int), seen@),
            start.union(index_pages(index@)) == seen@.union(
                index_pages(fresh_entries(index@.skip(from as int), seen@)),
            ),
        decreases index@.len() - from,
    {
        let ghost before = seen@;
        match claim_next(seen, index, from) {
            None => {
                assert(index_pages(Seq::<IndexEntry>::empty()) =~= Set::<u32>::empty());
                assert(out@ + Seq::<IndexEntry>::empty() =~= out@);
                assert(seen@.union(Set::<u32>::empty()) =~= seen@);
                return out;
            },
            Some(k) => {
                let e = index[k];
                let ghost rest = fresh_entries(index@.skip(k + 1), seen@);
                assert((seq![e] + rest).skip(1) =~= rest);
                assert(before.union(index_pages(rest).insert(e.0)) =~= seen@.union(
                    index_pages(rest),
                ));
                assert(out@ + (seq![e] + rest) =~= out@.push(e) + rest);
                out.push(e);
                from = k + 1;
            },
        }
    }
}

/// The position to search next after a segment, or `None` when the segment
/// already reaches down to `until`.
pub fn next_position(key: &SegmentKey, until: FrameNo) -> (r: Option<FrameNo>)
    ensures
        r == after_segment(*key, until),
{
    if key.start_frame_no <= until {
        None
    } else {
        Some(key.start_frame_no - 1)
    }
}

/// Rebuilds a full frame from a compacted one read for `page_no`, keeping it
/// only when it is not older than `until`. A payload that is not one page
/// long is rejected.
pub fn rebuild_frame(compacted: CompactedFrame, page_no: u32, until: FrameNo) -> (r: Result<
    Option<Frame>,
    FrameError,
>)
    ensures
        r is Err <==> compacted.data@.len() != PAGE_SIZE,
        r is Err ==> r == Err::<Option<Frame>, FrameError>(FrameError::InvalidFrameSize),
        r matches Ok(o) ==> (o is Some <==> compacted.frame_no >= until),
        r matches Ok(Some(f)) ==> f@ == rebuilt(compacted, page_no) && f.wf()
            && f.header.frame_no >= until,
{
    if compacted.data.len() != PAGE_SIZE {
        return Err(FrameError::InvalidFrameSize);
    }
    if compacted.frame_no >= until {
        let header = FrameHeader { frame_no: compacted.frame_no, page_no, size_after: 0 };
        Ok(Some(Frame { header, data: compacted.data }))
    } else {
        Ok(None)
    }
}

/// Every entry left to read names a page of the index that was not seen
/// before.
pub proof fn lemma_fresh_unseen(idx: Seq<IndexEntry>, seen: Set<u32>)
    ensures
        forall|k: int|
            0 <= k < fresh_entries(idx, seen).len() ==> !seen.contains(
                #[trigger] fresh_entries(idx, seen)[k].0,
            ) && index_pages(idx).contains(fresh_entries(idx, seen)[k].0),
    decreases idx.len(),
{
    if idx.len() > 0 {
        let rest = idx.skip(1);
        let p = idx[0].0;
        lemma_fresh_unseen(rest, seen);
        lemma_fresh_unseen(rest, seen.insert(p));
        let cur = fresh_entries(idx, seen);
        assert(index_pages(idx) == index_pages(rest).insert(p));
        if !seen.contains(p) {
            let f = fresh_entries(rest, seen.insert(p));
            assert forall|k: int| 0 <= k < cur.len() implies !seen.contains(#[trigger] cur[k].0)
                && index_pages(idx).contains(cur[k].0) by {
                if k > 0 {
                    assert(cur[k] == f[k - 1]);
                    assert(!seen.insert(p).contains(f[k - 1].0));
                }
            }
        } else {
            let f = fresh_entries(rest, seen);
            assert forall|k: int| 0 <= k < cur.len() implies !seen.contains(#[trigger] cur[k].0)
                && index_pages(idx).contains(cur[k].0) by {
                assert(cur[k] == f[k]);
                assert(!seen.contains(f[k].0));
            }
        }
    }
}

/// Claiming the fresh entries of an index leaves every page of the index seen.
pub proof fn lemma_claimed_pages(idx: Seq<IndexEntry>, seen: Set<u32>)
    ensures
        seen.union(index_pages(fresh_entries(idx, seen))) == seen.union(index_pages(idx)),
    decreases idx.len(),
{
    if idx.len() == 0 {
        assert(index_pages(Seq::<IndexEntry>::empty()) =~= Set::<u32>::empty());
    } else {
        let rest = idx.skip(1);
        let p = idx[0].0;
        if seen.contains(p) {
            lemma_claimed_pages(rest, seen);
            assert(seen.union(index_pages(rest).insert(p)) =~= seen.union(index_pages(rest)));
        } else {
            let s2 = seen.insert(p);
            lemma_claimed_pages(rest, s2);
            let f = fresh_entries(rest, s2);
            assert((seq![idx[0]] + f).skip(1) =~= f);
            assert(seen.union(index_pages(f).insert(p)) =~= s2.union(index_pages(f)));
            assert(s2.union(index_pages(rest)) =~= seen.union(index_pages(rest).insert(p)));
        }
    }
}

/// No stale overwrite: once a newer segment `newer` has been scanned from
/// `seen`, a scan of an older segment `older` reads no page of `newer`.
pub proof fn lemma_no_stale_overwrite(seen: Set<u32>, newer: Seq<IndexEntry>, older: Seq<IndexEntry>)
    ensures
        forall|k: int|
            0 <= k < fresh_entries(older, seen.union(index_pages(newer))).len()
                ==> !index_pages(newer).contains(
                #[trigger] fresh_entries(older, seen.union(index_pages(newer)))[k].0,
            ),
{
    lemma_fresh_unseen(older, seen.union(index_pages(newer)));
}

/// An index whose pages have all been seen leaves nothing to read.
pub proof fn lemma_all_seen_nothing_fresh(idx: Seq<IndexEntry>, seen: Set<u32>)
    requires
        index_pages(idx).subset_of(seen),
    ensures
        fresh_entries(idx, seen) == Seq::<IndexEntry>::empty(),
    decreases idx.len(),
{
    if idx.len() > 0 {
        assert(index_pages(idx.skip(1)).subset_of(seen));
        lemma_all_seen_nothing_fresh(idx.skip(1), seen);
    }
}

/// A scan whose floor is at or above the start of the first segment it
/// locates ends after that segment.
pub proof fn lemma_terminates_after_one(key: SegmentKey, until: u64)
    requires
        until >= key.start_frame_no,
    ensures
        after_segment(key, until) is None,
{
}

/// The seen set after scanning the indexes of `idxs` in order.
pub open spec fn seen_after(seen: Set<u32>, idxs: Seq<Seq<IndexEntry>>) -> Set<u32>
    decreases idxs.len(),
{
    if idxs.len() == 0 {
        seen
    } else {
        seen_after(seen, idxs.drop_last()).union(index_pages(idxs.last()))
    }
}

/// Across a run of segment scans that share one seen set, the set only grows,
/// and a second run over the same segments finds nothing left to read.
pub proof fn lemma_rerun_finds_nothing(seen: Set<u32>, idxs: Seq<Seq<IndexEntry>>)
    ensures
        seen.subset_of(seen_after(seen, idxs)),
        forall|k: int|
            0 <= k < idxs.len() ==> #[trigger] fresh_entries(idxs[k], seen_after(seen, idxs))
                == Seq::<IndexEntry>::empty(),
    decreases idxs.len(),
{
    if idxs.len() > 0 {
        let init = idxs.drop_last();
        lemma_rerun_finds_nothing(seen, init);
        let all = seen_after(seen, idxs);
        assert forall|k: int| 0 <= k < idxs.len() implies #[trigger] fresh_entries(
            idxs[k],
            all,
        ) == Seq::<IndexEntry>::empty() by {
            if k < init.len() {
                assert(init[k] == idxs[k]);
                lemma_index_pages_seen(seen, init, k);
            }
            lemma_all_seen_nothing_fresh(idxs[k], all);
        }
    }
}

/// No stale overwrite across a run of segments scanned newest first: when the
/// segment at position `j` is scanned, after those before it, none of the
/// entries it reads names a page of an earlier (newer) segment `i`.
pub proof fn lemma_no_stale_overwrite_in_run(
    seen: Set<u32>,
    idxs: Seq<Seq<IndexEntry>>,
    i: int,
    j: int,
)
    requires
        0 <= i < j < idxs.len(),
    ensures
        forall|k: int|
            0 <= k < fresh_entries(idxs[j], seen_after(seen, idxs.take(j))).len()
                ==> !index_pages(idxs[i]).contains(
                #[trigger] fresh_entries(idxs[j], seen_after(seen, idxs.take(j)))[k].0,
            ),
{
    let prefix = idxs.take(j);
    assert(prefix[i] == idxs[i]);
    lemma_index_pages_seen(seen, prefix, i);
    lemma_fresh_unseen(idxs[j], seen_after(seen, prefix));
}

/// A second run over the same segments leaves the seen set as it was.
pub proof fn lemma_rerun_keeps_seen(seen: Set<u32>, idxs: Seq<Seq<IndexEntry>>)
    ensures
        seen_after(seen_after(seen, idxs), idxs) == seen_after(seen, idxs),
{
    let all = seen_after(seen, idxs);
    lemma_seen_after_within(all, seen, idxs, idxs.len() as int);
    assert(idxs.take(idxs.len() as int) =~= idxs);
}

/// Scanning a prefix of `idxs` from `all`, which already holds everything a
/// scan of `idxs` from `seen` marks, leaves `all` unchanged.
proof fn lemma_seen_after_within(
    all: Set<u32>,
    seen: Set<u32>,
    idxs: Seq<Seq<IndexEntry>>,
    n: int,
)
    requires
        0 <= n <= idxs.len(),
        all == seen_after(seen, idxs),
    ensures
        seen_after(all, idxs.take(n)) == all,
    decreases n,
{
    if n == 0 {
        assert(idxs.take(0) =~= Seq::<Seq<IndexEntry>>::empty());
    } else {
        lemma_seen_after_within(all, seen, idxs, n - 1);
        assert(idxs.take(n).drop_last() =~= idxs.take(n - 1));
        lemma_index_pages_seen(seen, idxs, n - 1);
        assert(all.union(index_pages(idxs[n - 1])) =~= all);
    }
}

/// The pages of every index scanned are in the seen set afterwards.
proof fn lemma_index_pages_seen(seen: Set<u32>, idxs: Seq<Seq<IndexEntry>>, k: int)
    requires
        0 <= k < idxs.len(),
    ensures
        index_pages(idxs[k]).subset_of(seen_after(seen, idxs)),
    decreases idxs.len(),
{
    if k < idxs.len() - 1 {
        lemma_index_pages_seen(seen, idxs.drop_last(), k);
        assert(idxs.drop_last()[k] == idxs[k]);
    }
}

} // verus!
