//! The index of the chunks on disk, in listing order.
use crate::types::{
    chunk_order_irreflexive, chunk_order_total, chunk_order_transitive, ChunkId,
};
use vstd::prelude::*;

verus! {

/// The chunks come in listing order, none of them twice.
pub open spec fn ascending(list: Seq<ChunkId>) -> bool {
    forall|i: int, j: int| 0 <= i < j < list.len() ==> (#[trigger] list[i]).lt(#[trigger] list[j])
}

/// The chunk comes behind the cursor; without a cursor every chunk does.
pub open spec fn behind(cursor: Option<ChunkId>, chunk: ChunkId) -> bool {
    match cursor {
        Some(c) => c.lt(chunk),
        None => true,
    }
}

/// The chunks behind the cursor.
pub open spec fn beyond(list: Seq<ChunkId>, cursor: Option<ChunkId>) -> Seq<ChunkId> {
    list.filter(|c: ChunkId| behind(cursor, c))
}

/// The first `limit` chunks behind the cursor.
pub open spec fn page_of(list: Seq<ChunkId>, cursor: Option<ChunkId>, limit: nat) -> Seq<ChunkId> {
    let rest = beyond(list, cursor);
    if rest.len() <= limit {
        rest
    } else {
        rest.take(limit as int)
    }
}

/// The chunks on disk, in listing order.
pub struct ChunkIndex {
    ids: Vec<ChunkId>,
}

impl View for ChunkIndex {
    type V = Seq<ChunkId>;

    closed spec fn view(&self) -> Seq<ChunkId> {
        self.ids@
    }
}

/// In an ascending list the chunks behind a cursor are a tail of it.
proof fn beyond_is_tail(list: Seq<ChunkId>, cursor: Option<ChunkId>, k: int)
    requires
        ascending(list),
        0 <= k <= list.len(),
        forall|i: int| 0 <= i < k ==> !behind(cursor, #[trigger] list[i]),
        forall|i: int| k <= i < list.len() ==> behind(cursor, #[trigger] list[i]),
    ensures
        beyond(list, cursor) == list.skip(k),
    decreases list.len(),
{
    reveal(Seq::filter);
    if list.len() == 0 {
        assert(beyond(list, cursor) =~= list.skip(k));
    } else {
        let init = list.drop_last();
        assert(ascending(init)) by {
            assert forall|i: int, j: int| 0 <= i < j < init.len() implies (#[trigger] init[i]).lt(
                #[trigger] init[j],
            ) by {
                assert(list[i].lt(list[j]));
            }
        }
        if k < list.len() {
            assert forall|i: int| 0 <= i < k implies !behind(cursor, #[trigger] init[i]) by {
                assert(init[i] == list[i]);
            }
            assert forall|i: int| k <= i < init.len() implies behind(
                cursor,
                #[trigger] init[i],
            ) by {
                assert(init[i] == list[i]);
            }
            beyond_is_tail(init, cursor, k);
            assert(behind(cursor, list[list.len() - 1]));
            assert(beyond(list, cursor) =~= list.skip(k));
        } else {
            assert forall|i: int| 0 <= i < init.len() implies !behind(
                cursor,
                #[trigger] init[i],
            ) by {
                assert(init[i] == list[i]);
            }
            beyond_is_tail(init, cursor, init.len() as int);
            assert(!behind(cursor, list[list.len() - 1]));
            assert(beyond(list, cursor) =~= list.skip(k));
        }
    }
}

impl ChunkIndex {
    /// No chunks.
    pub fn new() -> (r: ChunkIndex)
        ensures
            ascending(r@),
            r@.len() == 0,
    {
        ChunkIndex { ids: Vec::new() }
    }

    /// The index of the given chunks.
    pub fn from_ids(ids: &Vec<ChunkId>) -> (r: ChunkIndex)
        ensures
            ascending(r@),
            r@.to_set() == ids@.to_set(),
    {
        let mut index: ChunkIndex = ChunkIndex::new();
        let mut i: usize = 0;
        assert(ids@.take(0).to_set() =~= index@.to_set());
        while i < ids.len()
            invariant
                i <= ids@.len(),
                ascending(index@),
                index@.to_set() == ids@.take(i as int).to_set(),
            decreases ids@.len() - i,
        {
            let ghost before = index@.to_set();
            index.insert(ids[i]);
            proof {
                let t = ids@.take(i + 1);
                assert(t =~= ids@.take(i as int).push(ids@[i as int]));
                assert forall|c: ChunkId| t.to_set().contains(c) <==> before.insert(
                    ids@[i as int],
                ).contains(c) by {
                    if t.to_set().contains(c) {
                        let k = choose|k: int| 0 <= k < t.len() && t[k] == c;
                        if k < i {
                            assert(ids@.take(i as int)[k] == c);
                        }
                    }
                    if before.contains(c) {
                        let k = choose|k: int|
                            0 <= k < ids@.take(i as int).len() && ids@.take(i as int)[k] == c;
                        assert(t[k] == c);
                    }
                    if c == ids@[i as int] {
                        assert(t[i as int] == c);
                    }
                }
                assert(t.to_set() =~= before.insert(ids@[i as int]));
            }
            i += 1;
        }
        assert(ids@.take(i as int) =~= ids@);
        index
    }

    /// The place of the first chunk that does not come before `chunk`.
    fn lower_bound(&self, chunk: &ChunkId) -> (p: usize)
        requires
            ascending(self@),
        ensures
            p <= self@.len(),
            forall|i: int| 0 <= i < p ==> (#[trigger] self@[i]).lt(*chunk),
            forall|i: int| p <= i < self@.len() ==> !(#[trigger] self@[i]).lt(*chunk),
    {
        let mut lo: usize = 0;
        let mut hi: usize = self.ids.len();
        while lo < hi
            invariant
                ascending(self@),
                lo <= hi <= self@.len(),
                self@ == self.ids@,
                forall|i: int| 0 <= i < lo ==> (#[trigger] self@[i]).lt(*chunk),
                forall|i: int| hi <= i < self@.len() ==> !(#[trigger] self@[i]).lt(*chunk),
            decreases hi - lo,
        {
            let mid: usize = lo + (hi - lo) / 2;
            if self.ids[mid].precedes(chunk) {
                proof {
                    assert forall|i: int| 0 <= i < mid + 1 implies (#[trigger] self@[i]).lt(
                        *chunk,
                    ) by {
                        if i < mid {
                            chunk_order_transitive(self@[i], self@[mid as int], *chunk);
                        }
                    }
                }
                lo = mid + 1;
            } else {
                proof {
                    assert forall|i: int| mid <= i < self@.len() implies !(
                    #[trigger] self@[i]).lt(*chunk) by {
                        if i > mid && self@[i].lt(*chunk) {
                            chunk_order_transitive(self@[mid as int], self@[i], *chunk);
                        }
                    }
                }
                hi = mid;
            }
        }
        lo
    }

    /// Adds a chunk.
    pub fn insert(&mut self, chunk: ChunkId)
        requires
            ascending(old(self)@),
        ensures
            ascending(final(self)@),
            final(self)@.to_set() == old(self)@.to_set().insert(chunk),
            final(self)@.contains(chunk),
    {
        let p: usize = self.lower_bound(&chunk);
        let ghost before = self@;
        if p < self.ids.len() && self.ids[p] == chunk {
            assert(before[p as int] == chunk);
            assert(before.to_set() =~= before.to_set().insert(chunk));
            return;
        }
        self.ids.insert(p, chunk);
        proof {
            let after = self@;
            assert(after =~= before.insert(p as int, chunk));
            assert forall|i: int, j: int| 0 <= i < j < after.len() implies (#[trigger] after[i]).lt(
                #[trigger] after[j],
            ) by {
                if i < p && j > p {
                    assert(after[i] == before[i] && after[j] == before[j - 1]);
                } else if j < p {
                    assert(after[i] == before[i] && after[j] == before[j]);
                } else if i > p {
                    assert(after[i] == before[i - 1] && after[j] == before[j - 1]);
                } else if j == p {
                    assert(after[i] == before[i]);
                } else {
                    assert(i == p);
                    assert(after[j] == before[j - 1]);
                    assert(!before[j - 1].lt(chunk));
                    chunk_order_total(chunk, before[j - 1]);
                    if before[j - 1] == chunk {
                        assert(j - 1 > p);
                        assert(before[p as int].lt(before[j - 1]));
                        assert(!before[p as int].lt(chunk));
                    }
                }
            }
            assert forall|c: ChunkId| after.to_set().contains(c) <==> before.to_set().insert(
                chunk,
            ).contains(c) by {
                if after.contains(c) {
                    let k = choose|k: int| 0 <= k < after.len() && after[k] == c;
                    if k < p {
                        assert(before[k] == c);
                    } else if k > p {
                        assert(before[k - 1] == c);
                    }
                }
                if before.contains(c) {
                    let k = choose|k: int| 0 <= k < before.len() && before[k] == c;
                    if k < p {
                        assert(after[k] == c);
                    } else {
                        assert(after[k + 1] == c);
                    }
                }
                assert(after[p as int] == chunk);
            }
            assert(after.to_set() =~= before.to_set().insert(chunk));
            assert(after[p as int] == chunk);
        }
    }

    /// Takes a chunk out.
    pub fn remove(&mut self, chunk: &ChunkId)
        requires
            ascending(old(self)@),
        ensures
            ascending(final(self)@),
            final(self)@.to_set() == old(self)@.to_set().remove(*chunk),
    {
        let p: usize = self.lower_bound(chunk);
        let ghost before = self@;
        if p < self.ids.len() && self.ids[p] == *chunk {
            let _ = self.ids.remove(p);
            proof {
                let after = self@;
                assert(after =~= before.remove(p as int));
                assert forall|i: int, j: int| 0 <= i < j < after.len() implies (
                #[trigger] after[i]).lt(#[trigger] after[j]) by {
                    let a = if i < p {
                        i
                    } else {
                        i + 1
                    };
                    let b = if j < p {
                        j
                    } else {
                        j + 1
                    };
                    assert(before[a].lt(before[b]));
                }
                assert forall|c: ChunkId| after.to_set().contains(c)
                    <==> before.to_set().remove(*chunk).contains(c) by {
                    if after.contains(c) {
                        let k = choose|k: int| 0 <= k < after.len() && after[k] == c;
                        let b = if k < p {
                            k
                        } else {
                            k + 1
                        };
                        assert(before[b] == c);
                        chunk_order_irreflexive(*chunk, *chunk);
                        if b < p {
                            assert(before[b].lt(before[p as int]));
                        } else {
                            assert(before[p as int].lt(before[b]));
                        }
                    }
                    if before.contains(c) && c != *chunk {
                        let k = choose|k: int| 0 <= k < before.len() && before[k] == c;
                        if k < p {
                            assert(after[k] == c);
                        } else {
                            assert(after[k - 1] == c);
                        }
                    }
                }
                assert(after.to_set() =~= before.to_set().remove(*chunk));
            }
        } else {
            proof {
                assert(!before.contains(*chunk)) by {
                    if before.contains(*chunk) {
                        let k = choose|k: int| 0 <= k < before.len() && before[k] == *chunk;
                        chunk_order_irreflexive(*chunk, *chunk);
                        if k < p {
                            assert(before[k].lt(*chunk));
                        } else if k > p {
                            assert(before[p as int].lt(before[k]));
                        }
                    }
                }
                assert(before.to_set() =~= before.to_set().remove(*chunk));
            }
        }
    }

    /// Every chunk, in listing order.
    pub fn list(&self) -> (r: Vec<ChunkId>)
        ensures
            r@ == self@,
    {
        self.ids.clone()
    }

    /// Up to `limit` chunks that come strictly behind `after`, in listing order.
    pub fn page(&self, after: Option<ChunkId>, limit: usize) -> (r: Vec<ChunkId>)
        requires
            ascending(self@),
        ensures
            r@ == page_of(self@, after, limit as nat),
    {
        let n: usize = self.ids.len();
        let start: usize = match after {
            Some(cursor) => {
                let p: usize = self.lower_bound(&cursor);
                if p < n && self.ids[p] == cursor {
                    p + 1
                } else {
                    p
                }
            },
            None => 0,
        };
        proof {
            match after {
                Some(cursor) => {
                    assert forall|i: int| 0 <= i < start implies !behind(
                        after,
                        #[trigger] self@[i],
                    ) by {
                        chunk_order_irreflexive(self@[i], cursor);
                        chunk_order_irreflexive(cursor, self@[i]);
                    }
                    assert forall|i: int| start <= i < n implies behind(
                        after,
                        #[trigger] self@[i],
                    ) by {
                        chunk_order_total(self@[i], cursor);
                        if self@[i] == cursor {
                            chunk_order_irreflexive(cursor, cursor);
                            if start > 0 && self@[start - 1] == cursor {
                                assert(self@[start - 1].lt(self@[i]));
                            } else if i > start {
                                assert(self@[start as int].lt(self@[i]));
                            }
                        }
                    }
                },
                None => {},
            }
            beyond_is_tail(self@, after, start as int);
        }
        let end: usize = if limit <= n - start {
            start + limit
        } else {
            n
        };
        let mut out: Vec<ChunkId> = Vec::new();
        let mut i: usize = start;
        while i < end
            invariant
                start <= i <= end <= n,
                n == self.ids@.len(),
                out@ =~= self.ids@.subrange(start as int, i as int),
            decreases end - i,
        {
            out.push(self.ids[i]);
            i += 1;
        }
        assert(out@ =~= page_of(self@, after, limit as nat));
        out
    }
}

/// The pages one behind the other.
pub open spec fn joined(pages: Seq<Seq<ChunkId>>) -> Seq<ChunkId>
    decreases pages.len(),
{
    if pages.len() == 0 {
        Seq::empty()
    } else {
        joined(pages.drop_last()) + pages.last()
    }
}

/// The cursor that follows a page.
pub open spec fn cursor_after(pages: Seq<Seq<ChunkId>>, k: int) -> Option<ChunkId> {
    if k == 0 {
        None
    } else {
        Some(pages[k - 1].last())
    }
}

/// The pages are a walk through the list: each starts behind the last chunk of the one before,
/// and none is empty.
pub open spec fn is_walk(list: Seq<ChunkId>, limit: nat, pages: Seq<Seq<ChunkId>>) -> bool {
    forall|k: int|
        0 <= k < pages.len() ==> (#[trigger] pages[k]) == page_of(
            list,
            cursor_after(pages, k),
            limit,
        ) && pages[k].len() > 0
}

proof fn walk_so_far(list: Seq<ChunkId>, limit: nat, pages: Seq<Seq<ChunkId>>)
    requires
        ascending(list),
        is_walk(list, limit, pages),
    ensures
        joined(pages).len() <= list.len(),
        joined(pages) == list.take(joined(pages).len() as int),
        beyond(list, cursor_after(pages, pages.len() as int)) == list.skip(
            joined(pages).len() as int,
        ),
    decreases pages.len(),
{
    let n = pages.len() as int;
    if n == 0 {
        assert(joined(pages) =~= list.take(0));
        beyond_is_tail(list, None, 0);
    } else {
        let init = pages.drop_last();
        assert(is_walk(list, limit, init)) by {
            assert forall|k: int| 0 <= k < init.len() implies (#[trigger] init[k]) == page_of(
                list,
                cursor_after(init, k),
                limit,
            ) && init[k].len() > 0 by {
                assert(init[k] == pages[k]);
                assert(cursor_after(init, k) == cursor_after(pages, k));
            }
        }
        walk_so_far(list, limit, init);
        assert(cursor_after(init, n - 1) == cursor_after(pages, n - 1));
        let m = joined(init).len() as int;
        let last = pages[n - 1];
        let rest = list.skip(m);
        assert(last == page_of(list, cursor_after(pages, n - 1), limit));
        assert(last.len() <= rest.len());
        assert(last =~= rest.take(last.len() as int));
        assert(joined(pages) =~= list.take(m + last.len()));
        let c = list[m + last.len() - 1];
        assert(last.last() == c);
        assert forall|i: int| 0 <= i < m + last.len() implies !behind(
            Some(c),
            #[trigger] list[i],
        ) by {
            chunk_order_irreflexive(c, c);
            if i < m + last.len() - 1 {
                assert(list[i].lt(c));
                chunk_order_irreflexive(list[i], c);
            }
        }
        beyond_is_tail(list, Some(c), m + last.len());
    }
}

/// A walk that has come to an empty page has visited every chunk exactly once, in listing order.
pub proof fn full_walk_visits_every_chunk_once(
    list: Seq<ChunkId>,
    limit: nat,
    pages: Seq<Seq<ChunkId>>,
)
    requires
        ascending(list),
        limit > 0,
        is_walk(list, limit, pages),
        page_of(list, cursor_after(pages, pages.len() as int), limit).len() == 0,
    ensures
        joined(pages) == list,
{
    walk_so_far(list, limit, pages);
    let m = joined(pages).len() as int;
    assert(list.skip(m).len() == 0);
    assert(list.take(m) =~= list);
}

} // verus!
