use crate::chunk::{new_chunk_view, rendered, same_cell, tiles_wf, Chunk, ChunkView};
use crate::coords::{chunk_from_location, chunk_loc_of, tile_from_location, tile_loc_of};
use crate::tile::Tile;
use std::collections::VecDeque;
use vstd::prelude::*;

verus! {

/// Deferred work of a tilemap.
pub enum TilemapTask {
    /// Create the chunk at this chunk coordinate, unless it exists.
    MakeChunk((i32, i32)),
    /// Put `tile` (or nothing) at global location `loc`, once its chunk exists.
    SetTile { loc: (i32, i32), tile: Option<Tile> },
}

/// Whether a chunk with coordinate `c` is among `chunks`.
pub open spec fn has_chunk_in(chunks: Seq<ChunkView>, c: (i32, i32)) -> bool {
    exists|i: int| 0 <= i < chunks.len() && (#[trigger] chunks[i]).location == c
}

/// The position of the chunk with coordinate `c` among `chunks`, where there is one.
pub open spec fn index_of(chunks: Seq<ChunkView>, c: (i32, i32)) -> int {
    choose|i: int| 0 <= i < chunks.len() && (#[trigger] chunks[i]).location == c
}

/// No two chunks share a coordinate.
pub open spec fn locations_unique(chunks: Seq<ChunkView>) -> bool {
    forall|i: int, j: int|
        0 <= i < chunks.len() && 0 <= j < chunks.len() && i != j ==> (#[trigger] chunks[i]).location
            != (#[trigger] chunks[j]).location
}

/// Every chunk is well formed and no two share a coordinate.
pub open spec fn chunks_wf(chunks: Seq<ChunkView>) -> bool {
    &&& forall|i: int| 0 <= i < chunks.len() ==> (#[trigger] chunks[i]).wf()
    &&& locations_unique(chunks)
}

/// A task that carries a tile carries a well-formed one.
pub open spec fn task_wf(task: TilemapTask) -> bool {
    match task {
        TilemapTask::SetTile { tile: Some(t), .. } => t.wf(),
        _ => true,
    }
}

/// The record to release when `slot` leaves a chunk, if it holds one.
pub open spec fn released_by(slot: Option<Tile>) -> Seq<u64> {
    match slot {
        Some(t) => match t.record {
            Some(r) => seq![r],
            None => seq![],
        },
        None => seq![],
    }
}

/// The effect of one task on `chunks`: the chunks after it, the tasks to try
/// again next cycle, and the records to release.
pub open spec fn apply_task(chunks: Seq<ChunkView>, task: TilemapTask) -> (
    Seq<ChunkView>,
    Seq<TilemapTask>,
    Seq<u64>,
) {
    match task {
        TilemapTask::MakeChunk(c) => if has_chunk_in(chunks, c) {
            (chunks, seq![], seq![])
        } else {
            (chunks.push(new_chunk_view(c)), seq![], seq![])
        },
        TilemapTask::SetTile { loc, tile } => {
            let c = chunk_loc_of(loc);
            if has_chunk_in(chunks, c) {
                let i = index_of(chunks, c);
                let x = tile_loc_of(loc).0 as int;
                let y = tile_loc_of(loc).1 as int;
                (
                    chunks.update(i, chunks[i].with_slot(x, y, tile)),
                    seq![],
                    released_by(chunks[i].slot(x, y)),
                )
            } else {
                (chunks, seq![task], seq![])
            }
        },
    }
}

/// The effect of `tasks`, one after the other in order, on `chunks`: the
/// chunks after them, the tasks to try again next cycle in their order, and
/// the records to release in order.
pub open spec fn apply_tasks(chunks: Seq<ChunkView>, tasks: Seq<TilemapTask>) -> (
    Seq<ChunkView>,
    Seq<TilemapTask>,
    Seq<u64>,
)
    decreases tasks.len(),
{
    if tasks.len() == 0 {
        (chunks, seq![], seq![])
    } else {
        let before = apply_tasks(chunks, tasks.drop_last());
        let step = apply_task(before.0, tasks.last());
        (step.0, before.1 + step.1, before.2 + step.2)
    }
}

/// A chunk after a synthesis pass: rebuilt and clean where it was dirty,
/// untouched otherwise.
pub open spec fn synthesized(c: ChunkView) -> ChunkView {
    if c.dirty {
        ChunkView { image: rendered(c.tiles), dirty: false, ..c }
    } else {
        c
    }
}

/// The coordinates of the dirty chunks among `chunks`, in order.
pub open spec fn dirty_locations(chunks: Seq<ChunkView>) -> Seq<(i32, i32)>
    decreases chunks.len(),
{
    if chunks.len() == 0 {
        seq![]
    } else {
        let before = dirty_locations(chunks.drop_last());
        if chunks.last().dirty {
            before.push(chunks.last().location)
        } else {
            before
        }
    }
}

/// A new chunk is well formed.
pub proof fn lemma_new_chunk_wf(c: (i32, i32))
    ensures
        new_chunk_view(c).wf(),
{
}

/// One task keeps the chunks well formed and hands back only tasks that it
/// was given.
pub proof fn lemma_apply_task_wf(chunks: Seq<ChunkView>, task: TilemapTask)
    requires
        chunks_wf(chunks),
        task_wf(task),
    ensures
        chunks_wf(apply_task(chunks, task).0),
        forall|k: int|
            0 <= k < apply_task(chunks, task).1.len() ==> #[trigger] apply_task(chunks, task).1[k]
                == task,
{
    let r = apply_task(chunks, task);
    match task {
        TilemapTask::MakeChunk(c) => {
            if !has_chunk_in(chunks, c) {
                lemma_new_chunk_wf(c);
                assert forall|i: int, j: int|
                    0 <= i < r.0.len() && 0 <= j < r.0.len() && i != j implies (
                    #[trigger] r.0[i]).location != (#[trigger] r.0[j]).location by {
                    if i == chunks.len() as int {
                        assert(chunks[j].location != c);
                    } else if j == chunks.len() as int {
                        assert(chunks[i].location != c);
                    } else {
                        assert(chunks[i].location != chunks[j].location);
                    }
                }
            }
        },
        TilemapTask::SetTile { loc, tile } => {
            let c = chunk_loc_of(loc);
            if has_chunk_in(chunks, c) {
                let i = index_of(chunks, c);
                let x = tile_loc_of(loc).0 as int;
                let y = tile_loc_of(loc).1 as int;
                crate::coords::lemma_chunk_bounds(loc.0);
                crate::coords::lemma_chunk_bounds(loc.1);
                let nc = chunks[i].with_slot(x, y, tile);
                assert(tiles_wf(nc.tiles)) by {
                    assert forall|k: int| 0 <= k < nc.tiles.len() && (#[trigger] nc.tiles[k]) is Some implies nc.tiles[k]->Some_0.wf() by {
                        if k != crate::chunk::slot_index(x, y) {
                            assert(nc.tiles[k] == chunks[i].tiles[k]);
                        }
                    }
                }
                assert forall|a: int, b: int|
                    0 <= a < r.0.len() && 0 <= b < r.0.len() && a != b implies (
                    #[trigger] r.0[a]).location != (#[trigger] r.0[b]).location by {
                    assert(chunks[a].location != chunks[b].location);
                }
                assert forall|a: int| 0 <= a < r.0.len() implies (#[trigger] r.0[a]).wf() by {
                    if a != i {
                        assert(chunks[a].wf());
                    }
                }
            }
        },
    }
}

/// Whether the task at position `j` of `tasks`, where it writes a tile, finds
/// its chunk among `chunks` or behind a creation of that chunk queued at a
/// position from `lo` up to `j`.
pub open spec fn write_ready(chunks: Seq<ChunkView>, tasks: Seq<TilemapTask>, lo: int, j: int) -> bool {
    match tasks[j] {
        TilemapTask::SetTile { loc, .. } => has_chunk_in(chunks, chunk_loc_of(loc)) || exists|k: int|
            lo <= k < j && #[trigger] tasks[k] == TilemapTask::MakeChunk(chunk_loc_of(loc)),
        TilemapTask::MakeChunk(_) => true,
    }
}

/// Tile `tile` as placed at global location `loc`.
pub open spec fn placed(tile: Tile, loc: (i32, i32)) -> Tile {
    Tile { location: Some(loc), ..tile }
}

/// The abstract state of a tilemap: its chunks and its queue of pending tasks.
pub ghost struct TilemapView {
    pub chunks: Seq<ChunkView>,
    pub tasks: Seq<TilemapTask>,
}

impl TilemapView {
    /// The chunks are well formed with distinct coordinates, and every queued
    /// tile is well formed.
    pub open spec fn wf(&self) -> bool {
        &&& chunks_wf(self.chunks)
        &&& forall|k: int| 0 <= k < self.tasks.len() ==> task_wf(#[trigger] self.tasks[k])
    }

    /// Whether the chunk with coordinate `c` exists.
    pub open spec fn has_chunk(&self, c: (i32, i32)) -> bool {
        has_chunk_in(self.chunks, c)
    }

    /// The chunk with coordinate `c`; meaningful where it exists.
    pub open spec fn chunk(&self, c: (i32, i32)) -> ChunkView {
        self.chunks[index_of(self.chunks, c)]
    }

    /// The content of the cell at global location `loc`: empty where its
    /// chunk does not exist.
    pub open spec fn cell(&self, loc: (i32, i32)) -> Option<Tile> {
        let c = chunk_loc_of(loc);
        if self.has_chunk(c) {
            self.chunk(c).slot(tile_loc_of(loc).0 as int, tile_loc_of(loc).1 as int)
        } else {
            None
        }
    }

    /// Every queued tile write finds its chunk existing, or a creation of
    /// that chunk queued before it.
    pub open spec fn creation_queued_first(&self) -> bool {
        forall|j: int| 0 <= j < self.tasks.len() ==> #[trigger] write_ready(self.chunks, self.tasks, 0, j)
    }

    /// The state after a task is added at the back of the queue.
    pub open spec fn enqueue(&self, task: TilemapTask) -> TilemapView {
        TilemapView { tasks: self.tasks.push(task), ..*self }
    }

    /// The state after chunk `c` is required.
    pub open spec fn after_require(&self, c: (i32, i32)) -> TilemapView {
        if self.has_chunk(c) {
            *self
        } else {
            self.enqueue(TilemapTask::MakeChunk(c))
        }
    }

    /// The state after `tile` is set at global location `loc`.
    pub open spec fn after_set_tile(&self, loc: (i32, i32), tile: Tile) -> TilemapView {
        self.after_require(chunk_loc_of(loc)).enqueue(
            TilemapTask::SetTile { loc, tile: Some(placed(tile, loc)) },
        )
    }

    /// The state after the tile at global location `loc` is deleted.
    pub open spec fn after_delete_tile(&self, loc: (i32, i32)) -> TilemapView {
        if self.has_chunk(chunk_loc_of(loc)) {
            self.enqueue(TilemapTask::SetTile { loc, tile: None })
        } else {
            *self
        }
    }

    /// The state after the tile at global location `loc` is looked up.
    pub open spec fn after_get_tile(&self, loc: (i32, i32), generate_if_missing: bool) -> TilemapView {
        if self.has_chunk(chunk_loc_of(loc)) || !generate_if_missing {
            *self
        } else {
            self.enqueue(TilemapTask::MakeChunk(chunk_loc_of(loc)))
        }
    }

    /// The state after one pass over the queue: every task is applied in
    /// order, and those whose chunk did not exist yet wait for the next pass.
    pub open spec fn processed(&self) -> TilemapView {
        let r = apply_tasks(self.chunks, self.tasks);
        TilemapView { chunks: r.0, tasks: r.1 }
    }

    /// The records that one pass over the queue releases, in order.
    pub open spec fn released(&self) -> Seq<u64> {
        apply_tasks(self.chunks, self.tasks).2
    }
}

/// A grid of tiles without bounds, stored as chunks that are created when a
/// write first needs them.
pub struct Tilemap {
    chunks: Vec<Chunk>,
    tasks: VecDeque<TilemapTask>,
}

impl Default for Tilemap {
    fn default() -> (m: Tilemap)
        ensures
            m@.chunks == Seq::<ChunkView>::empty(),
            m@.tasks == Seq::<TilemapTask>::empty(),
            m@.wf(),
    {
        Tilemap::new()
    }
}

impl View for Tilemap {
    type V = TilemapView;

    closed spec fn view(&self) -> TilemapView {
        TilemapView { chunks: self.chunks@.map_values(|c: Chunk| c@), tasks: self.tasks@ }
    }
}

impl Tilemap {
    /// A tilemap with no chunks and no pending tasks.
    pub fn new() -> (m: Tilemap)
        ensures
            m@.chunks == Seq::<ChunkView>::empty(),
            m@.tasks == Seq::<TilemapTask>::empty(),
            m@.wf(),
    {
        let m = Tilemap { chunks: Vec::new(), tasks: VecDeque::new() };
        assert(m@.chunks =~= Seq::<ChunkView>::empty());
        m
    }

    /// Where the chunk with coordinate `c` stands in `chunks`.
    fn find_chunk(&self, c: (i32, i32)) -> (r: Option<usize>)
        requires
            locations_unique(self@.chunks),
        ensures
            r is None <==> !self@.has_chunk(c),
            r matches Some(i) ==> i == index_of(self@.chunks, c) && i < self@.chunks.len(),
    {
        let mut i: usize = 0;
        while i < self.chunks.len()
            invariant
                i <= self.chunks@.len(),
                locations_unique(self@.chunks),
                forall|j: int| 0 <= j < i ==> (#[trigger] self@.chunks[j]).location != c,
            decreases self.chunks@.len() - i,
        {
            let here = self.chunks[i].location();
            if here.0 == c.0 && here.1 == c.1 {
                assert(self@.chunks[i as int].location == c);
                proof {
                    let k = index_of(self@.chunks, c);
                    assert(0 <= k < self@.chunks.len() && self@.chunks[k].location == c);
                    if k != i as int {
                        assert(self@.chunks[k].location != self@.chunks[i as int].location);
                    }
                }
                return Some(i);
            }
            assert(self@.chunks[i as int].location != c);
            i += 1;
        }
        None
    }

    /// Number of chunks that exist.
    pub fn chunk_count(&self) -> (r: usize)
        ensures
            r == self@.chunks.len(),
    {
        self.chunks.len()
    }

    /// Number of tasks waiting for the next pass.
    pub fn task_count(&self) -> (r: usize)
        ensures
            r == self@.tasks.len(),
    {
        self.tasks.len()
    }

    /// Whether the chunk with coordinate `chunk_loc` exists.
    pub fn has_chunk(&mut self, chunk_loc: (i32, i32)) -> (r: bool)
        requires
            old(self)@.wf(),
        ensures
            *final(self) == *old(self),
            r == old(self)@.has_chunk(chunk_loc),
    {
        self.find_chunk(chunk_loc).is_some()
    }

    /// Queues the creation of the chunk with coordinate `chunk_loc`, unless it
    /// exists.
    pub fn require_chunk(&mut self, chunk_loc: (i32, i32))
        requires
            old(self)@.wf(),
        ensures
            final(self)@ == old(self)@.after_require(chunk_loc),
            final(self)@.wf(),
    {
        if self.find_chunk(chunk_loc).is_none() {
            self.tasks.push_back(TilemapTask::MakeChunk(chunk_loc));
        }
    }

    /// Queues `tile` for global location `loc`, together with the creation of
    /// its chunk where that chunk does not exist. The tile is written during
    /// the next pass over the queue.
    pub fn set_tile(&mut self, loc: (i32, i32), tile: Tile)
        requires
            old(self)@.wf(),
            tile.wf(),
        ensures
            final(self)@ == old(self)@.after_set_tile(loc, tile),
            final(self)@.wf(),
    {
        self.require_chunk(chunk_from_location(loc));
        let mut tile = tile;
        tile.location = Some(loc);
        self.tasks.push_back(TilemapTask::SetTile { loc, tile: Some(tile) });
    }

    /// Queues the removal of the tile at global location `loc`. Does nothing
    /// where its chunk does not exist.
    pub fn delete_tile(&mut self, loc: (i32, i32))
        requires
            old(self)@.wf(),
        ensures
            final(self)@ == old(self)@.after_delete_tile(loc),
            final(self)@.wf(),
    {
        if !self.has_chunk(chunk_from_location(loc)) {
            return;
        }
        self.tasks.push_back(TilemapTask::SetTile { loc, tile: None });
    }

    /// A copy of the tile at global location `loc`. Where its chunk does not
    /// exist the result is `None`, and with `generate_if_missing` the creation
    /// of that chunk is queued.
    pub fn get_tile(&mut self, loc: (i32, i32), generate_if_missing: bool) -> (r: Option<Tile>)
        requires
            old(self)@.wf(),
        ensures
            same_cell(r, old(self)@.cell(loc)),
            final(self)@ == old(self)@.after_get_tile(loc, generate_if_missing),
            final(self)@.wf(),
    {
        let chunk_loc = chunk_from_location(loc);
        match self.find_chunk(chunk_loc) {
            Some(i) => {
                let off = tile_from_location(loc);
                let ghost before = self.chunks@;
                let r = self.chunks[i].get_tile((off.0 as i32, off.1 as i32));
                assert(self.chunks@ =~= before);
                match r {
                    Ok(t) => t,
                    Err(_) => None,
                }
            },
            None => {
                if generate_if_missing {
                    self.tasks.push_back(TilemapTask::MakeChunk(chunk_loc));
                }
                None
            },
        }
    }

    /// The chunk with coordinate `chunk_loc`, if it exists.
    pub fn try_get_chunk(&self, chunk_loc: (i32, i32)) -> (r: Option<&Chunk>)
        requires
            self@.wf(),
        ensures
            r is Some <==> self@.has_chunk(chunk_loc),
            r matches Some(ch) ==> ch@ == self@.chunk(chunk_loc),
    {
        match self.find_chunk(chunk_loc) {
            Some(i) => Some(&self.chunks[i]),
            None => None,
        }
    }
}

/// Runs one pass over the queue of `tilemap`: the tasks are applied in the
/// order they were queued, and a tile whose chunk does not exist yet waits
/// for the next pass, behind the tasks queued meanwhile. Returns the records
/// of the tiles that left their slots, to be released, in order.
pub fn handle_tilemap_tasks(tilemap: &mut Tilemap) -> (released: Vec<u64>)
    requires
        old(tilemap)@.wf(),
    ensures
        final(tilemap)@ == old(tilemap)@.processed(),
        released@ == old(tilemap)@.released(),
        final(tilemap)@.wf(),
{
    let ghost chunks0 = tilemap@.chunks;
    let ghost tasks0 = tilemap@.tasks;
    let mut retry: VecDeque<TilemapTask> = VecDeque::new();
    let mut released: Vec<u64> = Vec::new();
    let ghost mut n: int = 0;
    while tilemap.tasks.len() > 0
        invariant
            0 <= n <= tasks0.len(),
            tilemap.tasks@ == tasks0.subrange(n, tasks0.len() as int),
            apply_tasks(chunks0, tasks0.take(n)) == (tilemap@.chunks, retry@, released@),
            chunks_wf(tilemap@.chunks),
            forall|k: int| 0 <= k < tasks0.len() ==> task_wf(#[trigger] tasks0[k]),
            forall|k: int| 0 <= k < retry@.len() ==> task_wf(#[trigger] retry@[k]),
        decreases tilemap.tasks@.len(),
    {
        let ghost chunks_before = tilemap@.chunks;
        let ghost retry_before = retry@;
        let ghost released_before = released@;
        let task = tilemap.tasks.pop_front().unwrap();
        let ghost this_task = task;
        assert(this_task == tasks0[n]);
        proof {
            lemma_apply_task_wf(chunks_before, this_task);
        }
        match task {
            TilemapTask::MakeChunk(c) => {
                if tilemap.find_chunk(c).is_none() {
                    let chunk = Chunk::new(c);
                    tilemap.chunks.push(chunk);
                    assert(tilemap@.chunks =~= chunks_before.push(new_chunk_view(c)));
                }
            },
            TilemapTask::SetTile { loc, tile } => {
                let chunk_loc = chunk_from_location(loc);
                match tilemap.find_chunk(chunk_loc) {
                    Some(i) => {
                        let off = tile_from_location(loc);
                        let ghost x = off.0 as int;
                        let ghost y = off.1 as int;
                        proof {
                            assert(chunks_before[i as int].wf());
                        }
                        let prev = tilemap.chunks[i].set_tile((off.0 as i32, off.1 as i32), tile);
                        match prev {
                            Ok(Some(old_tile)) => {
                                match old_tile.record {
                                    Some(r) => released.push(r),
                                    None => {},
                                }
                            },
                            _ => {},
                        }
                        tilemap.chunks[i].request_update();
                        assert(tilemap@.chunks =~= chunks_before.update(
                            i as int,
                            chunks_before[i as int].with_slot(x, y, tile),
                        ));
                        assert(released@ =~= released_before + released_by(
                            chunks_before[i as int].slot(x, y),
                        ));
                    },
                    None => {
                        retry.push_back(TilemapTask::SetTile { loc, tile });
                    },
                }
            },
        }
        proof {
            assert(tasks0.take(n + 1).drop_last() =~= tasks0.take(n));
            assert(retry@ =~= retry_before + apply_task(chunks_before, this_task).1);
            assert(released@ =~= released_before + apply_task(chunks_before, this_task).2);
            n = n + 1;
            assert(tilemap.tasks@ =~= tasks0.subrange(n, tasks0.len() as int));
        }
    }
    assert(tasks0.take(n) =~= tasks0);
    tilemap.tasks.append(&mut retry);
    released
}

/// Rebuilds the raster of every dirty chunk of `tilemap` and marks it clean.
/// Returns the coordinates of the rebuilt chunks, in order.
pub fn chunk_texture_update(tilemap: &mut Tilemap) -> (updated: Vec<(i32, i32)>)
    requires
        old(tilemap)@.wf(),
    ensures
        final(tilemap)@.chunks == old(tilemap)@.chunks.map_values(|c: ChunkView| synthesized(c)),
        final(tilemap)@.tasks == old(tilemap)@.tasks,
        updated@ == dirty_locations(old(tilemap)@.chunks),
        forall|j: int| 0 <= j < final(tilemap)@.chunks.len() ==> !(#[trigger] final(tilemap)@.chunks[j]).dirty,
        final(tilemap)@.wf(),
{
    let ghost chunks0 = tilemap@.chunks;
    let mut updated: Vec<(i32, i32)> = Vec::new();
    let mut i: usize = 0;
    while i < tilemap.chunks.len()
        invariant
            i <= tilemap@.chunks.len(),
            tilemap@.chunks.len() == chunks0.len(),
            tilemap@.tasks == old(tilemap)@.tasks,
            chunks_wf(chunks0),
            forall|j: int| 0 <= j < i ==> #[trigger] tilemap@.chunks[j] == synthesized(chunks0[j]),
            forall|j: int| i <= j < chunks0.len() ==> #[trigger] tilemap@.chunks[j] == chunks0[j],
            updated@ == dirty_locations(chunks0.take(i as int)),
        decreases chunks0.len() - i,
    {
        let ghost before = tilemap@.chunks;
        assert(tilemap@.chunks[i as int] == chunks0[i as int]);
        assert(chunks0[i as int].wf());
        if tilemap.chunks[i].is_dirty() {
            let loc = tilemap.chunks[i].location();
            tilemap.chunks[i].update_texture();
            updated.push(loc);
            assert(tilemap@.chunks =~= before.update(i as int, synthesized(chunks0[i as int])));
        }
        assert(chunks0.take(i + 1).drop_last() =~= chunks0.take(i as int));
        i += 1;
    }
    assert(chunks0.take(i as int) =~= chunks0);
    assert(tilemap@.chunks =~= chunks0.map_values(|c: ChunkView| synthesized(c)));
    assert forall|a: int, b: int|
        0 <= a < tilemap@.chunks.len() && 0 <= b < tilemap@.chunks.len() && a != b implies (
        #[trigger] tilemap@.chunks[a]).location != (#[trigger] tilemap@.chunks[b]).location by {
        assert(chunks0[a].location != chunks0[b].location);
    }
    assert forall|a: int| 0 <= a < tilemap@.chunks.len() implies (#[trigger] tilemap@.chunks[a]).wf() by {
        assert(chunks0[a].wf());
    }
    updated
}

} // verus!
