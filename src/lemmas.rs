use crate::chunk::{cell_color, raster_index, slot_index, ChunkView};
use crate::coords::{chunk_loc_of, lemma_chunk_bounds, tile_loc_of};
use crate::tile::{Tile, TILE_SIZE};
use crate::tilemap::{
    apply_task, apply_tasks, chunks_wf, has_chunk_in, index_of, lemma_apply_task_wf, placed,
    task_wf, write_ready, TilemapTask, TilemapView,
};
use vstd::prelude::*;

verus! {

/// Among chunks with distinct coordinates, the chunk found for `c` is the one at
/// any position holding `c`.
pub proof fn lemma_index_of_unique(chunks: Seq<ChunkView>, c: (i32, i32), i: int)
    requires
        chunks_wf(chunks),
        0 <= i < chunks.len(),
        chunks[i].location == c,
    ensures
        index_of(chunks, c) == i,
        has_chunk_in(chunks, c),
{
    let k = index_of(chunks, c);
    assert(chunks[i].location == c);
    assert(0 <= k < chunks.len() && chunks[k].location == c);
    if k != i {
        assert(chunks[k].location != chunks[i].location);
    }
}

/// Applying tasks only ever adds chunks.
pub proof fn lemma_apply_tasks_keeps_chunks(chunks: Seq<ChunkView>, tasks: Seq<TilemapTask>, c: (i32, i32))
    requires
        has_chunk_in(chunks, c),
    ensures
        has_chunk_in(apply_tasks(chunks, tasks).0, c),
    decreases tasks.len(),
{
    if tasks.len() > 0 {
        lemma_apply_tasks_keeps_chunks(chunks, tasks.drop_last(), c);
        let before = apply_tasks(chunks, tasks.drop_last()).0;
        let after = apply_task(before, tasks.last()).0;
        let i = choose|i: int| 0 <= i < before.len() && (#[trigger] before[i]).location == c;
        assert(after[i].location == c);
    }
}

/// Applying tasks keeps the chunks well formed and hands back only
/// well-formed tasks.
pub proof fn lemma_apply_tasks_wf(chunks: Seq<ChunkView>, tasks: Seq<TilemapTask>)
    requires
        chunks_wf(chunks),
        forall|k: int| 0 <= k < tasks.len() ==> task_wf(#[trigger] tasks[k]),
    ensures
        chunks_wf(apply_tasks(chunks, tasks).0),
        forall|k: int|
            0 <= k < apply_tasks(chunks, tasks).1.len() ==> task_wf(
                #[trigger] apply_tasks(chunks, tasks).1[k],
            ),
    decreases tasks.len(),
{
    if tasks.len() > 0 {
        let front = tasks.drop_last();
        assert forall|k: int| 0 <= k < front.len() implies task_wf(#[trigger] front[k]) by {
            assert(front[k] == tasks[k]);
        }
        lemma_apply_tasks_wf(chunks, front);
        let before = apply_tasks(chunks, front);
        assert(task_wf(tasks[tasks.len() - 1]));
        lemma_apply_task_wf(before.0, tasks.last());
        let step = apply_task(before.0, tasks.last());
        let all = before.1 + step.1;
        assert forall|k: int| 0 <= k < all.len() implies task_wf(#[trigger] all[k]) by {
            if k < before.1.len() {
                assert(all[k] == before.1[k]);
            } else {
                assert(all[k] == step.1[k - before.1.len()]);
            }
        }
    }
}

/// One pass over the queue keeps a tilemap well formed.
pub proof fn lemma_processed_wf(m: TilemapView)
    requires
        m.wf(),
    ensures
        m.processed().wf(),
{
    lemma_apply_tasks_wf(m.chunks, m.tasks);
}

/// Queuing the creation of chunk `c` makes it exist after the tasks.
proof fn lemma_make_applies(chunks: Seq<ChunkView>, tasks: Seq<TilemapTask>, c: (i32, i32))
    ensures
        has_chunk_in(apply_tasks(chunks, tasks.push(TilemapTask::MakeChunk(c))).0, c),
{
    let all = tasks.push(TilemapTask::MakeChunk(c));
    assert(all.drop_last() =~= tasks);
    let before = apply_tasks(chunks, tasks).0;
    if !has_chunk_in(before, c) {
        let after = before.push(crate::chunk::new_chunk_view(c));
        assert(after[before.len() as int].location == c);
    }
}

/// A tile write queued last lands in its slot, where its chunk exists by
/// then.
proof fn lemma_set_applies(
    chunks: Seq<ChunkView>,
    tasks: Seq<TilemapTask>,
    loc: (i32, i32),
    tile: Option<Tile>,
)
    requires
        chunks_wf(chunks),
        forall|k: int| 0 <= k < tasks.len() ==> task_wf(#[trigger] tasks[k]),
        has_chunk_in(apply_tasks(chunks, tasks).0, chunk_loc_of(loc)),
        tile matches Some(t) ==> t.wf(),
    ensures
        ({
            let r = apply_tasks(chunks, tasks.push(TilemapTask::SetTile { loc, tile })).0;
            &&& has_chunk_in(r, chunk_loc_of(loc))
            &&& r[index_of(r, chunk_loc_of(loc))].slot(
                tile_loc_of(loc).0 as int,
                tile_loc_of(loc).1 as int,
            ) == tile
        }),
{
    let c = chunk_loc_of(loc);
    let all = tasks.push(TilemapTask::SetTile { loc, tile });
    assert(all.drop_last() =~= tasks);
    lemma_apply_tasks_wf(chunks, tasks);
    let before = apply_tasks(chunks, tasks).0;
    let i = index_of(before, c);
    let x = tile_loc_of(loc).0 as int;
    let y = tile_loc_of(loc).1 as int;
    let r = before.update(i, before[i].with_slot(x, y, tile));
    assert(apply_tasks(chunks, all).0 == r);
    assert(r[i].location == c);
    assert(chunks_wf(r)) by {
        assert forall|a: int, b: int|
            0 <= a < r.len() && 0 <= b < r.len() && a != b implies (#[trigger] r[a]).location != (
            #[trigger] r[b]).location by {
            assert(before[a].location != before[b].location);
        }
        assert forall|a: int| 0 <= a < r.len() implies (#[trigger] r[a]).wf() by {
            lemma_chunk_bounds(loc.0);
            lemma_chunk_bounds(loc.1);
            if a == i {
                assert(before[i].wf());
                assert(crate::chunk::tiles_wf(r[a].tiles)) by {
                    assert forall|k: int|
                        0 <= k < r[a].tiles.len() && (#[trigger] r[a].tiles[k]) is Some implies r[a].tiles[k]->Some_0.wf() by {
                        if k != slot_index(x, y) {
                            assert(r[a].tiles[k] == before[i].tiles[k]);
                        }
                    }
                }
            } else {
                assert(before[a].wf());
            }
        }
    }
    lemma_index_of_unique(r, c, i);
    lemma_chunk_bounds(loc.0);
    lemma_chunk_bounds(loc.1);
}

/// A tile written at `loc` is read back from `loc` after one pass over the
/// queue, and after it is deleted and one more pass, `loc` reads as empty.
pub proof fn lemma_write_then_read(m: TilemapView, loc: (i32, i32), tile: Tile)
    requires
        m.wf(),
        tile.wf(),
    ensures
        m.after_set_tile(loc, tile).processed().cell(loc) == Some(placed(tile, loc)),
        m.after_set_tile(loc, tile).processed().after_delete_tile(loc).processed().cell(loc)
            == None::<Tile>,
{
    let c = chunk_loc_of(loc);
    let m0 = m.after_require(c);
    let t = TilemapTask::SetTile { loc, tile: Some(placed(tile, loc)) };
    if m.has_chunk(c) {
        lemma_apply_tasks_keeps_chunks(m.chunks, m.tasks, c);
    } else {
        lemma_make_applies(m.chunks, m.tasks, c);
    }
    assert forall|k: int| 0 <= k < m0.tasks.len() implies task_wf(#[trigger] m0.tasks[k]) by {
        if k < m.tasks.len() {
            assert(m0.tasks[k] == m.tasks[k]);
        }
    }
    lemma_set_applies(m.chunks, m0.tasks, loc, Some(placed(tile, loc)));
    let m1 = m.after_set_tile(loc, tile);
    assert(m1.tasks == m0.tasks.push(t));
    assert(m1.wf()) by {
        assert forall|k: int| 0 <= k < m1.tasks.len() implies task_wf(#[trigger] m1.tasks[k]) by {
            if k < m0.tasks.len() {
                assert(m1.tasks[k] == m0.tasks[k]);
            }
        }
    }
    let m2 = m1.processed();
    lemma_processed_wf(m1);
    assert(m2.has_chunk(c));
    let m3 = m2.after_delete_tile(loc);
    lemma_apply_tasks_keeps_chunks(m2.chunks, m2.tasks, c);
    lemma_set_applies(m2.chunks, m2.tasks, loc, None);
}

/// Requiring a chunk twice before a pass has the effect of requiring it
/// once: one chunk is created, and it exists after the pass.
pub proof fn lemma_require_idempotent(m: TilemapView, c: (i32, i32))
    requires
        m.wf(),
    ensures
        m.after_require(c).after_require(c).processed() == m.after_require(c).processed(),
        m.after_require(c).processed().has_chunk(c),
{
    if m.has_chunk(c) {
        lemma_apply_tasks_keeps_chunks(m.chunks, m.tasks, c);
    } else {
        let once = m.after_require(c);
        let twice = once.after_require(c);
        lemma_make_applies(m.chunks, m.tasks, c);
        assert(once.tasks.drop_last() =~= m.tasks);
        if !twice.has_chunk(c) {
            let t = TilemapTask::MakeChunk(c);
            assert(twice.tasks == once.tasks.push(t));
            assert(twice.tasks.drop_last() =~= once.tasks);
            let r1 = apply_tasks(m.chunks, once.tasks);
            assert(apply_tasks(m.chunks, twice.tasks) == (r1.0, r1.1 + seq![], r1.2 + seq![]));
            assert(r1.1 + seq![] =~= r1.1);
            assert(r1.2 + seq![] =~= r1.2);
        }
    }
}

/// Once the chunk holding `loc` is clean, pixel `(px, py)` of the raster
/// block of `loc` shows pixel `(px, py)` of the tile at `loc`, or the
/// background where `loc` is empty.
pub proof fn lemma_raster_shows_cell(m: TilemapView, loc: (i32, i32), px: int, py: int)
    requires
        m.wf(),
        m.has_chunk(chunk_loc_of(loc)),
        !m.chunk(chunk_loc_of(loc)).dirty,
        0 <= px < TILE_SIZE,
        0 <= py < TILE_SIZE,
    ensures
        m.chunk(chunk_loc_of(loc)).image[raster_index(
            tile_loc_of(loc).0 as int,
            tile_loc_of(loc).1 as int,
            px,
            py,
        )] == cell_color(m.cell(loc), px, py),
{
    let c = chunk_loc_of(loc);
    let i = index_of(m.chunks, c);
    assert(m.chunks[i].wf());
    lemma_chunk_bounds(loc.0);
    lemma_chunk_bounds(loc.1);
    m.chunk(c).lemma_clean_raster(tile_loc_of(loc).0 as int, tile_loc_of(loc).1 as int, px, py);
}

/// One task only ever adds chunks.
proof fn lemma_apply_task_keeps_chunks(chunks: Seq<ChunkView>, task: TilemapTask, c: (i32, i32))
    requires
        has_chunk_in(chunks, c),
    ensures
        has_chunk_in(apply_task(chunks, task).0, c),
{
    let i = choose|i: int| 0 <= i < chunks.len() && (#[trigger] chunks[i]).location == c;
    assert(apply_task(chunks, task).0[i].location == c);
}

/// Over a queue in creation-first order, the first `n` tasks defer nothing,
/// and every later tile write finds its chunk, or a creation of it queued
/// from position `n` on.
proof fn lemma_prefix_ready(chunks: Seq<ChunkView>, tasks: Seq<TilemapTask>, n: int)
    requires
        0 <= n <= tasks.len(),
        forall|j: int| 0 <= j < tasks.len() ==> #[trigger] write_ready(chunks, tasks, 0, j),
    ensures
        apply_tasks(chunks, tasks.take(n)).1.len() == 0,
        forall|j: int|
            n <= j < tasks.len() ==> #[trigger] write_ready(
                apply_tasks(chunks, tasks.take(n)).0,
                tasks,
                n,
                j,
            ),
    decreases n,
{
    if n == 0 {
        assert(tasks.take(0) =~= Seq::<TilemapTask>::empty());
    } else {
        lemma_prefix_ready(chunks, tasks, n - 1);
        let a = apply_tasks(chunks, tasks.take(n - 1));
        assert(tasks.take(n).drop_last() =~= tasks.take(n - 1));
        let t = tasks[n - 1];
        let b = apply_task(a.0, t);
        assert(write_ready(a.0, tasks, n - 1, n - 1));
        assert forall|j: int| n <= j < tasks.len() implies #[trigger] write_ready(b.0, tasks, n, j) by {
            assert(write_ready(a.0, tasks, n - 1, j));
            match tasks[j] {
                TilemapTask::SetTile { loc, .. } => {
                    let c = chunk_loc_of(loc);
                    if has_chunk_in(a.0, c) {
                        lemma_apply_task_keeps_chunks(a.0, t, c);
                    } else {
                        let k = choose|k: int|
                            n - 1 <= k < j && #[trigger] tasks[k] == TilemapTask::MakeChunk(c);
                        if k == n - 1 {
                            if !has_chunk_in(a.0, c) {
                                assert(b.0[a.0.len() as int].location == c);
                            }
                        } else {
                            assert(n <= k < j && tasks[k] == TilemapTask::MakeChunk(c));
                        }
                    }
                },
                TilemapTask::MakeChunk(_) => {},
            }
        }
        assert(b.1.len() == 0);
    }
}

/// Over a queue in which every tile write finds its chunk existing or a
/// creation of that chunk queued before it, one pass applies every task and
/// leaves nothing for the next pass.
pub proof fn lemma_nothing_deferred(m: TilemapView)
    requires
        m.creation_queued_first(),
    ensures
        m.processed().tasks.len() == 0,
        m.processed().creation_queued_first(),
{
    lemma_prefix_ready(m.chunks, m.tasks, m.tasks.len() as int);
    assert(m.tasks.take(m.tasks.len() as int) =~= m.tasks);
}

/// Adding a task that finds its chunk keeps the creation-first order.
proof fn lemma_enqueue_keeps_order(m: TilemapView, t: TilemapTask)
    requires
        m.creation_queued_first(),
        write_ready(m.chunks, m.tasks.push(t), 0, m.tasks.len() as int),
    ensures
        m.enqueue(t).creation_queued_first(),
{
    let n = m.enqueue(t);
    assert forall|j: int| 0 <= j < n.tasks.len() implies #[trigger] write_ready(n.chunks, n.tasks, 0, j) by {
        if j < m.tasks.len() {
            assert(write_ready(m.chunks, m.tasks, 0, j));
            assert(n.tasks[j] == m.tasks[j]);
            match m.tasks[j] {
                TilemapTask::SetTile { loc, .. } => {
                    let c = chunk_loc_of(loc);
                    if !has_chunk_in(m.chunks, c) {
                        let k = choose|k: int|
                            0 <= k < j && #[trigger] m.tasks[k] == TilemapTask::MakeChunk(c);
                        assert(n.tasks[k] == m.tasks[k]);
                    }
                },
                TilemapTask::MakeChunk(_) => {},
            }
        }
    }
}

/// Each operation of a tilemap keeps its queue in creation-first order, so
/// that no tile write ever waits for a later pass.
pub proof fn lemma_operations_keep_order(
    m: TilemapView,
    c: (i32, i32),
    loc: (i32, i32),
    tile: Tile,
    generate_if_missing: bool,
)
    requires
        m.creation_queued_first(),
    ensures
        m.after_require(c).creation_queued_first(),
        m.after_set_tile(loc, tile).creation_queued_first(),
        m.after_delete_tile(loc).creation_queued_first(),
        m.after_get_tile(loc, generate_if_missing).creation_queued_first(),
        m.processed().creation_queued_first(),
{
    if !m.has_chunk(c) {
        lemma_enqueue_keeps_order(m, TilemapTask::MakeChunk(c));
    }
    let cl = chunk_loc_of(loc);
    let m0 = m.after_require(cl);
    if !m.has_chunk(cl) {
        lemma_enqueue_keeps_order(m, TilemapTask::MakeChunk(cl));
        let t = TilemapTask::SetTile { loc, tile: Some(placed(tile, loc)) };
        let k = m.tasks.len() as int;
        assert(m0.tasks.push(t)[k] == TilemapTask::MakeChunk(cl));
        lemma_enqueue_keeps_order(m0, t);
    } else {
        lemma_enqueue_keeps_order(m0, TilemapTask::SetTile { loc, tile: Some(placed(tile, loc)) });
        lemma_enqueue_keeps_order(m, TilemapTask::SetTile { loc, tile: None });
    }
    lemma_nothing_deferred(m);
}

} // verus!
