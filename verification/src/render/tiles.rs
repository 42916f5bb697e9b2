use vstd::prelude::*;

verus! {

/// The tiles that a box of tiles covers, row by row from `row_min` to `row_max` and,
/// within a row, from `col_min` to `col_max`; tile (row, col) has index
/// `row * per_row + col`.
pub open spec fn covered_tiles(col_min: nat, col_max: nat, row_min: nat, row_max: nat, per_row: nat) -> Seq<
    nat,
>
    decreases row_max + 1 - row_min,
{
    if row_min > row_max {
        Seq::<nat>::empty()
    } else {
        Seq::new(
            if col_min <= col_max {
                (col_max + 1 - col_min) as nat
            } else {
                0
            },
            |j: int| (row_min * per_row + col_min + j) as nat,
        ) + covered_tiles(col_min, col_max, row_min + 1, row_max, per_row)
    }
}

/// The indices of the tiles that the box from column `col_min` to `col_max` and from
/// row `row_min` to `row_max` covers (see [`covered_tiles`]), on a grid `per_row`
/// tiles wide.
pub fn tiles_in_box(col_min: usize, col_max: usize, row_min: usize, row_max: usize, per_row: usize) -> (tiles:
    Vec<usize>)
    requires
        col_max < per_row,
        row_max < per_row,
        per_row * per_row <= usize::MAX,
    ensures
        tiles@.map_values(|t: usize| t as nat) == covered_tiles(
            col_min as nat,
            col_max as nat,
            row_min as nat,
            row_max as nat,
            per_row as nat,
        ),
{
    let mut tiles: Vec<usize> = Vec::new();
    if row_min > row_max {
        assert(tiles@.map_values(|t: usize| t as nat) =~= covered_tiles(
            col_min as nat,
            col_max as nat,
            row_min as nat,
            row_max as nat,
            per_row as nat,
        ));
        return tiles;
    }
    let mut row = row_min;
    while row <= row_max
        invariant
            row_min <= row <= row_max + 1,
            col_max < per_row,
            row_max < per_row,
            per_row * per_row <= usize::MAX,
            tiles@.map_values(|t: usize| t as nat) + covered_tiles(
                col_min as nat,
                col_max as nat,
                row as nat,
                row_max as nat,
                per_row as nat,
            ) == covered_tiles(
                col_min as nat,
                col_max as nat,
                row_min as nat,
                row_max as nat,
                per_row as nat,
            ),
        decreases row_max + 1 - row,
    {
        let ghost before = tiles@.map_values(|t: usize| t as nat);
        assert(row * per_row + col_max < per_row * per_row) by (nonlinear_arith)
            requires
                row < per_row,
                col_max < per_row,
        ;
        let mut col = col_min;
        while col <= col_max
            invariant
                col_min <= col,
                col <= col_max + 1 || col_min > col_max,
                col_min > col_max ==> col == col_min,
                col_max < per_row,
                row <= row_max,
                row * per_row + col_max < per_row * per_row,
                per_row * per_row <= usize::MAX,
                tiles@.map_values(|t: usize| t as nat) == before + Seq::new(
                    (col - col_min) as nat,
                    |j: int| (row * per_row + col_min + j) as nat,
                ),
            decreases col_max + 1 - col,
        {
            let ghost prev = tiles@;
            tiles.push(row * per_row + col);
            assert(tiles@.map_values(|t: usize| t as nat) =~= prev.map_values(|t: usize| t as nat).push(
                (row * per_row + col) as nat,
            ));
            col = col + 1;
            assert(tiles@.map_values(|t: usize| t as nat) =~= before + Seq::new(
                (col - col_min) as nat,
                |j: int| (row * per_row + col_min + j) as nat,
            ));
        }
        assert(tiles@.map_values(|t: usize| t as nat) =~= before + Seq::new(
            if col_min <= col_max {
                (col_max + 1 - col_min) as nat
            } else {
                0
            },
            |j: int| (row * per_row + col_min + j) as nat,
        ));
        row = row + 1;
    }
    assert(covered_tiles(col_min as nat, col_max as nat, row as nat, row_max as nat, per_row as nat)
        =~= Seq::<nat>::empty());
    assert(tiles@.map_values(|t: usize| t as nat) =~= covered_tiles(
        col_min as nat,
        col_max as nat,
        row_min as nat,
        row_max as nat,
        per_row as nat,
    ));
    tiles
}

/// The sum of a list of sizes.
pub open spec fn total(sizes: Seq<usize>) -> nat
    decreases sizes.len(),
{
    if sizes.len() == 0 {
        0
    } else {
        total(sizes.drop_last()) + sizes.last() as nat
    }
}

/// Where handing tiles out to workers stands: the worker of each tile so far, the
/// worker being filled, and how many triangles it has.
pub struct Handout {
    pub workers: Seq<usize>,
    pub current: nat,
    pub count: nat,
}

/// How tiles are handed out, in order: a tile goes to the worker being filled, unless
/// that worker already has at least `target` triangles and is not the last worker, in
/// which case the next worker starts with it.
pub open spec fn handout(sizes: Seq<usize>, workers: nat, target: nat) -> Handout
    decreases sizes.len(),
{
    if sizes.len() == 0 {
        Handout { workers: Seq::<usize>::empty(), current: 0, count: 0 }
    } else {
        let h = handout(sizes.drop_last(), workers, target);
        let (cur, cnt) = if h.current + 1 < workers && h.count >= target {
            (h.current + 1, 0nat)
        } else {
            (h.current, h.count)
        };
        Handout {
            workers: h.workers.push(cur as usize),
            current: cur,
            count: cnt + sizes.last() as nat,
        }
    }
}

/// Hands the tiles, of `sizes[i]` triangles each, out to `workers` workers (see
/// [`handout`]), aiming at `triangles / workers` triangles each; the worker of each tile.
pub fn assign_tiles(sizes: &Vec<usize>, workers: usize, triangles: usize) -> (assigned: Vec<usize>)
    requires
        workers > 0,
        total(sizes@) <= usize::MAX,
    ensures
        assigned@ == handout(sizes@, workers as nat, (triangles / workers) as nat).workers,
        fills_in_turn(sizes@, assigned@, workers as nat, (triangles / workers) as nat),
{
    let target = triangles / workers;
    let mut assigned: Vec<usize> = Vec::new();
    let mut current: usize = 0;
    let mut count: usize = 0;
    let n = sizes.len();
    let mut i: usize = 0;
    assert(sizes@.take(0) =~= Seq::<usize>::empty());
    while i < n
        invariant
            n == sizes@.len(),
            i <= n,
            workers > 0,
            total(sizes@) <= usize::MAX,
            ({
                let h = handout(sizes@.take(i as int), workers as nat, target as nat);
                &&& assigned@ == h.workers
                &&& current == h.current
                &&& count == h.count
            }),
            current < workers,
            count <= total(sizes@.take(i as int)),
        decreases n - i,
    {
        let ghost pre = sizes@.take(i + 1);
        assert(pre.drop_last() =~= sizes@.take(i as int));
        proof {
            lemma_total_prefix(sizes@, i + 1);
        }
        if current + 1 < workers && count >= target {
            current = current + 1;
            count = 0;
        }
        count = count + sizes[i];
        assigned.push(current);
        i = i + 1;
    }
    assert(sizes@.take(n as int) =~= sizes@);
    proof {
        lemma_handout_fills_in_turn(sizes@, workers as nat, target as nat);
    }
    assigned
}

/// A prefix of the sizes adds up to no more than the whole.
proof fn lemma_total_prefix(sizes: Seq<usize>, i: int)
    requires
        0 <= i <= sizes.len(),
    ensures
        total(sizes.take(i)) <= total(sizes),
    decreases sizes.len() - i,
{
    if i < sizes.len() {
        lemma_total_prefix(sizes, i + 1);
        assert(sizes.take(i + 1).drop_last() =~= sizes.take(i));
    } else {
        assert(sizes.take(i) =~= sizes);
    }
}

/// Every tile goes to an existing worker, and the workers are filled one after the
/// other: a later tile never goes to an earlier worker.
pub proof fn lemma_handout_ordered(sizes: Seq<usize>, workers: nat, target: nat)
    requires
        0 < workers <= usize::MAX,
    ensures
        handout(sizes, workers, target).workers.len() == sizes.len(),
        handout(sizes, workers, target).current < workers,
        forall|i: int|
            0 <= i < sizes.len() ==> #[trigger] handout(sizes, workers, target).workers[i] < workers,
        forall|i: int, j: int|
            0 <= i <= j < sizes.len() ==> #[trigger] handout(sizes, workers, target).workers[i]
                <= #[trigger] handout(sizes, workers, target).workers[j],
        sizes.len() > 0 ==> handout(sizes, workers, target).workers.last() == handout(
            sizes,
            workers,
            target,
        ).current,
    decreases sizes.len(),
{
    if sizes.len() > 0 {
        lemma_handout_ordered(sizes.drop_last(), workers, target);
        let h = handout(sizes.drop_last(), workers, target);
        let g = handout(sizes, workers, target);
        assert forall|i: int| 0 <= i < sizes.len() implies #[trigger] g.workers[i] < workers by {
            if i < sizes.len() - 1 {
                assert(g.workers[i] == h.workers[i]);
            }
        }
        assert forall|i: int, j: int| 0 <= i <= j < sizes.len() implies #[trigger] g.workers[i]
            <= #[trigger] g.workers[j] by {
            if j < sizes.len() - 1 {
                assert(g.workers[i] == h.workers[i]);
                assert(g.workers[j] == h.workers[j]);
            } else if i < sizes.len() - 1 {
                assert(g.workers[i] == h.workers[i]);
                assert(h.workers[i] <= h.workers[sizes.len() - 2]);
                assert(h.workers[sizes.len() - 2] == h.current);
            }
        }
    }
}

/// The triangles in the tiles before position `i` that went to worker `w`.
pub open spec fn load_before(sizes: Seq<usize>, assigned: Seq<usize>, w: nat, i: nat) -> nat
    decreases i,
{
    if i == 0 {
        0
    } else {
        load_before(sizes, assigned, w, (i - 1) as nat) + (if assigned[i - 1] == w {
            sizes[i - 1] as nat
        } else {
            0
        })
    }
}

/// A worker's load over a prefix depends only on that prefix.
proof fn lemma_load_prefix(sizes: Seq<usize>, assigned: Seq<usize>, s2: Seq<usize>, a2: Seq<usize>, w: nat, i: nat)
    requires
        i <= sizes.len(),
        i <= s2.len(),
        i <= assigned.len(),
        i <= a2.len(),
        forall|j: int| 0 <= j < i ==> sizes[j] == s2[j] && assigned[j] == a2[j],
    ensures
        load_before(sizes, assigned, w, i) == load_before(s2, a2, w, i),
    decreases i,
{
    if i > 0 {
        lemma_load_prefix(sizes, assigned, s2, a2, w, (i - 1) as nat);
    }
}

/// A worker that no earlier tile went to has no load yet.
proof fn lemma_load_unused(sizes: Seq<usize>, assigned: Seq<usize>, w: nat, i: nat)
    requires
        i <= assigned.len(),
        forall|j: int| 0 <= j < i ==> assigned[j] < w,
    ensures
        load_before(sizes, assigned, w, i) == 0,
    decreases i,
{
    if i > 0 {
        lemma_load_unused(sizes, assigned, w, (i - 1) as nat);
    }
}

/// The worker being filled holds exactly the triangles of its own tiles.
proof fn lemma_handout_count(sizes: Seq<usize>, workers: nat, target: nat)
    requires
        0 < workers <= usize::MAX,
    ensures
        handout(sizes, workers, target).count == load_before(
            sizes,
            handout(sizes, workers, target).workers,
            handout(sizes, workers, target).current,
            sizes.len(),
        ),
    decreases sizes.len(),
{
    if sizes.len() > 0 {
        let p = sizes.drop_last();
        lemma_handout_count(p, workers, target);
        lemma_handout_ordered(p, workers, target);
        lemma_handout_ordered(sizes, workers, target);
        let h = handout(p, workers, target);
        let g = handout(sizes, workers, target);
        let a = g.workers;
        let n = p.len();
        assert(a.drop_last() =~= h.workers);
        lemma_load_prefix(sizes, a, p, h.workers, h.current, n);
        lemma_load_prefix(sizes, a, p, h.workers, h.current + 1, n);
        if h.current + 1 < workers && h.count >= target {
            assert forall|j: int| 0 <= j < n implies a[j] < h.current + 1 by {
                assert(a[j] == h.workers[j]);
                assert(h.workers[j] <= h.workers[n - 1]);
            }
            lemma_load_unused(sizes, a, h.current + 1, n);
        }
        assert(a[n as int] == g.current);
    }
}

/// Handing out a prefix of the tiles hands them out as handing out all of them does.
proof fn lemma_handout_prefix(sizes: Seq<usize>, workers: nat, target: nat, k: int)
    requires
        0 < workers <= usize::MAX,
        0 <= k <= sizes.len(),
    ensures
        handout(sizes.take(k), workers, target).workers == handout(sizes, workers, target).workers.take(k),
    decreases sizes.len(),
{
    if k < sizes.len() {
        let p = sizes.drop_last();
        assert(p.take(k) =~= sizes.take(k));
        lemma_handout_prefix(p, workers, target, k);
        lemma_handout_ordered(p, workers, target);
        let hp = handout(p, workers, target).workers;
        let hs = handout(sizes, workers, target).workers;
        assert(hs.drop_last() =~= hp);
        assert forall|j: int| 0 <= j < k implies hs.take(k)[j] == hp.take(k)[j] by {
            assert(hs[j] == hs.drop_last()[j]);
        }
        assert(hs.take(k) =~= hp.take(k));
    } else {
        lemma_handout_ordered(sizes, workers, target);
        assert(sizes.take(k) =~= sizes);
        assert(handout(sizes, workers, target).workers.take(k) =~= handout(sizes, workers, target).workers);
    }
}

/// The last tile goes to the worker of the tile before it, or to the next one exactly
/// when there is a next worker and that worker's own tiles hold `target` triangles.
proof fn lemma_handout_last_step(sizes: Seq<usize>, workers: nat, target: nat)
    requires
        0 < workers <= usize::MAX,
        sizes.len() >= 2,
    ensures
        ({
            let a = handout(sizes, workers, target).workers;
            let n = sizes.len() - 1;
            &&& a[n] == a[n - 1] || a[n] == a[n - 1] + 1
            &&& a[n] == a[n - 1] + 1 <==> (a[n - 1] + 1 < workers && load_before(
                sizes,
                a,
                a[n - 1] as nat,
                n as nat,
            ) >= target)
        }),
{
    let p = sizes.drop_last();
    lemma_handout_ordered(p, workers, target);
    lemma_handout_count(p, workers, target);
    let h = handout(p, workers, target);
    let a = handout(sizes, workers, target).workers;
    let n = p.len();
    assert(a.drop_last() =~= h.workers);
    assert(a[n - 1] == h.workers[n - 1]);
    assert(h.workers[n - 1] == h.current);
    lemma_load_prefix(sizes, a, p, h.workers, h.current, n);
}

/// Tiles are handed out in turn: one worker per tile; the first tile goes to worker 0
/// (to worker 1 when the target is 0 and there are two workers or more, since worker 0
/// already holds its target of none); each later tile goes to the same worker as the
/// tile before it or to the next one; and it goes to the next one exactly when there is
/// a next worker and the tiles already given to the current worker (its own tiles only)
/// hold at least `target` triangles.
pub open spec fn fills_in_turn(sizes: Seq<usize>, a: Seq<usize>, workers: nat, target: nat) -> bool {
    &&& a.len() == sizes.len()
    &&& sizes.len() > 0 ==> a[0] == (if 1 < workers && target == 0 { 1nat } else { 0nat })
    &&& forall|i: int|
        1 <= i < sizes.len() ==> (#[trigger] a[i] == a[i - 1] || a[i] == a[i - 1] + 1)
    &&& forall|i: int|
        1 <= i < sizes.len() ==> (#[trigger] a[i] == a[i - 1] + 1 <==> (a[i - 1] + 1 < workers
            && load_before(sizes, a, a[i - 1] as nat, i as nat) >= target))
}

/// Handing tiles out fills the workers in turn (see [`fills_in_turn`]), and the worker
/// being filled holds the triangles of its own tiles.
pub proof fn lemma_handout_fills_in_turn(sizes: Seq<usize>, workers: nat, target: nat)
    requires
        0 < workers <= usize::MAX,
    ensures
        fills_in_turn(sizes, handout(sizes, workers, target).workers, workers, target),
        handout(sizes, workers, target).count == load_before(
            sizes,
            handout(sizes, workers, target).workers,
            handout(sizes, workers, target).current,
            sizes.len(),
        ),
{
    lemma_handout_ordered(sizes, workers, target);
    lemma_handout_count(sizes, workers, target);
    let a = handout(sizes, workers, target).workers;
    if sizes.len() > 0 {
        lemma_handout_prefix(sizes, workers, target, 1);
        let first = sizes.take(1);
        assert(first.drop_last() =~= Seq::<usize>::empty());
        let h0 = handout(first.drop_last(), workers, target);
        assert(h0.current == 0 && h0.count == 0 && h0.workers.len() == 0);
        assert(handout(first, workers, target).workers[0] == (if 1 < workers && target == 0 {
            1nat
        } else {
            0nat
        }));
        assert(a.take(1)[0] == a[0]);
    }
    assert forall|i: int| 1 <= i < sizes.len() implies (#[trigger] a[i] == a[i - 1] || a[i] == a[i - 1] + 1)
        && (a[i] == a[i - 1] + 1 <==> (a[i - 1] + 1 < workers && load_before(sizes, a, a[i - 1] as nat, i as nat) >= target)) by {
        let q = sizes.take(i + 1);
        lemma_handout_prefix(sizes, workers, target, i + 1);
        lemma_handout_last_step(q, workers, target);
        let b = handout(q, workers, target).workers;
        assert(b[i] == a[i] && b[i - 1] == a[i - 1]);
        lemma_load_prefix(q, b, sizes, a, a[i - 1] as nat, i as nat);
    }
}

} // verus!
