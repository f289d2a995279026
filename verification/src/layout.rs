//! Flow packing for the widget grid: given each widget's cell footprint and a
//! column count, assign every widget a `(col, row)` grid position by scanning
//! left-to-right, top-to-bottom for the first free slot that fits. Order is
//! preserved, so resizing the window only changes the column count and
//! reflows.

use vstd::prelude::*;

verus! {

/// The column count actually used: at least one column.
pub open spec fn grid_cols(columns: int) -> int {
    if columns < 1 { 1 } else { columns }
}

/// A footprint's width in cells, clamped to `1..=cols`.
pub open spec fn eff_w(w: u8, cols: int) -> int {
    if w < 1 { 1 } else if w > cols { cols } else { w as int }
}

/// A footprint's height in cells, at least one.
pub open spec fn eff_h(h: u8) -> int {
    if h < 1 { 1 } else { h as int }
}

/// Whether the rectangle with top-left `(col, row)` and size `w` x `h`
/// covers the cell `(c, r)`.
pub open spec fn covers(col: int, row: int, w: int, h: int, c: int, r: int) -> bool {
    col <= c < col + w && row <= r < row + h
}

/// Whether one of the first `n` placements covers cell `(c, r)`.
pub open spec fn taken(
    fps: Seq<(u8, u8)>,
    places: Seq<(usize, usize)>,
    cols: int,
    n: int,
    c: int,
    r: int,
) -> bool {
    exists|i: int|
        0 <= i < n && #[trigger] covers(
            places[i].0 as int,
            places[i].1 as int,
            eff_w(fps[i].0, cols),
            eff_h(fps[i].1),
            c,
            r,
        )
}

/// Whether every cell of the `w` x `h` rectangle at `(col, row)` is free of
/// the first `n` placements.
pub open spec fn slot_free(
    fps: Seq<(u8, u8)>,
    places: Seq<(usize, usize)>,
    cols: int,
    n: int,
    col: int,
    row: int,
    w: int,
    h: int,
) -> bool {
    forall|c: int, r: int|
        col <= c < col + w && row <= r < row + h ==> !#[trigger] taken(fps, places, cols, n, c, r)
}

/// Reading order: `(c1, r1)` comes strictly before `(c2, r2)`.
pub open spec fn before(c1: int, r1: int, c2: int, r2: int) -> bool {
    r1 < r2 || (r1 == r2 && c1 < c2)
}

/// Whether the rectangle at `(col, row)` of width `w` stays inside the grid.
pub open spec fn in_grid(col: int, row: int, w: int, cols: int) -> bool {
    0 <= col && col + w <= cols && 0 <= row
}

/// Placement `i` is the first slot, in reading order, where footprint `i`
/// fits inside the grid without overlapping any earlier placement.
pub open spec fn is_first_fit(
    fps: Seq<(u8, u8)>,
    places: Seq<(usize, usize)>,
    cols: int,
    i: int,
) -> bool {
    let w = eff_w(fps[i].0, cols);
    let h = eff_h(fps[i].1);
    let col = places[i].0 as int;
    let row = places[i].1 as int;
    &&& in_grid(col, row, w, cols)
    &&& slot_free(fps, places, cols, i, col, row, w, h)
    &&& forall|c: int, r: int|
        #![trigger slot_free(fps, places, cols, i, c, r, w, h)]
        in_grid(c, r, w, cols) && before(c, r, col, row) ==> !slot_free(
            fps,
            places,
            cols,
            i,
            c,
            r,
            w,
            h,
        )
}

/// `places` is the flow packing of `fps` into `columns` columns: one
/// placement per footprint, each the first fit given the ones before it.
pub open spec fn packed(fps: Seq<(u8, u8)>, columns: int, places: Seq<(usize, usize)>) -> bool {
    &&& places.len() == fps.len()
    &&& forall|i: int| 0 <= i < fps.len() ==> #[trigger] is_first_fit(fps, places, grid_cols(columns), i)
}

/// The occupancy grid `occ` records exactly the cells covered by the first
/// `n` placements: rows past its end are entirely free.
pub open spec fn occ_ok(
    occ: Seq<Vec<bool>>,
    fps: Seq<(u8, u8)>,
    places: Seq<(usize, usize)>,
    cols: int,
    n: int,
) -> bool {
    &&& forall|r: int| 0 <= r < occ.len() ==> (#[trigger] occ[r])@.len() == cols
    &&& forall|r: int, c: int|
        0 <= r < occ.len() && 0 <= c < cols ==> (#[trigger] occ[r]@[c]) == taken(
            fps,
            places,
            cols,
            n,
            c,
            r,
        )
    &&& forall|r: int, c: int| #![trigger taken(fps, places, cols, n, c, r)]
        (r >= occ.len() || c < 0 || c >= cols) ==> !taken(fps, places, cols, n, c, r)
}

/// Whether the `w` x `h` rectangle at `(col, row)` is free in `occ`. Rows
/// beyond the current occupancy are entirely free.
fn fits(occ: &Vec<Vec<bool>>, col: usize, row: usize, w: usize, h: usize) -> (res: bool)
    requires
        forall|r: int| row <= r < row + h && r < occ@.len() ==> col + w <= (#[trigger] occ@[r])@.len(),
        row + h <= usize::MAX,
        col + w <= usize::MAX,
    ensures
        res == (forall|c: int, r: int|
            col <= c < col + w && row <= r < row + h && r < occ@.len() ==> !(#[trigger] occ@[r]@[c])),
{
    let mut r = row;
    while r < row + h
        invariant
            row <= r <= row + h,
            row + h <= usize::MAX,
            col + w <= usize::MAX,
            forall|q: int| row <= q < row + h && q < occ@.len() ==> col + w <= (#[trigger] occ@[q])@.len(),
            forall|c: int, q: int|
                col <= c < col + w && row <= q < r && q < occ@.len() ==> !(#[trigger] occ@[q]@[c]),
        decreases row + h - r,
    {
        // Rows beyond the current occupancy are entirely free.
        if r >= occ.len() {
            r += 1;
            continue;
        }
        let mut c = col;
        while c < col + w
            invariant
                row <= r < row + h,
                r < occ@.len(),
                col <= c <= col + w,
                col + w <= occ@[r as int]@.len(),
                col + w <= usize::MAX,
                forall|d: int| col <= d < c ==> !(#[trigger] occ@[r as int]@[d]),
            decreases col + w - c,
        {
            if occ[r][c] {
                return false;
            }
            c += 1;
        }
        r += 1;
    }
    true
}


/// With an accurate occupancy grid, `fits` answers exactly whether the slot
/// is free of earlier placements.
proof fn lemma_fits_iff_free(
    occ: Seq<Vec<bool>>,
    fps: Seq<(u8, u8)>,
    places: Seq<(usize, usize)>,
    cols: int,
    n: int,
    col: int,
    row: int,
    w: int,
    h: int,
)
    requires
        occ_ok(occ, fps, places, cols, n),
        0 <= col,
        col + w <= cols,
        0 <= row,
    ensures
        slot_free(fps, places, cols, n, col, row, w, h) == (forall|c: int, r: int|
            col <= c < col + w && row <= r < row + h && r < occ.len() ==> !(#[trigger] occ[r]@[c])),
{
    if slot_free(fps, places, cols, n, col, row, w, h) {
        assert forall|c: int, r: int|
            col <= c < col + w && row <= r < row + h && r < occ.len() implies !(#[trigger] occ[r]@[c]) by {
            assert(!taken(fps, places, cols, n, c, r));
        }
    } else {
        let (c, r) = choose|c: int, r: int|
            col <= c < col + w && row <= r < row + h && taken(fps, places, cols, n, c, r);
        assert(r < occ.len());
        assert(occ[r]@[c]);
    }
}

/// The first slot, in reading order, where a `w` x `h` footprint fits.
fn first_free_slot(
    occ: &Vec<Vec<bool>>,
    columns: usize,
    w: usize,
    h: usize,
    Ghost(fps): Ghost<Seq<(u8, u8)>>,
    Ghost(places): Ghost<Seq<(usize, usize)>>,
    Ghost(n): Ghost<int>,
) -> (res: (usize, usize))
    requires
        occ_ok(occ@, fps, places, columns as int, n),
        1 <= w <= columns,
        1 <= h,
        occ@.len() + h <= usize::MAX,
    ensures
        res.1 <= occ@.len(),
        in_grid(res.0 as int, res.1 as int, w as int, columns as int),
        slot_free(fps, places, columns as int, n, res.0 as int, res.1 as int, w as int, h as int),
        forall|c: int, r: int|
            #![trigger slot_free(fps, places, columns as int, n, c, r, w as int, h as int)]
            in_grid(c, r, w as int, columns as int) && before(c, r, res.0 as int, res.1 as int)
                ==> !slot_free(fps, places, columns as int, n, c, r, w as int, h as int),
{
    let ghost cols = columns as int;
    let mut row: usize = 0;
    loop
        invariant
            row <= occ@.len(),
            occ_ok(occ@, fps, places, cols, n),
            cols == columns,
            1 <= w <= columns,
            1 <= h,
            occ@.len() + h <= usize::MAX,
            forall|c: int, r: int|
                #![trigger slot_free(fps, places, cols, n, c, r, w as int, h as int)]
                in_grid(c, r, w as int, cols) && r < row ==> !slot_free(
                    fps,
                    places,
                    cols,
                    n,
                    c,
                    r,
                    w as int,
                    h as int,
                ),
        decreases occ@.len() - row,
    {
        let mut col: usize = 0;
        while col <= columns - w
            invariant
                row <= occ@.len(),
                occ_ok(occ@, fps, places, cols, n),
                cols == columns,
                1 <= w <= columns,
                1 <= h,
                occ@.len() + h <= usize::MAX,
                col <= columns - w + 1,
                forall|c: int, r: int|
                    #![trigger slot_free(fps, places, cols, n, c, r, w as int, h as int)]
                    in_grid(c, r, w as int, cols) && r < row ==> !slot_free(
                        fps,
                        places,
                        cols,
                        n,
                        c,
                        r,
                        w as int,
                        h as int,
                    ),
                forall|c: int|
                    #![trigger slot_free(fps, places, cols, n, c, row as int, w as int, h as int)]
                    0 <= c < col ==> !slot_free(fps, places, cols, n, c, row as int, w as int, h as int),
            decreases columns - w + 1 - col,
        {
            proof {
                lemma_fits_iff_free(occ@, fps, places, cols, n, col as int, row as int, w as int, h as int);
            }
            if fits(occ, col, row, w, h) {
                return (col, row);
            }
            col += 1;
        }
        proof {
            assert(!slot_free(fps, places, cols, n, 0, row as int, w as int, h as int));
            if row == occ@.len() {
                assert forall|c: int, r: int|
                    0 <= c < w && row <= r < row + h implies !#[trigger] taken(fps, places, cols, n, c, r) by {
                }
                assert(false);
            }
        }
        row += 1;
    }
}


/// Appending a placement does not change what the first `n` placements cover.
proof fn lemma_taken_extend(
    fps: Seq<(u8, u8)>,
    places: Seq<(usize, usize)>,
    x: (usize, usize),
    cols: int,
    n: int,
    c: int,
    r: int,
)
    requires
        0 <= n <= places.len(),
    ensures
        taken(fps, places, cols, n, c, r) == taken(fps, places.push(x), cols, n, c, r),
{
    if taken(fps, places, cols, n, c, r) {
        let i = choose|i: int|
            0 <= i < n && #[trigger] covers(
                places[i].0 as int,
                places[i].1 as int,
                eff_w(fps[i].0, cols),
                eff_h(fps[i].1),
                c,
                r,
            );
        assert(places.push(x)[i] == places[i]);
    }
    if taken(fps, places.push(x), cols, n, c, r) {
        let i = choose|i: int|
            0 <= i < n && #[trigger] covers(
                places.push(x)[i].0 as int,
                places.push(x)[i].1 as int,
                eff_w(fps[i].0, cols),
                eff_h(fps[i].1),
                c,
                r,
            );
        assert(places.push(x)[i] == places[i]);
    }
}

/// Two placement lists whose first `n` placements cover the same cells leave
/// the same slots free.
proof fn lemma_slot_free_agree(
    fps1: Seq<(u8, u8)>,
    p1: Seq<(usize, usize)>,
    fps2: Seq<(u8, u8)>,
    p2: Seq<(usize, usize)>,
    cols: int,
    n: int,
    w: int,
    h: int,
)
    requires
        forall|c: int, r: int| #[trigger] taken(fps1, p1, cols, n, c, r) == taken(fps2, p2, cols, n, c, r),
    ensures
        forall|c: int, r: int|
            #[trigger] slot_free(fps1, p1, cols, n, c, r, w, h) == slot_free(fps2, p2, cols, n, c, r, w, h),
{
    assert forall|c: int, r: int|
        #[trigger] slot_free(fps1, p1, cols, n, c, r, w, h) == slot_free(fps2, p2, cols, n, c, r, w, h) by {
        if slot_free(fps1, p1, cols, n, c, r, w, h) {
            assert forall|c2: int, r2: int| c <= c2 < c + w && r <= r2 < r + h implies !#[trigger] taken(fps2, p2, cols, n, c2, r2) by {
                assert(!taken(fps1, p1, cols, n, c2, r2));
            }
        }
        if slot_free(fps2, p2, cols, n, c, r, w, h) {
            assert forall|c2: int, r2: int| c <= c2 < c + w && r <= r2 < r + h implies !#[trigger] taken(fps1, p1, cols, n, c2, r2) by {
                assert(!taken(fps2, p2, cols, n, c2, r2));
            }
        }
    }
}

/// Appending a placement keeps every earlier placement a first fit.
proof fn lemma_first_fit_extend(
    fps: Seq<(u8, u8)>,
    places: Seq<(usize, usize)>,
    x: (usize, usize),
    cols: int,
    j: int,
)
    requires
        0 <= j < places.len(),
        is_first_fit(fps, places, cols, j),
    ensures
        is_first_fit(fps, places.push(x), cols, j),
{
    let w = eff_w(fps[j].0, cols);
    let h = eff_h(fps[j].1);
    let p2 = places.push(x);
    assert(p2[j] == places[j]);
    assert forall|c: int, r: int| #[trigger] taken(fps, p2, cols, j, c, r) == taken(fps, places, cols, j, c, r) by {
        lemma_taken_extend(fps, places, x, cols, j, c, r);
    }
    lemma_slot_free_agree(fps, p2, fps, places, cols, j, w, h);
}

/// The cells covered by `n + 1` placements are those of the first `n` plus
/// the rectangle of the last.
proof fn lemma_taken_step(
    fps: Seq<(u8, u8)>,
    places: Seq<(usize, usize)>,
    x: (usize, usize),
    cols: int,
    c: int,
    r: int,
)
    requires
        places.len() < fps.len(),
    ensures
        taken(fps, places.push(x), cols, places.len() + 1int, c, r) == (taken(
            fps,
            places,
            cols,
            places.len() as int,
            c,
            r,
        ) || covers(
            x.0 as int,
            x.1 as int,
            eff_w(fps[places.len() as int].0, cols),
            eff_h(fps[places.len() as int].1),
            c,
            r,
        )),
{
    let n = places.len() as int;
    let p2 = places.push(x);
    lemma_taken_extend(fps, places, x, cols, n, c, r);
    if covers(x.0 as int, x.1 as int, eff_w(fps[n].0, cols), eff_h(fps[n].1), c, r) {
        assert(p2[n] == x);
        assert(covers(p2[n].0 as int, p2[n].1 as int, eff_w(fps[n].0, cols), eff_h(fps[n].1), c, r));
    }
    if taken(fps, p2, cols, n + 1, c, r) {
        let i = choose|i: int|
            0 <= i < n + 1 && #[trigger] covers(
                p2[i].0 as int,
                p2[i].1 as int,
                eff_w(fps[i].0, cols),
                eff_h(fps[i].1),
                c,
                r,
            );
        if i < n {
            assert(taken(fps, p2, cols, n, c, r));
        }
    }
    if taken(fps, p2, cols, n, c, r) {
        let i = choose|i: int|
            0 <= i < n && #[trigger] covers(
                p2[i].0 as int,
                p2[i].1 as int,
                eff_w(fps[i].0, cols),
                eff_h(fps[i].1),
                c,
                r,
            );
        assert(covers(p2[i].0 as int, p2[i].1 as int, eff_w(fps[i].0, cols), eff_h(fps[i].1), c, r));
    }
}

/// Place `footprints` (each `(width, height)` in cells) into `columns`
/// columns. Returns one `(col, row)` per input, in the same order: each
/// footprint goes to the first slot, scanning left-to-right then
/// top-to-bottom, where it fits without overlapping an earlier one. A
/// footprint wider than the grid is clamped to the column count; zero
/// widths, heights and column counts count as one.
pub fn pack(footprints: &[(u8, u8)], columns: usize) -> (out: Vec<(usize, usize)>)
    requires
        footprints@.len() <= usize::MAX / 256,
    ensures
        packed(footprints@, columns as int, out@),
{
    let ghost fps = footprints@;
    let columns = columns.max(1);
    let ghost cols = columns as int;
    // Occupancy grid; rows are appended lazily as widgets need them.
    let mut occ: Vec<Vec<bool>> = Vec::new();
    let mut out: Vec<(usize, usize)> = Vec::with_capacity(footprints.len());

    let mut i: usize = 0;
    while i < footprints.len()
        invariant
            fps == footprints@,
            fps.len() <= usize::MAX / 256,
            cols == columns,
            1 <= columns,
            i <= fps.len(),
            out@.len() == i,
            occ@.len() <= 255 * i,
            occ_ok(occ@, fps, out@, cols, i as int),
            forall|j: int| 0 <= j < i ==> #[trigger] is_first_fit(fps, out@, cols, j),
        decreases fps.len() - i,
    {
        let (w, h) = footprints[i];
        // Clamp the width to `1..=columns`.
        let w = if (w as usize) < 1 {
            1
        } else if (w as usize) > columns {
            columns
        } else {
            w as usize
        };
        let h = (h as usize).max(1);
        assert(w == eff_w(fps[i as int].0, cols));
        assert(h == eff_h(fps[i as int].1));
        let (col, row) = first_free_slot(&occ, columns, w, h, Ghost(fps), Ghost(out@), Ghost(i as int));
        let ghost old_occ = occ@;
        assert(row + h <= 255 * (i + 1)) by {
            assert(row <= 255 * i);
        }
        assert(255 * (i + 1) <= usize::MAX) by {
            assert(i + 1 <= usize::MAX / 256);
        }

        // Grow the grid to cover the placed footprint.
        while occ.len() < row + h
            invariant
                old_occ.len() <= occ@.len(),
                row + h <= usize::MAX,
                occ@.len() <= row + h || occ@.len() == old_occ.len(),
                forall|r: int| 0 <= r < old_occ.len() ==> #[trigger] occ@[r] == old_occ[r],
                forall|r: int| old_occ.len() <= r < occ@.len() ==> (#[trigger] occ@[r])@ == Seq::new(cols as nat, |c: int| false),
                cols == columns,
            decreases row + h - occ@.len(),
        {
            let fresh = vec![false; columns];
            assert(fresh@ == Seq::new(cols as nat, |c: int| false));
            occ.push(fresh);
        }
        let ghost grown = occ@;
        assert(occ_ok(grown, fps, out@, cols, i as int)) by {
            assert forall|r: int, c: int| 0 <= r < grown.len() && 0 <= c < cols implies (#[trigger] grown[r]@[c]) == taken(fps, out@, cols, i as int, c, r) by {
                if r >= old_occ.len() {
                    assert(!taken(fps, out@, cols, i as int, c, r));
                }
            }
        }

        let mut r = row;
        while r < row + h
            invariant
                row <= r <= row + h,
                row + h <= occ@.len(),
                row + h <= usize::MAX,
                col + w <= cols,
                cols == columns,
                occ@.len() == grown.len(),
                forall|q: int| 0 <= q < occ@.len() ==> (#[trigger] occ@[q])@.len() == cols,
                forall|q: int, c: int|
                    0 <= q < occ@.len() && 0 <= c < cols ==> (#[trigger] occ@[q]@[c]) == (grown[q]@[c] || (row <= q < r && col <= c < col + w)),
            decreases row + h - r,
        {
            let mut c = col;
            while c < col + w
                invariant
                    row <= r < row + h,
                    row + h <= occ@.len(),
                    col <= c <= col + w,
                    col + w <= cols,
                    cols == columns,
                    occ@.len() == grown.len(),
                    forall|q: int| 0 <= q < occ@.len() ==> (#[trigger] occ@[q])@.len() == cols,
                    forall|q: int, d: int|
                        0 <= q < occ@.len() && 0 <= d < cols ==> (#[trigger] occ@[q]@[d]) == (grown[q]@[d] || (row <= q < r && col <= d < col + w) || (q == r && col <= d < c)),
                decreases col + w - c,
            {
                occ[r][c] = true;
                c += 1;
            }
            r += 1;
        }
        let ghost x = (col, row);
        let ghost prev = out@;
        out.push((col, row));
        proof {
            assert(out@ == prev.push(x));
            assert forall|q: int, d: int| #![trigger taken(fps, out@, cols, i + 1, d, q)] true implies
                taken(fps, out@, cols, i + 1, d, q) == (taken(fps, prev, cols, i as int, d, q) || covers(col as int, row as int, w as int, h as int, d, q)) by {
                lemma_taken_step(fps, prev, x, cols, d, q);
            }
            assert forall|j: int| 0 <= j < i + 1 implies #[trigger] is_first_fit(fps, out@, cols, j) by {
                if j < i {
                    lemma_first_fit_extend(fps, prev, x, cols, j);
                } else {
                    assert forall|d: int, q: int| #[trigger] taken(fps, out@, cols, i as int, d, q) == taken(fps, prev, cols, i as int, d, q) by {
                        lemma_taken_extend(fps, prev, x, cols, i as int, d, q);
                    }
                    assert(out@[j] == x);
                    lemma_slot_free_agree(fps, out@, fps, prev, cols, j, w as int, h as int);
                    assert(slot_free(fps, out@, cols, j, col as int, row as int, w as int, h as int));
                    assert forall|d: int, q: int|
                        #![trigger slot_free(fps, out@, cols, j, d, q, w as int, h as int)]
                        in_grid(d, q, w as int, cols) && before(d, q, col as int, row as int) implies !slot_free(fps, out@, cols, j, d, q, w as int, h as int) by {
                        assert(!slot_free(fps, prev, cols, i as int, d, q, w as int, h as int));
                    }
                }
            }
        }
        i += 1;
    }
    out
}


/// The number of grid rows a packing occupies: the largest `row + height`
/// over the placements paired with their footprints (pairs beyond the
/// shorter list are ignored), where a zero height counts as one, as in
/// `pack`. Zero when there are none.
pub fn row_count(placements: &[(usize, usize)], footprints: &[(u8, u8)]) -> (res: usize)
    requires
        forall|i: int|
            0 <= i < placements@.len() && i < footprints@.len() ==> (#[trigger] placements@[i]).1
                + eff_h(footprints@[i].1) <= usize::MAX,
    ensures
        forall|i: int|
            0 <= i < placements@.len() && i < footprints@.len() ==> (#[trigger] placements@[i]).1
                + eff_h(footprints@[i].1) <= res,
        res == 0 || exists|i: int|
            0 <= i < placements@.len() && i < footprints@.len() && res == (#[trigger] placements@[i]).1
                + eff_h(footprints@[i].1),
{
    let n = if placements.len() < footprints.len() {
        placements.len()
    } else {
        footprints.len()
    };
    let mut best: usize = 0;
    let mut i: usize = 0;
    while i < n
        invariant
            n <= placements@.len(),
            n <= footprints@.len(),
            n == placements@.len() || n == footprints@.len(),
            i <= n,
            forall|k: int|
                0 <= k < placements@.len() && k < footprints@.len() ==> (#[trigger] placements@[k]).1
                    + eff_h(footprints@[k].1) <= usize::MAX,
            forall|k: int| 0 <= k < i ==> (#[trigger] placements@[k]).1 + eff_h(footprints@[k].1) <= best,
            best == 0 || exists|k: int|
                0 <= k < i && best == (#[trigger] placements@[k]).1 + eff_h(footprints@[k].1),
        decreases n - i,
    {
        let (_, row) = placements[i];
        let (_, h) = footprints[i];
        let h = (h as usize).max(1);
        assert(h == eff_h(footprints@[i as int].1));
        let bottom = row + h;
        if bottom > best {
            best = bottom;
        }
        i += 1;
    }
    best
}

/// No two placements of a packing share a cell.
pub proof fn lemma_packed_disjoint(
    fps: Seq<(u8, u8)>,
    columns: int,
    places: Seq<(usize, usize)>,
    i: int,
    j: int,
    c: int,
    r: int,
)
    requires
        packed(fps, columns, places),
        0 <= i < j < fps.len(),
    ensures
        !(covers(
            places[i].0 as int,
            places[i].1 as int,
            eff_w(fps[i].0, grid_cols(columns)),
            eff_h(fps[i].1),
            c,
            r,
        ) && covers(
            places[j].0 as int,
            places[j].1 as int,
            eff_w(fps[j].0, grid_cols(columns)),
            eff_h(fps[j].1),
            c,
            r,
        )),
{
    let cols = grid_cols(columns);
    assert(is_first_fit(fps, places, cols, j));
    if covers(places[i].0 as int, places[i].1 as int, eff_w(fps[i].0, cols), eff_h(fps[i].1), c, r) {
        assert(taken(fps, places, cols, j, c, r));
    }
}

/// Every placement of a packing lies inside the grid's columns.
pub proof fn lemma_packed_in_grid(fps: Seq<(u8, u8)>, columns: int, places: Seq<(usize, usize)>, i: int)
    requires
        packed(fps, columns, places),
        0 <= i < fps.len(),
    ensures
        places[i].0 + eff_w(fps[i].0, grid_cols(columns)) <= grid_cols(columns),
{
    assert(is_first_fit(fps, places, grid_cols(columns), i));
}

/// What the first `n` placements cover depends only on those placements.
proof fn lemma_taken_same_prefix(
    fps: Seq<(u8, u8)>,
    p1: Seq<(usize, usize)>,
    p2: Seq<(usize, usize)>,
    cols: int,
    n: int,
)
    requires
        0 <= n <= p1.len(),
        n <= p2.len(),
        forall|k: int| 0 <= k < n ==> p1[k] == p2[k],
    ensures
        forall|c: int, r: int| #[trigger] taken(fps, p1, cols, n, c, r) == taken(fps, p2, cols, n, c, r),
{
    assert forall|c: int, r: int| #[trigger] taken(fps, p1, cols, n, c, r) == taken(fps, p2, cols, n, c, r) by {
        if taken(fps, p1, cols, n, c, r) {
            let k = choose|k: int|
                0 <= k < n && #[trigger] covers(
                    p1[k].0 as int,
                    p1[k].1 as int,
                    eff_w(fps[k].0, cols),
                    eff_h(fps[k].1),
                    c,
                    r,
                );
            assert(covers(p2[k].0 as int, p2[k].1 as int, eff_w(fps[k].0, cols), eff_h(fps[k].1), c, r));
        }
        if taken(fps, p2, cols, n, c, r) {
            let k = choose|k: int|
                0 <= k < n && #[trigger] covers(
                    p2[k].0 as int,
                    p2[k].1 as int,
                    eff_w(fps[k].0, cols),
                    eff_h(fps[k].1),
                    c,
                    r,
                );
            assert(covers(p1[k].0 as int, p1[k].1 as int, eff_w(fps[k].0, cols), eff_h(fps[k].1), c, r));
        }
    }
}

/// Two packings of the same input agree on their first `k` placements.
proof fn lemma_packed_agree_upto(
    fps: Seq<(u8, u8)>,
    columns: int,
    p1: Seq<(usize, usize)>,
    p2: Seq<(usize, usize)>,
    k: int,
)
    requires
        packed(fps, columns, p1),
        packed(fps, columns, p2),
        0 <= k <= fps.len(),
    ensures
        forall|q: int| 0 <= q < k ==> p1[q] == p2[q],
    decreases k,
{
    if k > 0 {
        let j = k - 1;
        lemma_packed_agree_upto(fps, columns, p1, p2, j);
        let cols = grid_cols(columns);
        lemma_taken_same_prefix(fps, p1, p2, cols, j);
        assert(is_first_fit(fps, p1, cols, j));
        assert(is_first_fit(fps, p2, cols, j));
        let w = eff_w(fps[j].0, cols);
        let h = eff_h(fps[j].1);
        let c1 = p1[j].0 as int;
        let r1 = p1[j].1 as int;
        let c2 = p2[j].0 as int;
        let r2 = p2[j].1 as int;
        lemma_slot_free_agree(fps, p1, fps, p2, cols, j, w, h);
        if before(c1, r1, c2, r2) {
            assert(slot_free(fps, p2, cols, j, c1, r1, w, h));
            assert(false);
        } else if before(c2, r2, c1, r1) {
            assert(slot_free(fps, p1, cols, j, c2, r2, w, h));
            assert(false);
        }
        assert(p1[j] == p2[j]);
    }
}

/// A packing is determined by its footprints and column count: any two
/// packings of the same input are equal.
pub proof fn lemma_packed_unique(
    fps: Seq<(u8, u8)>,
    columns: int,
    p1: Seq<(usize, usize)>,
    p2: Seq<(usize, usize)>,
)
    requires
        packed(fps, columns, p1),
        packed(fps, columns, p2),
    ensures
        p1 == p2,
{
    lemma_packed_agree_upto(fps, columns, p1, p2, fps.len() as int);
    assert(p1 =~= p2);
}

/// Appending widgets never moves earlier ones: the packing of a prefix of the
/// footprints is the same prefix of the packing.
pub proof fn lemma_packed_prefix(fps: Seq<(u8, u8)>, columns: int, places: Seq<(usize, usize)>, k: int)
    requires
        packed(fps, columns, places),
        0 <= k <= fps.len(),
    ensures
        packed(fps.take(k), columns, places.take(k)),
{
    let cols = grid_cols(columns);
    let f2 = fps.take(k);
    let p2 = places.take(k);
    assert forall|i: int| 0 <= i < f2.len() implies #[trigger] is_first_fit(f2, p2, cols, i) by {
        assert(is_first_fit(fps, places, cols, i));
        assert forall|c: int, r: int| #[trigger] taken(f2, p2, cols, i, c, r) == taken(fps, places, cols, i, c, r) by {
            if taken(f2, p2, cols, i, c, r) {
                let q = choose|q: int|
                    0 <= q < i && #[trigger] covers(
                        p2[q].0 as int,
                        p2[q].1 as int,
                        eff_w(f2[q].0, cols),
                        eff_h(f2[q].1),
                        c,
                        r,
                    );
                assert(covers(places[q].0 as int, places[q].1 as int, eff_w(fps[q].0, cols), eff_h(fps[q].1), c, r));
            }
            if taken(fps, places, cols, i, c, r) {
                let q = choose|q: int|
                    0 <= q < i && #[trigger] covers(
                        places[q].0 as int,
                        places[q].1 as int,
                        eff_w(fps[q].0, cols),
                        eff_h(fps[q].1),
                        c,
                        r,
                    );
                assert(covers(p2[q].0 as int, p2[q].1 as int, eff_w(f2[q].0, cols), eff_h(f2[q].1), c, r));
            }
        }
        lemma_slot_free_agree(f2, p2, fps, places, cols, i, eff_w(fps[i].0, cols), eff_h(fps[i].1));
    }
}

/// Each footprint with its width clamped to `1..=cols` and its height raised
/// to at least one.
pub open spec fn clamped(fps: Seq<(u8, u8)>, cols: int) -> Seq<(u8, u8)> {
    fps.map_values(|f: (u8, u8)| (eff_w(f.0, cols) as u8, eff_h(f.1) as u8))
}

/// Packing normalises its input: zero columns act as one, a zero width as
/// one, a width above the column count as the column count, and a zero
/// height as one. A packing of the raw footprints is exactly a packing of the
/// clamped footprints into the clamped column count.
pub proof fn lemma_packed_normalised(fps: Seq<(u8, u8)>, columns: int, places: Seq<(usize, usize)>)
    ensures
        packed(fps, columns, places) <==> packed(
            clamped(fps, grid_cols(columns)),
            grid_cols(columns),
            places,
        ),
{
    let cols = grid_cols(columns);
    let f2 = clamped(fps, cols);
    assert(grid_cols(cols) == cols);
    assert forall|i: int| 0 <= i < fps.len() implies eff_w(#[trigger] f2[i].0, cols) == eff_w(fps[i].0, cols)
        && eff_h(f2[i].1) == eff_h(fps[i].1) by {
        assert(eff_w(fps[i].0, cols) <= 255);
    }
    assert forall|n: int, c: int, r: int| 0 <= n <= fps.len() implies #[trigger] taken(f2, places, cols, n, c, r)
        == taken(fps, places, cols, n, c, r) by {
        if taken(f2, places, cols, n, c, r) {
            let q = choose|q: int|
                0 <= q < n && #[trigger] covers(
                    places[q].0 as int,
                    places[q].1 as int,
                    eff_w(f2[q].0, cols),
                    eff_h(f2[q].1),
                    c,
                    r,
                );
            assert(eff_w(f2[q].0, cols) == eff_w(fps[q].0, cols));
            assert(covers(places[q].0 as int, places[q].1 as int, eff_w(fps[q].0, cols), eff_h(fps[q].1), c, r));
        }
        if taken(fps, places, cols, n, c, r) {
            let q = choose|q: int|
                0 <= q < n && #[trigger] covers(
                    places[q].0 as int,
                    places[q].1 as int,
                    eff_w(fps[q].0, cols),
                    eff_h(fps[q].1),
                    c,
                    r,
                );
            assert(eff_w(f2[q].0, cols) == eff_w(fps[q].0, cols));
            assert(covers(places[q].0 as int, places[q].1 as int, eff_w(f2[q].0, cols), eff_h(f2[q].1), c, r));
        }
    }
    assert forall|i: int| 0 <= i < fps.len() implies #[trigger] is_first_fit(f2, places, cols, i)
        == is_first_fit(fps, places, cols, i) by {
        assert(eff_w(f2[i].0, cols) == eff_w(fps[i].0, cols));
        assert forall|c: int, r: int| #[trigger] taken(f2, places, cols, i, c, r) == taken(fps, places, cols, i, c, r) by {
        }
        let w = eff_w(fps[i].0, cols);
        let h = eff_h(fps[i].1);
        lemma_slot_free_agree(f2, places, fps, places, cols, i, w, h);
        if is_first_fit(fps, places, cols, i) {
            assert forall|c: int, r: int|
                #![trigger slot_free(f2, places, cols, i, c, r, w, h)]
                in_grid(c, r, w, cols) && before(c, r, places[i].0 as int, places[i].1 as int)
                    implies !slot_free(f2, places, cols, i, c, r, w, h) by {
                assert(!slot_free(fps, places, cols, i, c, r, w, h));
            }
        }
        if is_first_fit(f2, places, cols, i) {
            assert forall|c: int, r: int|
                #![trigger slot_free(fps, places, cols, i, c, r, w, h)]
                in_grid(c, r, w, cols) && before(c, r, places[i].0 as int, places[i].1 as int)
                    implies !slot_free(fps, places, cols, i, c, r, w, h) by {
                assert(!slot_free(f2, places, cols, i, c, r, w, h));
            }
        }
    }
    if packed(fps, columns, places) {
        assert forall|i: int| 0 <= i < f2.len() implies #[trigger] is_first_fit(f2, places, grid_cols(cols), i) by {
            assert(is_first_fit(fps, places, cols, i));
        }
    }
    if packed(f2, cols, places) {
        assert forall|i: int| 0 <= i < fps.len() implies #[trigger] is_first_fit(fps, places, cols, i) by {
            assert(is_first_fit(f2, places, grid_cols(cols), i));
        }
    }
}

} // verus!
