//! The dashboard's printed code glyphs: a grid of rows in which `#`
//! marks an occupied module. Each occupied module is drawn as a square
//! of four path segments: which cells are occupied, in the order they
//! are drawn, and how long the path is, are counted here; where each
//! square lands on the page is the program's.

use vstd::prelude::*;
use vstd::utf8::encode_utf8;

verus! {

/// How many `#` bytes a row holds.
pub open spec fn hashes(bytes: Seq<u8>) -> nat
    decreases bytes.len(),
{
    if bytes.len() == 0 {
        0
    } else {
        (if bytes.last() == 0x23 { 1nat } else { 0nat }) + hashes(bytes.drop_last())
    }
}

/// How many `#` bytes the rows hold together.
pub open spec fn grid_hashes(rows: Seq<&str>) -> nat
    decreases rows.len(),
{
    if rows.len() == 0 {
        0
    } else {
        grid_hashes(rows.drop_last()) + hashes(encode_utf8(rows.last()@))
    }
}

/// The number of path segments a glyph grid needs: four corners per
/// occupied module.
pub fn module_segments(rows: &[&str]) -> (n: usize)
    requires
        4 * grid_hashes(rows@) <= usize::MAX,
    ensures
        n == 4 * grid_hashes(rows@),
{
    let mut n: usize = 0;
    let mut r: usize = 0;
    while r < rows.len()
        invariant
            r <= rows@.len(),
            4 * grid_hashes(rows@) <= usize::MAX,
            n == 4 * grid_hashes(rows@.take(r as int)),
            grid_hashes(rows@.take(r as int)) <= grid_hashes(rows@),
        decreases rows@.len() - r,
    {
        let bytes = rows[r].as_bytes();
        let ghost before = rows@.take(r as int);
        let ghost after = rows@.take(r + 1);
        assert(after.drop_last() =~= before);
        proof {
            lemma_grid_prefix_bounded(rows@, r + 1);
        }
        let mut c: usize = 0;
        while c < bytes.len()
            invariant
                c <= bytes@.len(),
                bytes@ == encode_utf8(after.last()@),
                grid_hashes(after) == grid_hashes(before) + hashes(bytes@),
                grid_hashes(after) <= grid_hashes(rows@),
                4 * grid_hashes(rows@) <= usize::MAX,
                n == 4 * (grid_hashes(before) + hashes(bytes@.take(c as int))),
            decreases bytes@.len() - c,
        {
            assert(bytes@.take(c + 1).drop_last() =~= bytes@.take(c as int));
            proof {
                lemma_hashes_prefix_bounded(bytes@, c + 1);
            }
            if bytes[c] == 0x23 {
                n = n + 4;
            }
            c = c + 1;
        }
        assert(bytes@.take(bytes@.len() as int) =~= bytes@);
        r = r + 1;
    }
    assert(rows@.take(rows@.len() as int) =~= rows@);
    n
}

proof fn lemma_hashes_prefix_bounded(b: Seq<u8>, k: int)
    requires
        0 <= k <= b.len(),
    ensures
        hashes(b.take(k)) <= hashes(b),
    decreases b.len(),
{
    if k < b.len() {
        assert(b.drop_last().take(k) =~= b.take(k));
        lemma_hashes_prefix_bounded(b.drop_last(), k);
    } else {
        assert(b.take(k) =~= b);
    }
}

proof fn lemma_grid_prefix_bounded(rows: Seq<&str>, k: int)
    requires
        0 <= k <= rows.len(),
    ensures
        grid_hashes(rows.take(k)) <= grid_hashes(rows),
    decreases rows.len(),
{
    if k < rows.len() {
        assert(rows.drop_last().take(k) =~= rows.take(k));
        lemma_grid_prefix_bounded(rows.drop_last(), k);
    } else {
        assert(rows.take(k) =~= rows);
    }
}

/// The columns of a row's `#` bytes, left to right.
pub open spec fn hash_cols(bytes: Seq<u8>) -> Seq<int>
    decreases bytes.len(),
{
    if bytes.len() == 0 {
        seq![]
    } else {
        hash_cols(bytes.drop_last()) + if bytes.last() == 0x23 {
            seq![bytes.len() - 1]
        } else {
            seq![]
        }
    }
}

/// The occupied cells of a grid as (row, column), row by row and left
/// to right within a row: the order the squares are drawn in.
pub open spec fn grid_cells(rows: Seq<&str>) -> Seq<(int, int)>
    decreases rows.len(),
{
    if rows.len() == 0 {
        seq![]
    } else {
        let r = rows.len() - 1;
        grid_cells(rows.drop_last()) + hash_cols(encode_utf8(rows.last()@)).map_values(
            |c: int| (r, c),
        )
    }
}

/// A cell as integers.
pub open spec fn cell_view(p: (usize, usize)) -> (int, int) {
    (p.0 as int, p.1 as int)
}

/// The occupied cells of a glyph grid, in drawing order.
pub fn module_cells(rows: &[&str]) -> (cells: Vec<(usize, usize)>)
    ensures
        cells@.map_values(|p: (usize, usize)| cell_view(p)) == grid_cells(rows@),
{
    let mut cells: Vec<(usize, usize)> = Vec::new();
    let mut r: usize = 0;
    assert(rows@.take(0) =~= Seq::<&str>::empty());
    while r < rows.len()
        invariant
            r <= rows@.len(),
            cells@.map_values(|p: (usize, usize)| cell_view(p)) == grid_cells(rows@.take(r as int)),
        decreases rows@.len() - r,
    {
        let bytes = rows[r].as_bytes();
        let ghost before = rows@.take(r as int);
        let ghost after = rows@.take(r + 1);
        let ghost done = cells@.map_values(|p: (usize, usize)| cell_view(p));
        assert(after.drop_last() =~= before);
        assert(bytes@.take(0) =~= Seq::<u8>::empty());
        assert(hash_cols(bytes@.take(0)).map_values(|c: int| (r as int, c)) =~= Seq::<(int, int)>::empty());
        let mut c: usize = 0;
        while c < bytes.len()
            invariant
                c <= bytes@.len(),
                bytes@ == encode_utf8(after.last()@),
                cells@.map_values(|p: (usize, usize)| cell_view(p)) == done + hash_cols(
                    bytes@.take(c as int),
                ).map_values(|k: int| (r as int, k)),
            decreases bytes@.len() - c,
        {
            let ghost prev = cells@.map_values(|p: (usize, usize)| cell_view(p));
            assert(bytes@.take(c + 1).drop_last() =~= bytes@.take(c as int));
            assert(bytes@.take(c + 1).last() == bytes@[c as int]);
            if bytes[c] == 0x23 {
                cells.push((r, c));
                assert(cells@.map_values(|p: (usize, usize)| cell_view(p)) =~= prev + seq![(r as int, c as int)]);
            }
            assert(cells@.map_values(|p: (usize, usize)| cell_view(p)) =~= done + hash_cols(
                bytes@.take(c + 1),
            ).map_values(|k: int| (r as int, k)));
            c = c + 1;
        }
        assert(bytes@.take(bytes@.len() as int) =~= bytes@);
        assert(after.len() - 1 == r);
        r = r + 1;
    }
    assert(rows@.take(rows@.len() as int) =~= rows@);
    cells
}

proof fn lemma_cols_count(bytes: Seq<u8>)
    ensures
        hash_cols(bytes).len() == hashes(bytes),
    decreases bytes.len(),
{
    if bytes.len() > 0 {
        lemma_cols_count(bytes.drop_last());
    }
}

/// A glyph draws one square per `#`: the cells [`module_cells`] returns
/// are as many as the `#` bytes, so the path [`module_segments`] counts
/// has four segments for each of them.
pub proof fn law_four_segments_per_cell(rows: Seq<&str>)
    ensures
        grid_cells(rows).len() == grid_hashes(rows),
    decreases rows.len(),
{
    if rows.len() > 0 {
        law_four_segments_per_cell(rows.drop_last());
        lemma_cols_count(encode_utf8(rows.last()@));
    }
}

} // verus!
