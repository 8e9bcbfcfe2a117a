//! Splitting the image rows into contiguous, equal bands, one per worker.
//!
//! Rows are numbered upward from the bottom of the image (row 0 is the bottom
//! row), as the camera's vertical coordinate runs; the output buffer is row-major
//! with the top row first. Each band holds `height / workers` rows; the rows
//! left over by that division belong to no band and are never rendered.

use vstd::prelude::*;
use vstd::arithmetic::div_mod::{lemma_fundamental_div_mod, lemma_fundamental_div_mod_converse};

verus! {

/// Rows in each band.
pub open spec fn band_len(height: nat, workers: nat) -> nat {
    if workers == 0 { 0 } else { height / workers }
}

/// First row of a band.
pub open spec fn band_start(band: nat, height: nat, workers: nat) -> nat {
    band * band_len(height, workers)
}

/// One past the last row of a band.
pub open spec fn band_end(band: nat, height: nat, workers: nat) -> nat {
    band_start(band, height, workers) + band_len(height, workers)
}

/// Rows that some band renders: all of `[0, covered_rows)`.
pub open spec fn covered_rows(height: nat, workers: nat) -> nat {
    workers * band_len(height, workers)
}

/// Whether `row` lies in band `band`.
pub open spec fn in_band(row: nat, band: nat, height: nat, workers: nat) -> bool {
    &&& band < workers
    &&& band_start(band, height, workers) <= row
    &&& row < band_end(band, height, workers)
}

/// Buffer index of the pixel in column `x` and row `y` (rows counted from the bottom).
pub open spec fn pixel_index_of(x: nat, y: nat, width: nat, height: nat) -> nat {
    ((height - 1 - y) as nat) * width + x
}

/// Row (counted from the bottom) of the pixel at buffer index `i`.
pub open spec fn row_of_index(i: nat, width: nat, height: nat) -> nat {
    (height - 1 - i / width) as nat
}

/// Column of the pixel at buffer index `i`.
pub open spec fn col_of_index(i: nat, width: nat) -> nat {
    i % width
}

/// Buffer index of the `j`-th pixel that band `band` renders: a worker walks its
/// rows upward and each row left to right.
pub open spec fn band_target(band: nat, j: nat, width: nat, height: nat, workers: nat) -> nat {
    pixel_index_of(j % width, band_start(band, height, workers) + j / width, width, height)
}

/// Position, in the order its band renders them, of the pixel at buffer index `i`.
pub open spec fn local_of_index(i: nat, width: nat, height: nat, workers: nat) -> nat {
    let row = row_of_index(i, width, height);
    let band = row / band_len(height, workers);
    ((row - band_start(band, height, workers)) as nat) * width + col_of_index(i, width)
}

proof fn lemma_band_bounds(band: nat, height: nat, workers: nat)
    requires
        band < workers,
    ensures
        band_end(band, height, workers) <= covered_rows(height, workers),
        covered_rows(height, workers) <= height,
        height - covered_rows(height, workers) < workers,
{
    let len = band_len(height, workers);
    lemma_fundamental_div_mod(height as int, workers as int);
    assert(band * len + len <= workers * len) by (nonlinear_arith)
        requires band < workers;
    assert(workers * len == len * workers) by (nonlinear_arith);
}

/// The pixel at column `x`, row `y` sits at index `pixel_index_of(x, y)`, and
/// that index leads back to the same column and row.
pub proof fn lemma_pixel_index_inverse(x: nat, y: nat, width: nat, height: nat)
    requires
        x < width,
        y < height,
    ensures
        pixel_index_of(x, y, width, height) < width * height,
        row_of_index(pixel_index_of(x, y, width, height), width, height) == y,
        col_of_index(pixel_index_of(x, y, width, height), width) == x,
{
    let q = (height - 1 - y) as nat;
    let i = pixel_index_of(x, y, width, height);
    assert(i == q * width + x);
    lemma_fundamental_div_mod_converse(i as int, width as int, q as int, x as int);
    assert(q * width + x < width * height) by (nonlinear_arith)
        requires q < height, x < width;
}

/// Every buffer index is the index of the pixel at its own column and row.
pub proof fn lemma_index_pixel_inverse(i: nat, width: nat, height: nat)
    requires
        i < width * height,
    ensures
        i / width < height,
        row_of_index(i, width, height) < height,
        col_of_index(i, width) < width,
        pixel_index_of(col_of_index(i, width), row_of_index(i, width, height), width, height) == i,
{
    assert(width > 0) by (nonlinear_arith)
        requires i < width * height;
    lemma_fundamental_div_mod(i as int, width as int);
    assert(i / width < height) by (nonlinear_arith)
        requires i < width * height, width > 0, i == width * (i / width) + i % width, i % width >= 0;
    assert(width * (i / width) == (i / width) * width) by (nonlinear_arith);
}

/// Bands partition the covered rows: a covered row lies in exactly one band,
/// band `row / band_len`, and a row at or past `covered_rows` lies in none.
/// At most `workers - 1` rows are left uncovered.
pub proof fn lemma_rows_partition(row: nat, height: nat, workers: nat)
    requires
        workers > 0,
    ensures
        covered_rows(height, workers) <= height,
        height - covered_rows(height, workers) < workers,
        row < covered_rows(height, workers) ==> in_band(row, row / band_len(height, workers), height, workers),
        forall|b: nat| #[trigger] in_band(row, b, height, workers)
            ==> row < covered_rows(height, workers) && b == row / band_len(height, workers),
{
    let len = band_len(height, workers);
    lemma_band_bounds(0, height, workers);
    if row < covered_rows(height, workers) {
        assert(len > 0) by (nonlinear_arith)
            requires row < workers * len;
        lemma_fundamental_div_mod(row as int, len as int);
        let b = row / len;
        assert(b < workers) by (nonlinear_arith)
            requires row < workers * len, len > 0, row == len * b + row % len, row % len >= 0;
        assert(len * b == b * len) by (nonlinear_arith);
        assert(in_band(row, b, height, workers));
    }
    assert forall|b: nat| #[trigger] in_band(row, b, height, workers)
        implies row < covered_rows(height, workers) && b == row / len by {
        lemma_band_bounds(b, height, workers);
        lemma_fundamental_div_mod_converse(row as int, len as int, b as int, (row - b * len) as int);
    }
}

/// Bands write disjoint sets of buffer indices, and within a band the `j`-th
/// rendered pixel lands in row `band_start + j / width`, column `j % width`.
pub proof fn lemma_band_target(band: nat, j: nat, width: nat, height: nat, workers: nat)
    requires
        band < workers,
        j < band_len(height, workers) * width,
    ensures
        band_target(band, j, width, height, workers) < width * height,
        row_of_index(band_target(band, j, width, height, workers), width, height)
            == band_start(band, height, workers) + j / width,
        col_of_index(band_target(band, j, width, height, workers), width) == j % width,
        in_band(row_of_index(band_target(band, j, width, height, workers), width, height), band, height, workers),
        local_of_index(band_target(band, j, width, height, workers), width, height, workers) == j,
{
    let len = band_len(height, workers);
    assert(width > 0 && len > 0) by (nonlinear_arith)
        requires j < len * width;
    lemma_fundamental_div_mod(j as int, width as int);
    assert(j / width < len) by (nonlinear_arith)
        requires j < len * width, width > 0, j == width * (j / width) + j % width, j % width >= 0;
    lemma_band_bounds(band, height, workers);
    let y = band_start(band, height, workers) + j / width;
    lemma_pixel_index_inverse(j % width, y, width, height);
    lemma_rows_partition(y, height, workers);
    assert(width * (j / width) == (j / width) * width) by (nonlinear_arith);
}

/// The pixel at buffer index `i`, when its row is covered, is the
/// `local_of_index(i)`-th pixel of band `row / band_len`, and of no other band.
pub proof fn lemma_index_band(i: nat, width: nat, height: nat, workers: nat)
    requires
        workers > 0,
        i < width * height,
        row_of_index(i, width, height) < covered_rows(height, workers),
    ensures
        ({
            let band = row_of_index(i, width, height) / band_len(height, workers);
            let j = local_of_index(i, width, height, workers);
            &&& band < workers
            &&& j < band_len(height, workers) * width
            &&& band_target(band, j, width, height, workers) == i
        }),
{
    let len = band_len(height, workers);
    let row = row_of_index(i, width, height);
    let col = col_of_index(i, width);
    lemma_index_pixel_inverse(i, width, height);
    lemma_rows_partition(row, height, workers);
    let band = row / len;
    let k = (row - band_start(band, height, workers)) as nat;
    assert(k < len);
    let j = k * width + col;
    assert(j < len * width) by (nonlinear_arith)
        requires k < len, col < width, j == k * width + col;
    lemma_fundamental_div_mod_converse(j as int, width as int, k as int, col as int);
}

/// Every buffer index whose row is covered is written by exactly one
/// band, at exactly one position of that band's rendering order.
pub proof fn lemma_each_index_written_once(
    i: nat,
    b1: nat,
    j1: nat,
    b2: nat,
    j2: nat,
    width: nat,
    height: nat,
    workers: nat,
)
    requires
        b1 < workers,
        b2 < workers,
        j1 < band_len(height, workers) * width,
        j2 < band_len(height, workers) * width,
        band_target(b1, j1, width, height, workers) == i,
        band_target(b2, j2, width, height, workers) == i,
    ensures
        b1 == b2,
        j1 == j2,
{
    lemma_band_target(b1, j1, width, height, workers);
    lemma_band_target(b2, j2, width, height, workers);
    let row = row_of_index(i, width, height);
    lemma_rows_partition(row, height, workers);
}

/// The buffer is partitioned among the bands: an index whose row is covered
/// is written by some band, at some position of its rendering order; and any
/// band and position that write an index are band `row / band_len` at
/// position `local_of_index`, so no index is written twice and an index on a
/// leftover row is written by no band.
pub proof fn lemma_bands_partition_buffer(i: nat, width: nat, height: nat, workers: nat)
    requires
        workers > 0,
        i < width * height,
    ensures
        row_of_index(i, width, height) < covered_rows(height, workers) ==> exists|b: nat, j: nat|
            b < workers && j < band_len(height, workers) * width
                && #[trigger] band_target(b, j, width, height, workers) == i,
        forall|b: nat, j: nat|
            b < workers && j < band_len(height, workers) * width
                && #[trigger] band_target(b, j, width, height, workers) == i ==> {
                &&& row_of_index(i, width, height) < covered_rows(height, workers)
                &&& b == row_of_index(i, width, height) / band_len(height, workers)
                &&& j == local_of_index(i, width, height, workers)
            },
{
    if row_of_index(i, width, height) < covered_rows(height, workers) {
        lemma_index_band(i, width, height, workers);
        let b = row_of_index(i, width, height) / band_len(height, workers);
        let j = local_of_index(i, width, height, workers);
        assert(band_target(b, j, width, height, workers) == i);
    }
    assert forall|b: nat, j: nat|
        b < workers && j < band_len(height, workers) * width
            && #[trigger] band_target(b, j, width, height, workers) == i implies {
            &&& row_of_index(i, width, height) < covered_rows(height, workers)
            &&& b == row_of_index(i, width, height) / band_len(height, workers)
            &&& j == local_of_index(i, width, height, workers)
        } by {
        lemma_band_target(b, j, width, height, workers);
        lemma_rows_partition(row_of_index(i, width, height), height, workers);
    }
}

/// Rows in each band: `height / workers`.
pub fn band_size(height: usize, workers: usize) -> (r: usize)
    requires
        workers > 0,
    ensures
        r == band_len(height as nat, workers as nat),
{
    height / workers
}

/// The half-open row range `[start, end)` of a band.
pub fn band_rows(band: usize, height: usize, workers: usize) -> (r: (usize, usize))
    requires
        band < workers,
    ensures
        r.0 == band_start(band as nat, height as nat, workers as nat),
        r.1 == band_end(band as nat, height as nat, workers as nat),
        r.1 <= height,
{
    proof {
        lemma_band_bounds(band as nat, height as nat, workers as nat);
    }
    let len = height / workers;
    let start = band * len;
    (start, start + len)
}

/// The band that renders `row`, or `None` for a leftover row that no band renders.
pub fn band_of_row(row: usize, height: usize, workers: usize) -> (r: Option<usize>)
    requires
        workers > 0,
    ensures
        r matches Some(b) ==> in_band(row as nat, b as nat, height as nat, workers as nat),
        r is None <==> forall|b: nat| !in_band(row as nat, b, height as nat, workers as nat),
        r is None <==> row >= covered_rows(height as nat, workers as nat),
{
    proof {
        lemma_rows_partition(row as nat, height as nat, workers as nat);
    }
    let len = height / workers;
    if len == 0 || row >= workers * len {
        None
    } else {
        Some(row / len)
    }
}

/// Buffer index of the pixel in column `x`, row `y` (rows counted from the bottom).
pub fn pixel_index(x: usize, y: usize, width: usize, height: usize) -> (r: usize)
    requires
        x < width,
        y < height,
        width * height <= usize::MAX,
    ensures
        r == pixel_index_of(x as nat, y as nat, width as nat, height as nat),
        r < width * height,
{
    proof {
        lemma_pixel_index_inverse(x as nat, y as nat, width as nat, height as nat);
        assert((height - 1 - y) * width <= width * height) by (nonlinear_arith)
            requires y < height;
    }
    (height - 1 - y) * width + x
}

/// Column and row of the `j`-th pixel that band `band` renders.
pub fn band_pixel(band: usize, j: usize, width: usize, height: usize, workers: usize) -> (r: (usize, usize))
    requires
        band < workers,
        j < band_len(height as nat, workers as nat) * width,
    ensures
        r.0 == j % width,
        r.1 == band_start(band as nat, height as nat, workers as nat) + j / width,
        r.0 < width,
        r.1 < height,
        in_band(r.1 as nat, band as nat, height as nat, workers as nat),
        pixel_index_of(r.0 as nat, r.1 as nat, width as nat, height as nat)
            == band_target(band as nat, j as nat, width as nat, height as nat, workers as nat),
{
    proof {
        lemma_band_target(band as nat, j as nat, width as nat, height as nat, workers as nat);
        lemma_band_bounds(band as nat, height as nat, workers as nat);
    }
    let len = height / workers;
    (j % width, band * len + j / width)
}

} // verus!
