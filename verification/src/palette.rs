//! Tileset palette: which tiles a search shows, and where a tile sits in its sheet.
use vstd::prelude::*;

use crate::text::{
    chars_of, contains_chars, decimal, decimal_chars, find_char, first_index, has_substring,
    parse_u32, parsed_u32, slice_chars, trim_chars, trimmed,
};

verus! {

/// `x`, the separator and `y`, as in `"3,4"`.
pub open spec fn xy_text(x: nat, sep: char, y: nat) -> Seq<char> {
    decimal(x) + seq![sep] + decimal(y)
}

/// The two ends of a range query `"a-b"`: the text before and after the
/// first `-`, when both read as numbers.
pub open spec fn range_bounds(q: Seq<char>) -> Option<(u32, u32)> {
    let k = first_index(q, '-');
    if k < q.len() {
        match (parsed_u32(q.subrange(0, k)), parsed_u32(q.subrange(k + 1, q.len() as int))) {
            (Some(a), Some(b)) => Some((a, b)),
            _ => None,
        }
    } else {
        None
    }
}

/// Whether tile `index` of a sheet with `columns` columns passes the search
/// `query`. An empty (blank) query passes everything; `a-b` passes the
/// indices between `a` and `b` in either order; a number passes only that
/// index; any other text passes the tiles whose index, or whose position
/// written `x,y`, `xxy` or `xXy`, contains it.
pub open spec fn filter_matches(index: u32, columns: u32, query: Seq<char>) -> bool {
    let q = trimmed(query);
    if q.len() == 0 {
        true
    } else {
        match range_bounds(q) {
            Some((a, b)) => if a <= b {
                a <= index <= b
            } else {
                b <= index <= a
            },
            None => match parsed_u32(q) {
                Some(n) => index == n,
                None => {
                    let c: u32 = if columns == 0 {
                        1
                    } else {
                        columns
                    };
                    let x = (index % c) as nat;
                    let y = (index / c) as nat;
                    has_substring(decimal(index as nat), q) || has_substring(xy_text(x, ',', y), q)
                        || has_substring(xy_text(x, 'x', y), q) || has_substring(xy_text(x, 'X', y), q)
                },
            },
        }
    }
}

fn join_xy(x: u32, sep: char, y: u32) -> (v: Vec<char>)
    ensures
        v@ == xy_text(x as nat, sep, y as nat),
{
    let mut v = decimal_chars(x);
    v.push(sep);
    let w = decimal_chars(y);
    let mut i: usize = 0;
    let ghost start = v@;
    while i < w.len()
        invariant
            i <= w@.len(),
            start == decimal(x as nat).push(sep),
            v@ == start + w@.take(i as int),
        decreases w@.len() - i,
    {
        v.push(w[i]);
        proof {
            assert(w@.take(i + 1) == w@.take(i as int).push(w@[i as int]));
        }
        i = i + 1;
    }
    proof {
        assert(w@.take(w@.len() as int) == w@);
        assert(decimal(x as nat).push(sep) == decimal(x as nat) + seq![sep]);
    }
    v
}

/// Whether tile `index` of a sheet with `columns` columns passes the search `query`.
pub fn palette_filter_matches(index: u32, columns: u32, query: &str) -> (b: bool)
    ensures
        b == filter_matches(index, columns, query@),
{
    let qv = chars_of(query);
    let q = trim_chars(qv.as_slice());
    if q.len() == 0 {
        return true;
    }
    let k = find_char(q.as_slice(), '-');
    if k < q.len() {
        let left = slice_chars(q.as_slice(), 0, k);
        let right = slice_chars(q.as_slice(), k + 1, q.len());
        let a = parse_u32(left.as_slice());
        let b = parse_u32(right.as_slice());
        if let (Some(a), Some(b)) = (a, b) {
            let (lo, hi) = if a <= b { (a, b) } else { (b, a) };
            return index >= lo && index <= hi;
        }
    }
    if let Some(n) = parse_u32(q.as_slice()) {
        return index == n;
    }
    let idx_s = decimal_chars(index);
    if contains_chars(idx_s.as_slice(), q.as_slice()) {
        return true;
    }
    let c: u32 = if columns == 0 { 1 } else { columns };
    let x = index % c;
    let y = index / c;
    let xy1 = join_xy(x, ',', y);
    let xy2 = join_xy(x, 'x', y);
    let xy3 = join_xy(x, 'X', y);
    contains_chars(xy1.as_slice(), q.as_slice()) || contains_chars(xy2.as_slice(), q.as_slice())
        || contains_chars(xy3.as_slice(), q.as_slice())
}

/// Number of tiles in a sheet of `columns` by `rows`, saturating at `u32::MAX`.
pub open spec fn sheet_tile_count(columns: u32, rows: u32) -> u32 {
    if columns * rows <= u32::MAX {
        (columns * rows) as u32
    } else {
        u32::MAX
    }
}

/// `n`, or 1 when `n` is 0 (`n.max(1)`).
pub open spec fn at_least_one(n: u32) -> u32 {
    if n == 0 {
        1
    } else {
        n
    }
}

/// `a * b`, or `u32::MAX` when the product does not fit.
pub fn saturating_product(a: u32, b: u32) -> (r: u32)
    ensures
        r == sheet_tile_count(a, b),
{
    proof {
        assert((a as int) * (b as int) <= 4294967295int * 4294967295int) by (nonlinear_arith)
            requires
                a <= 4294967295int,
                b <= 4294967295int,
                0 <= a,
                0 <= b,
        ;
    }
    let p: u64 = (a as u64) * (b as u64);
    if p > 4294967295u64 {
        4294967295u32
    } else {
        p as u32
    }
}

/// The tiles the palette shows for a sheet of `columns` by `rows` under the
/// search `query`: every matching index below the tile count, in increasing
/// order.
pub fn filtered_palette_indices(columns: u32, rows: u32, query: &str) -> (v: Vec<u32>)
    ensures
        forall|i: int, j: int| 0 <= i < j < v@.len() ==> v@[i] < v@[j],
        forall|i: int|
            0 <= i < v@.len() ==> v@[i] < sheet_tile_count(columns, rows) && filter_matches(
                #[trigger] v@[i],
                at_least_one(columns),
                query@,
            ),
        forall|n: u32|
            n < sheet_tile_count(columns, rows) && #[trigger] filter_matches(
                n,
                at_least_one(columns),
                query@,
            ) ==> v@.contains(n),
{
    let tile_count: u32 = saturating_product(columns, rows);
    let cols: u32 = if columns == 0 { 1 } else { columns };
    let mut v: Vec<u32> = Vec::new();
    let mut idx: u32 = 0;
    while idx < tile_count
        invariant
            tile_count == sheet_tile_count(columns, rows),
            cols == at_least_one(columns),
            idx <= tile_count,
            forall|i: int, j: int| 0 <= i < j < v@.len() ==> v@[i] < v@[j],
            forall|i: int|
                0 <= i < v@.len() ==> #[trigger] v@[i] < idx && filter_matches(v@[i], cols, query@),
            forall|n: u32| n < idx && #[trigger] filter_matches(n, cols, query@) ==> v@.contains(n),
        decreases tile_count - idx,
    {
        if palette_filter_matches(idx, cols, query) {
            let ghost before = v@;
            v.push(idx);
            proof {
                assert forall|n: u32| n < idx + 1 && #[trigger] filter_matches(n, cols, query@) implies v@.contains(n) by {
                    if n < idx {
                        let k = choose|k: int| 0 <= k < before.len() && before[k] == n;
                        assert(v@[k] == n);
                    } else {
                        assert(v@[v@.len() - 1] == n);
                    }
                }
            }
        } else {
            proof {
                assert forall|n: u32| n < idx + 1 && #[trigger] filter_matches(n, cols, query@) implies v@.contains(n) by {
                    if n == idx {
                    }
                }
            }
        }
        idx = idx + 1;
    }
    v
}

/// Column and row of tile `index` in a sheet with `columns` columns.
pub fn tile_cell_in_sheet(index: u32, columns: u32) -> (r: (u32, u32))
    requires
        columns > 0,
    ensures
        r.0 == index % columns,
        r.1 == index / columns,
        r.1 * columns + r.0 == index,
{
    proof {
        assert((index / columns) * columns + index % columns == index) by (nonlinear_arith)
            requires
                columns > 0,
        ;
    }
    (index % columns, index / columns)
}

/// Columns and rows of whole tiles in an image of `image_w` by `image_h`
/// pixels cut into `tile_w` by `tile_h` tiles (a tile size of 0 counts as
/// 1); `None` when the image holds no whole row or column.
pub fn tileset_grid_dims(image_w: u32, image_h: u32, tile_w: u32, tile_h: u32) -> (r: Option<(u32, u32)>)
    ensures
        ({
            let tw: u32 = if tile_w == 0 {
                1
            } else {
                tile_w
            };
            let th: u32 = if tile_h == 0 {
                1
            } else {
                tile_h
            };
            match r {
                Some((c, rows)) => c == image_w / tw && rows == image_h / th && c > 0 && rows > 0,
                None => image_w / tw == 0 || image_h / th == 0,
            }
        }),
{
    let tw: u32 = if tile_w == 0 { 1 } else { tile_w };
    let th: u32 = if tile_h == 0 { 1 } else { tile_h };
    let columns = image_w / tw;
    let rows = image_h / th;
    if columns == 0 || rows == 0 {
        None
    } else {
        Some((columns, rows))
    }
}

} // verus!
