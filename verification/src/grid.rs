//! Neighbourhood structure of the climate grid. Cells are stored row by row
//! (rows are latitude bands, columns longitude); cell `(x, y)` has index
//! `y * width + x`. Longitude wraps around, latitude does not.
use vstd::prelude::*;
use vstd::arithmetic::div_mod::{lemma_fundamental_div_mod, lemma_fundamental_div_mod_converse};

verus! {

/// Column to the west of `x`, wrapping around.
pub open spec fn west(w: int, x: int) -> int {
    if x == 0 {
        w - 1
    } else {
        x - 1
    }
}

/// Column to the east of `x`, wrapping around.
pub open spec fn east(w: int, x: int) -> int {
    if x + 1 == w {
        0
    } else {
        x + 1
    }
}

/// Indices of the cells adjacent to cell `(x, y)` of a `w` by `h` grid, in
/// the order west, east (when the grid is more than one cell wide), north
/// (when there is a row above), south (when there is a row below).
pub open spec fn neighbors(w: int, h: int, x: int, y: int) -> Seq<int> {
    (if w > 1 {
        seq![y * w + west(w, x), y * w + east(w, x)]
    } else {
        Seq::empty()
    }) + (if y > 0 {
        seq![(y - 1) * w + x]
    } else {
        Seq::empty()
    }) + (if y + 1 < h {
        seq![(y + 1) * w + x]
    } else {
        Seq::empty()
    })
}

/// Neighbours of the cell with index `i`.
pub open spec fn neighbors_of(w: int, h: int, i: int) -> Seq<int> {
    neighbors(w, h, i % w, i / w)
}

/// A list of indices, read as integers.
pub open spec fn as_ints(s: Seq<usize>) -> Seq<int> {
    s.map_values(|a: usize| a as int)
}

proof fn lemma_cell_index(w: int, h: int, x: int, y: int)
    requires
        0 <= x < w,
        0 <= y < h,
    ensures
        0 <= y * w + x < w * h,
        (y * w + x) % w == x,
        (y * w + x) / w == y,
{
    assert(0 <= y * w) by (nonlinear_arith)
        requires
            0 <= y,
            0 < w,
    ;
    assert(y * w + x < w * h) by (nonlinear_arith)
        requires
            0 <= x < w,
            0 <= y < h,
    ;
    lemma_fundamental_div_mod_converse(y * w + x, w, y, x);
}

proof fn lemma_index_cell(w: int, h: int, i: int)
    requires
        0 < w,
        0 < h,
        0 <= i < w * h,
    ensures
        0 <= i % w < w,
        0 <= i / w < h,
        i == (i / w) * w + i % w,
{
    lemma_fundamental_div_mod(i, w);
    assert(0 <= i % w < w);
    assert(w * (i / w) == (i / w) * w) by (nonlinear_arith);
    assert(0 <= i / w < h) by (nonlinear_arith)
        requires
            0 <= i < w * h,
            i == (i / w) * w + i % w,
            0 <= i % w < w,
            0 < w,
    ;
}

/// Indices of the cells adjacent to cell `(x, y)` of a `width` by `height`
/// grid.
pub fn cell_neighbors(width: usize, height: usize, x: usize, y: usize) -> (adj: Vec<usize>)
    requires
        x < width,
        y < height,
        width * height <= usize::MAX,
    ensures
        as_ints(adj@) == neighbors(width as int, height as int, x as int, y as int),
{
    proof {
        lemma_cell_index(width as int, height as int, x as int, y as int);
        assert(y * width <= width * height) by (nonlinear_arith)
            requires
                y < height,
        ;
    }
    let ghost w = width as int;
    let ghost h = height as int;
    let row = y * width;
    let idx = row + x;
    let mut adj: Vec<usize> = Vec::new();
    if width > 1 {
        let west_x = if x == 0 {
            width - 1
        } else {
            x - 1
        };
        let east_x = if x + 1 == width {
            0
        } else {
            x + 1
        };
        proof {
            lemma_cell_index(w, h, west_x as int, y as int);
            lemma_cell_index(w, h, east_x as int, y as int);
        }
        if row + west_x != idx {
            adj.push(row + west_x);
        }
        if row + east_x != idx {
            adj.push(row + east_x);
        }
    }
    if y > 0 {
        proof {
            lemma_cell_index(w, h, x as int, y - 1);
            assert((y - 1) * w == y * w - w) by (nonlinear_arith);
        }
        adj.push(row - width + x);
    }
    if y + 1 < height {
        proof {
            lemma_cell_index(w, h, x as int, y + 1);
            assert((y + 1) * w == y * w + w) by (nonlinear_arith);
        }
        adj.push(row + width + x);
    }
    proof {
        assert(as_ints(adj@) =~= neighbors(w, h, x as int, y as int));
    }
    adj
}

/// Adjacency lists of every cell of a `width` by `height` grid, in index
/// order.
pub fn grid_adjacency(width: usize, height: usize) -> (adj: Vec<Vec<usize>>)
    requires
        width * height <= usize::MAX,
    ensures
        adj.len() == width * height,
        forall|i: int|
            0 <= i < width * height ==> as_ints(#[trigger] adj[i]@) == neighbors_of(
                width as int,
                height as int,
                i,
            ),
{
    let ghost w = width as int;
    let ghost h = height as int;
    let mut adj: Vec<Vec<usize>> = Vec::new();
    let mut y: usize = 0;
    while y < height
        invariant
            y <= height,
            w == width,
            h == height,
            width * height <= usize::MAX,
            adj.len() == y * width,
            forall|i: int|
                0 <= i < adj.len() ==> as_ints(#[trigger] adj[i]@) == neighbors_of(w, h, i),
        decreases height - y,
    {
        let mut x: usize = 0;
        while x < width
            invariant
                x <= width,
                y < height,
                w == width,
                h == height,
                width * height <= usize::MAX,
                adj.len() == y * width + x,
                forall|i: int|
                    0 <= i < adj.len() ==> as_ints(#[trigger] adj[i]@) == neighbors_of(w, h, i),
            decreases width - x,
        {
            let cell = cell_neighbors(width, height, x, y);
            proof {
                lemma_cell_index(w, h, x as int, y as int);
            }
            adj.push(cell);
            x = x + 1;
        }
        proof {
            assert(y * width + width == (y + 1) * width) by (nonlinear_arith);
        }
        y = y + 1;
    }
    proof {
        assert(y * width == width * height) by (nonlinear_arith)
            requires
                y == height,
        ;
    }
    adj
}

/// Adjacency never links a cell to itself, and every neighbour is a cell of
/// the grid.
pub proof fn lemma_neighbors_in_grid(w: int, h: int, i: int)
    requires
        0 < w,
        0 < h,
        0 <= i < w * h,
    ensures
        forall|k: int|
            0 <= k < neighbors_of(w, h, i).len() ==> 0 <= #[trigger] neighbors_of(w, h, i)[k] < w
                * h && neighbors_of(w, h, i)[k] != i,
{
    lemma_index_cell(w, h, i);
    let x = i % w;
    let y = i / w;
    if w > 1 {
        lemma_cell_index(w, h, west(w, x), y);
        lemma_cell_index(w, h, east(w, x), y);
    }
    if y > 0 {
        lemma_cell_index(w, h, x, y - 1);
    }
    if y + 1 < h {
        lemma_cell_index(w, h, x, y + 1);
    }
}

/// Adjacency is symmetric: if `j` neighbours `i` then `i` neighbours `j`.
pub proof fn lemma_neighbors_symmetric(w: int, h: int, i: int, j: int)
    requires
        0 < w,
        0 < h,
        0 <= i < w * h,
        neighbors_of(w, h, i).contains(j),
    ensures
        neighbors_of(w, h, j).contains(i),
{
    lemma_index_cell(w, h, i);
    let x = i % w;
    let y = i / w;
    let n = neighbors_of(w, h, i);
    let k = choose|k: int| 0 <= k < n.len() && n[k] == j;
    if w > 1 && j == y * w + west(w, x) {
        lemma_cell_index(w, h, west(w, x), y);
        assert(east(w, west(w, x)) == x);
        assert(neighbors_of(w, h, j)[1] == i);
    } else if w > 1 && j == y * w + east(w, x) {
        lemma_cell_index(w, h, east(w, x), y);
        assert(west(w, east(w, x)) == x);
        assert(neighbors_of(w, h, j)[0] == i);
    } else if y > 0 && j == (y - 1) * w + x {
        lemma_cell_index(w, h, x, y - 1);
        let m = neighbors_of(w, h, j);
        assert(j / w == y - 1 && j % w == x);
        assert(((y - 1) + 1) * w == y * w);
        let a: Seq<int> = if w > 1 {
            seq![(y - 1) * w + west(w, x), (y - 1) * w + east(w, x)]
        } else {
            Seq::empty()
        };
        let b: Seq<int> = if y - 1 > 0 {
            seq![(y - 2) * w + x]
        } else {
            Seq::empty()
        };
        assert(((y - 1) - 1) * w == (y - 2) * w);
        assert(m =~= a + b + seq![y * w + x]);
        assert(m[m.len() - 1] == i);
    } else {
        assert(y + 1 < h && j == (y + 1) * w + x);
        lemma_cell_index(w, h, x, y + 1);
        let m = neighbors_of(w, h, j);
        assert(j / w == y + 1 && j % w == x);
        assert(((y + 1) - 1) * w == y * w);
        assert(((y + 1) + 1) * w == (y + 2) * w);
        let a: Seq<int> = if w > 1 {
            seq![(y + 1) * w + west(w, x), (y + 1) * w + east(w, x)]
        } else {
            Seq::empty()
        };
        let c: Seq<int> = if y + 2 < h {
            seq![(y + 2) * w + x]
        } else {
            Seq::empty()
        };
        assert(m =~= a + seq![y * w + x] + c);
        assert(m[a.len() as int] == i);
    }
}

} // verus!
