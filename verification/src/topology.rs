//! Fixed topology of the standard board: 19 land hexes in rows of 3, 4, 5, 4 and 3,
//! 54 vertices and 72 edges.
//!
//! Vertices are numbered row by row along the six zig-zag lines that run across the
//! board, left to right. Edges are numbered in the same sweep: first the edges of a
//! zig-zag line, left to right, then the edges that lead down from it. Hexes are
//! numbered row by row, left to right. Every adjacency row lists its entries in
//! ascending order and is padded at the end with [`NONE`].

use vstd::prelude::*;

verus! {

/// Number of land hexes.
pub const NUM_HEXES: usize = 19;
/// Number of vertices (settlement spots).
pub const NUM_VERTICES: usize = 54;
/// Number of edges (road spots).
pub const NUM_EDGES: usize = 72;
/// Number of harbours.
pub const NUM_PORTS: usize = 9;
/// Padding value of the adjacency rows.
pub const NONE: usize = 255;

/// Entries of `row` are indices below `bound` or [`NONE`], and once a [`NONE`]
/// appears only [`NONE`] follows.
pub open spec fn padded_row(row: Seq<usize>, bound: usize) -> bool {
    &&& forall|k: int| 0 <= k < row.len() ==> (#[trigger] row[k] < bound || row[k] == NONE)
    &&& forall|j: int, k: int| 0 <= j < k < row.len() && #[trigger] row[j] == NONE ==> #[trigger] row[k] == NONE
}

/// Every entry of `row` is an index below `bound`.
pub open spec fn full_row(row: Seq<usize>, bound: usize) -> bool {
    forall|k: int| 0 <= k < row.len() ==> #[trigger] row[k] < bound
}

/// The table row of the edges that share a vertex with edge `e`, in ascending order.
pub open spec fn spec_edge_edges(e: int) -> Seq<usize> {
    if e == 0 {
        seq![1usize, 6, 255, 255]
    } else if e == 1 {
        seq![0usize, 2, 7, 255]
    } else if e == 2 {
        seq![1usize, 3, 7, 255]
    } else if e == 3 {
        seq![2usize, 4, 8, 255]
    } else if e == 4 {
        seq![3usize, 5, 8, 255]
    } else if e == 5 {
        seq![4usize, 9, 255, 255]
    } else if e == 6 {
        seq![0usize, 10, 11, 255]
    } else if e == 7 {
        seq![1usize, 2, 12, 13]
    } else if e == 8 {
        seq![3usize, 4, 14, 15]
    } else if e == 9 {
        seq![5usize, 16, 17, 255]
    } else if e == 10 {
        seq![6usize, 11, 18, 255]
    } else if e == 11 {
        seq![6usize, 10, 12, 19]
    } else if e == 12 {
        seq![7usize, 11, 13, 19]
    } else if e == 13 {
        seq![7usize, 12, 14, 20]
    } else if e == 14 {
        seq![8usize, 13, 15, 20]
    } else if e == 15 {
        seq![8usize, 14, 16, 21]
    } else if e == 16 {
        seq![9usize, 15, 17, 21]
    } else if e == 17 {
        seq![9usize, 16, 22, 255]
    } else if e == 18 {
        seq![10usize, 23, 24, 255]
    } else if e == 19 {
        seq![11usize, 12, 25, 26]
    } else if e == 20 {
        seq![13usize, 14, 27, 28]
    } else if e == 21 {
        seq![15usize, 16, 29, 30]
    } else if e == 22 {
        seq![17usize, 31, 32, 255]
    } else if e == 23 {
        seq![18usize, 24, 33, 255]
    } else if e == 24 {
        seq![18usize, 23, 25, 34]
    } else if e == 25 {
        seq![19usize, 24, 26, 34]
    } else if e == 26 {
        seq![19usize, 25, 27, 35]
    } else if e == 27 {
        seq![20usize, 26, 28, 35]
    } else if e == 28 {
        seq![20usize, 27, 29, 36]
    } else if e == 29 {
        seq![21usize, 28, 30, 36]
    } else if e == 30 {
        seq![21usize, 29, 31, 37]
    } else if e == 31 {
        seq![22usize, 30, 32, 37]
    } else if e == 32 {
        seq![22usize, 31, 38, 255]
    } else if e == 33 {
        seq![23usize, 39, 255, 255]
    } else if e == 34 {
        seq![24usize, 25, 40, 41]
    } else if e == 35 {
        seq![26usize, 27, 42, 43]
    } else if e == 36 {
        seq![28usize, 29, 44, 45]
    } else if e == 37 {
        seq![30usize, 31, 46, 47]
    } else if e == 38 {
        seq![32usize, 48, 255, 255]
    } else if e == 39 {
        seq![33usize, 40, 49, 255]
    } else if e == 40 {
        seq![34usize, 39, 41, 49]
    } else if e == 41 {
        seq![34usize, 40, 42, 50]
    } else if e == 42 {
        seq![35usize, 41, 43, 50]
    } else if e == 43 {
        seq![35usize, 42, 44, 51]
    } else if e == 44 {
        seq![36usize, 43, 45, 51]
    } else if e == 45 {
        seq![36usize, 44, 46, 52]
    } else if e == 46 {
        seq![37usize, 45, 47, 52]
    } else if e == 47 {
        seq![37usize, 46, 48, 53]
    } else if e == 48 {
        seq![38usize, 47, 53, 255]
    } else if e == 49 {
        seq![39usize, 40, 54, 255]
    } else if e == 50 {
        seq![41usize, 42, 55, 56]
    } else if e == 51 {
        seq![43usize, 44, 57, 58]
    } else if e == 52 {
        seq![45usize, 46, 59, 60]
    } else if e == 53 {
        seq![47usize, 48, 61, 255]
    } else if e == 54 {
        seq![49usize, 55, 62, 255]
    } else if e == 55 {
        seq![50usize, 54, 56, 62]
    } else if e == 56 {
        seq![50usize, 55, 57, 63]
    } else if e == 57 {
        seq![51usize, 56, 58, 63]
    } else if e == 58 {
        seq![51usize, 57, 59, 64]
    } else if e == 59 {
        seq![52usize, 58, 60, 64]
    } else if e == 60 {
        seq![52usize, 59, 61, 65]
    } else if e == 61 {
        seq![53usize, 60, 65, 255]
    } else if e == 62 {
        seq![54usize, 55, 66, 255]
    } else if e == 63 {
        seq![56usize, 57, 67, 68]
    } else if e == 64 {
        seq![58usize, 59, 69, 70]
    } else if e == 65 {
        seq![60usize, 61, 71, 255]
    } else if e == 66 {
        seq![62usize, 67, 255, 255]
    } else if e == 67 {
        seq![63usize, 66, 68, 255]
    } else if e == 68 {
        seq![63usize, 67, 69, 255]
    } else if e == 69 {
        seq![64usize, 68, 70, 255]
    } else if e == 70 {
        seq![64usize, 69, 71, 255]
    } else if e == 71 {
        seq![65usize, 70, 255, 255]
    } else {
        seq![NONE, NONE, NONE, NONE]
    }
}

/// Returns the edges that share a vertex with edge `e`, in ascending order.
pub fn edge_edges(e: usize) -> (r: [usize; 4])
    requires
        e < NUM_EDGES,
    ensures
        r@ == spec_edge_edges(e as int),
        padded_row(r@, NUM_EDGES),
{
    match e {
        0 => [1, 6, NONE, NONE],
        1 => [0, 2, 7, NONE],
        2 => [1, 3, 7, NONE],
        3 => [2, 4, 8, NONE],
        4 => [3, 5, 8, NONE],
        5 => [4, 9, NONE, NONE],
        6 => [0, 10, 11, NONE],
        7 => [1, 2, 12, 13],
        8 => [3, 4, 14, 15],
        9 => [5, 16, 17, NONE],
        10 => [6, 11, 18, NONE],
        11 => [6, 10, 12, 19],
        12 => [7, 11, 13, 19],
        13 => [7, 12, 14, 20],
        14 => [8, 13, 15, 20],
        15 => [8, 14, 16, 21],
        16 => [9, 15, 17, 21],
        17 => [9, 16, 22, NONE],
        18 => [10, 23, 24, NONE],
        19 => [11, 12, 25, 26],
        20 => [13, 14, 27, 28],
        21 => [15, 16, 29, 30],
        22 => [17, 31, 32, NONE],
        23 => [18, 24, 33, NONE],
        24 => [18, 23, 25, 34],
        25 => [19, 24, 26, 34],
        26 => [19, 25, 27, 35],
        27 => [20, 26, 28, 35],
        28 => [20, 27, 29, 36],
        29 => [21, 28, 30, 36],
        30 => [21, 29, 31, 37],
        31 => [22, 30, 32, 37],
        32 => [22, 31, 38, NONE],
        33 => [23, 39, NONE, NONE],
        34 => [24, 25, 40, 41],
        35 => [26, 27, 42, 43],
        36 => [28, 29, 44, 45],
        37 => [30, 31, 46, 47],
        38 => [32, 48, NONE, NONE],
        39 => [33, 40, 49, NONE],
        40 => [34, 39, 41, 49],
        41 => [34, 40, 42, 50],
        42 => [35, 41, 43, 50],
        43 => [35, 42, 44, 51],
        44 => [36, 43, 45, 51],
        45 => [36, 44, 46, 52],
        46 => [37, 45, 47, 52],
        47 => [37, 46, 48, 53],
        48 => [38, 47, 53, NONE],
        49 => [39, 40, 54, NONE],
        50 => [41, 42, 55, 56],
        51 => [43, 44, 57, 58],
        52 => [45, 46, 59, 60],
        53 => [47, 48, 61, NONE],
        54 => [49, 55, 62, NONE],
        55 => [50, 54, 56, 62],
        56 => [50, 55, 57, 63],
        57 => [51, 56, 58, 63],
        58 => [51, 57, 59, 64],
        59 => [52, 58, 60, 64],
        60 => [52, 59, 61, 65],
        61 => [53, 60, 65, NONE],
        62 => [54, 55, 66, NONE],
        63 => [56, 57, 67, 68],
        64 => [58, 59, 69, 70],
        65 => [60, 61, 71, NONE],
        66 => [62, 67, NONE, NONE],
        67 => [63, 66, 68, NONE],
        68 => [63, 67, 69, NONE],
        69 => [64, 68, 70, NONE],
        70 => [64, 69, 71, NONE],
        71 => [65, 70, NONE, NONE],
        _ => [NONE; 4],
    }
}

/// The table row of the vertices joined to vertex `v` by an edge, in ascending order.
pub open spec fn spec_vertex_vertices(v: int) -> Seq<usize> {
    if v == 0 {
        seq![1usize, 8, 255]
    } else if v == 1 {
        seq![0usize, 2, 255]
    } else if v == 2 {
        seq![1usize, 3, 10]
    } else if v == 3 {
        seq![2usize, 4, 255]
    } else if v == 4 {
        seq![3usize, 5, 12]
    } else if v == 5 {
        seq![4usize, 6, 255]
    } else if v == 6 {
        seq![5usize, 14, 255]
    } else if v == 7 {
        seq![8usize, 17, 255]
    } else if v == 8 {
        seq![0usize, 7, 9]
    } else if v == 9 {
        seq![8usize, 10, 19]
    } else if v == 10 {
        seq![2usize, 9, 11]
    } else if v == 11 {
        seq![10usize, 12, 21]
    } else if v == 12 {
        seq![4usize, 11, 13]
    } else if v == 13 {
        seq![12usize, 14, 23]
    } else if v == 14 {
        seq![6usize, 13, 15]
    } else if v == 15 {
        seq![14usize, 25, 255]
    } else if v == 16 {
        seq![17usize, 27, 255]
    } else if v == 17 {
        seq![7usize, 16, 18]
    } else if v == 18 {
        seq![17usize, 19, 29]
    } else if v == 19 {
        seq![9usize, 18, 20]
    } else if v == 20 {
        seq![19usize, 21, 31]
    } else if v == 21 {
        seq![11usize, 20, 22]
    } else if v == 22 {
        seq![21usize, 23, 33]
    } else if v == 23 {
        seq![13usize, 22, 24]
    } else if v == 24 {
        seq![23usize, 25, 35]
    } else if v == 25 {
        seq![15usize, 24, 26]
    } else if v == 26 {
        seq![25usize, 37, 255]
    } else if v == 27 {
        seq![16usize, 28, 255]
    } else if v == 28 {
        seq![27usize, 29, 38]
    } else if v == 29 {
        seq![18usize, 28, 30]
    } else if v == 30 {
        seq![29usize, 31, 40]
    } else if v == 31 {
        seq![20usize, 30, 32]
    } else if v == 32 {
        seq![31usize, 33, 42]
    } else if v == 33 {
        seq![22usize, 32, 34]
    } else if v == 34 {
        seq![33usize, 35, 44]
    } else if v == 35 {
        seq![24usize, 34, 36]
    } else if v == 36 {
        seq![35usize, 37, 46]
    } else if v == 37 {
        seq![26usize, 36, 255]
    } else if v == 38 {
        seq![28usize, 39, 255]
    } else if v == 39 {
        seq![38usize, 40, 47]
    } else if v == 40 {
        seq![30usize, 39, 41]
    } else if v == 41 {
        seq![40usize, 42, 49]
    } else if v == 42 {
        seq![32usize, 41, 43]
    } else if v == 43 {
        seq![42usize, 44, 51]
    } else if v == 44 {
        seq![34usize, 43, 45]
    } else if v == 45 {
        seq![44usize, 46, 53]
    } else if v == 46 {
        seq![36usize, 45, 255]
    } else if v == 47 {
        seq![39usize, 48, 255]
    } else if v == 48 {
        seq![47usize, 49, 255]
    } else if v == 49 {
        seq![41usize, 48, 50]
    } else if v == 50 {
        seq![49usize, 51, 255]
    } else if v == 51 {
        seq![43usize, 50, 52]
    } else if v == 52 {
        seq![51usize, 53, 255]
    } else if v == 53 {
        seq![45usize, 52, 255]
    } else {
        seq![NONE, NONE, NONE]
    }
}

/// Returns the vertices joined to vertex `v` by an edge, in ascending order.
pub fn vertex_vertices(v: usize) -> (r: [usize; 3])
    requires
        v < NUM_VERTICES,
    ensures
        r@ == spec_vertex_vertices(v as int),
        padded_row(r@, NUM_VERTICES),
{
    match v {
        0 => [1, 8, NONE],
        1 => [0, 2, NONE],
        2 => [1, 3, 10],
        3 => [2, 4, NONE],
        4 => [3, 5, 12],
        5 => [4, 6, NONE],
        6 => [5, 14, NONE],
        7 => [8, 17, NONE],
        8 => [0, 7, 9],
        9 => [8, 10, 19],
        10 => [2, 9, 11],
        11 => [10, 12, 21],
        12 => [4, 11, 13],
        13 => [12, 14, 23],
        14 => [6, 13, 15],
        15 => [14, 25, NONE],
        16 => [17, 27, NONE],
        17 => [7, 16, 18],
        18 => [17, 19, 29],
        19 => [9, 18, 20],
        20 => [19, 21, 31],
        21 => [11, 20, 22],
        22 => [21, 23, 33],
        23 => [13, 22, 24],
        24 => [23, 25, 35],
        25 => [15, 24, 26],
        26 => [25, 37, NONE],
        27 => [16, 28, NONE],
        28 => [27, 29, 38],
        29 => [18, 28, 30],
        30 => [29, 31, 40],
        31 => [20, 30, 32],
        32 => [31, 33, 42],
        33 => [22, 32, 34],
        34 => [33, 35, 44],
        35 => [24, 34, 36],
        36 => [35, 37, 46],
        37 => [26, 36, NONE],
        38 => [28, 39, NONE],
        39 => [38, 40, 47],
        40 => [30, 39, 41],
        41 => [40, 42, 49],
        42 => [32, 41, 43],
        43 => [42, 44, 51],
        44 => [34, 43, 45],
        45 => [44, 46, 53],
        46 => [36, 45, NONE],
        47 => [39, 48, NONE],
        48 => [47, 49, NONE],
        49 => [41, 48, 50],
        50 => [49, 51, NONE],
        51 => [43, 50, 52],
        52 => [51, 53, NONE],
        53 => [45, 52, NONE],
        _ => [NONE; 3],
    }
}

/// The table row of the edges that end at vertex `v`, in ascending order.
pub open spec fn spec_vertex_edges(v: int) -> Seq<usize> {
    if v == 0 {
        seq![0usize, 6, 255]
    } else if v == 1 {
        seq![0usize, 1, 255]
    } else if v == 2 {
        seq![1usize, 2, 7]
    } else if v == 3 {
        seq![2usize, 3, 255]
    } else if v == 4 {
        seq![3usize, 4, 8]
    } else if v == 5 {
        seq![4usize, 5, 255]
    } else if v == 6 {
        seq![5usize, 9, 255]
    } else if v == 7 {
        seq![10usize, 18, 255]
    } else if v == 8 {
        seq![6usize, 10, 11]
    } else if v == 9 {
        seq![11usize, 12, 19]
    } else if v == 10 {
        seq![7usize, 12, 13]
    } else if v == 11 {
        seq![13usize, 14, 20]
    } else if v == 12 {
        seq![8usize, 14, 15]
    } else if v == 13 {
        seq![15usize, 16, 21]
    } else if v == 14 {
        seq![9usize, 16, 17]
    } else if v == 15 {
        seq![17usize, 22, 255]
    } else if v == 16 {
        seq![23usize, 33, 255]
    } else if v == 17 {
        seq![18usize, 23, 24]
    } else if v == 18 {
        seq![24usize, 25, 34]
    } else if v == 19 {
        seq![19usize, 25, 26]
    } else if v == 20 {
        seq![26usize, 27, 35]
    } else if v == 21 {
        seq![20usize, 27, 28]
    } else if v == 22 {
        seq![28usize, 29, 36]
    } else if v == 23 {
        seq![21usize, 29, 30]
    } else if v == 24 {
        seq![30usize, 31, 37]
    } else if v == 25 {
        seq![22usize, 31, 32]
    } else if v == 26 {
        seq![32usize, 38, 255]
    } else if v == 27 {
        seq![33usize, 39, 255]
    } else if v == 28 {
        seq![39usize, 40, 49]
    } else if v == 29 {
        seq![34usize, 40, 41]
    } else if v == 30 {
        seq![41usize, 42, 50]
    } else if v == 31 {
        seq![35usize, 42, 43]
    } else if v == 32 {
        seq![43usize, 44, 51]
    } else if v == 33 {
        seq![36usize, 44, 45]
    } else if v == 34 {
        seq![45usize, 46, 52]
    } else if v == 35 {
        seq![37usize, 46, 47]
    } else if v == 36 {
        seq![47usize, 48, 53]
    } else if v == 37 {
        seq![38usize, 48, 255]
    } else if v == 38 {
        seq![49usize, 54, 255]
    } else if v == 39 {
        seq![54usize, 55, 62]
    } else if v == 40 {
        seq![50usize, 55, 56]
    } else if v == 41 {
        seq![56usize, 57, 63]
    } else if v == 42 {
        seq![51usize, 57, 58]
    } else if v == 43 {
        seq![58usize, 59, 64]
    } else if v == 44 {
        seq![52usize, 59, 60]
    } else if v == 45 {
        seq![60usize, 61, 65]
    } else if v == 46 {
        seq![53usize, 61, 255]
    } else if v == 47 {
        seq![62usize, 66, 255]
    } else if v == 48 {
        seq![66usize, 67, 255]
    } else if v == 49 {
        seq![63usize, 67, 68]
    } else if v == 50 {
        seq![68usize, 69, 255]
    } else if v == 51 {
        seq![64usize, 69, 70]
    } else if v == 52 {
        seq![70usize, 71, 255]
    } else if v == 53 {
        seq![65usize, 71, 255]
    } else {
        seq![NONE, NONE, NONE]
    }
}

/// Returns the edges that end at vertex `v`, in ascending order.
pub fn vertex_edges(v: usize) -> (r: [usize; 3])
    requires
        v < NUM_VERTICES,
    ensures
        r@ == spec_vertex_edges(v as int),
        padded_row(r@, NUM_EDGES),
{
    match v {
        0 => [0, 6, NONE],
        1 => [0, 1, NONE],
        2 => [1, 2, 7],
        3 => [2, 3, NONE],
        4 => [3, 4, 8],
        5 => [4, 5, NONE],
        6 => [5, 9, NONE],
        7 => [10, 18, NONE],
        8 => [6, 10, 11],
        9 => [11, 12, 19],
        10 => [7, 12, 13],
        11 => [13, 14, 20],
        12 => [8, 14, 15],
        13 => [15, 16, 21],
        14 => [9, 16, 17],
        15 => [17, 22, NONE],
        16 => [23, 33, NONE],
        17 => [18, 23, 24],
        18 => [24, 25, 34],
        19 => [19, 25, 26],
        20 => [26, 27, 35],
        21 => [20, 27, 28],
        22 => [28, 29, 36],
        23 => [21, 29, 30],
        24 => [30, 31, 37],
        25 => [22, 31, 32],
        26 => [32, 38, NONE],
        27 => [33, 39, NONE],
        28 => [39, 40, 49],
        29 => [34, 40, 41],
        30 => [41, 42, 50],
        31 => [35, 42, 43],
        32 => [43, 44, 51],
        33 => [36, 44, 45],
        34 => [45, 46, 52],
        35 => [37, 46, 47],
        36 => [47, 48, 53],
        37 => [38, 48, NONE],
        38 => [49, 54, NONE],
        39 => [54, 55, 62],
        40 => [50, 55, 56],
        41 => [56, 57, 63],
        42 => [51, 57, 58],
        43 => [58, 59, 64],
        44 => [52, 59, 60],
        45 => [60, 61, 65],
        46 => [53, 61, NONE],
        47 => [62, 66, NONE],
        48 => [66, 67, NONE],
        49 => [63, 67, 68],
        50 => [68, 69, NONE],
        51 => [64, 69, 70],
        52 => [70, 71, NONE],
        53 => [65, 71, NONE],
        _ => [NONE; 3],
    }
}

/// The table row of the land hexes that have vertex `v` as a corner, in ascending order.
pub open spec fn spec_vertex_hexes(v: int) -> Seq<usize> {
    if v == 0 {
        seq![0usize, 255, 255]
    } else if v == 1 {
        seq![0usize, 255, 255]
    } else if v == 2 {
        seq![0usize, 1, 255]
    } else if v == 3 {
        seq![1usize, 255, 255]
    } else if v == 4 {
        seq![1usize, 2, 255]
    } else if v == 5 {
        seq![2usize, 255, 255]
    } else if v == 6 {
        seq![2usize, 255, 255]
    } else if v == 7 {
        seq![3usize, 255, 255]
    } else if v == 8 {
        seq![0usize, 3, 255]
    } else if v == 9 {
        seq![0usize, 3, 4]
    } else if v == 10 {
        seq![0usize, 1, 4]
    } else if v == 11 {
        seq![1usize, 4, 5]
    } else if v == 12 {
        seq![1usize, 2, 5]
    } else if v == 13 {
        seq![2usize, 5, 6]
    } else if v == 14 {
        seq![2usize, 6, 255]
    } else if v == 15 {
        seq![6usize, 255, 255]
    } else if v == 16 {
        seq![7usize, 255, 255]
    } else if v == 17 {
        seq![3usize, 7, 255]
    } else if v == 18 {
        seq![3usize, 7, 8]
    } else if v == 19 {
        seq![3usize, 4, 8]
    } else if v == 20 {
        seq![4usize, 8, 9]
    } else if v == 21 {
        seq![4usize, 5, 9]
    } else if v == 22 {
        seq![5usize, 9, 10]
    } else if v == 23 {
        seq![5usize, 6, 10]
    } else if v == 24 {
        seq![6usize, 10, 11]
    } else if v == 25 {
        seq![6usize, 11, 255]
    } else if v == 26 {
        seq![11usize, 255, 255]
    } else if v == 27 {
        seq![7usize, 255, 255]
    } else if v == 28 {
        seq![7usize, 12, 255]
    } else if v == 29 {
        seq![7usize, 8, 12]
    } else if v == 30 {
        seq![8usize, 12, 13]
    } else if v == 31 {
        seq![8usize, 9, 13]
    } else if v == 32 {
        seq![9usize, 13, 14]
    } else if v == 33 {
        seq![9usize, 10, 14]
    } else if v == 34 {
        seq![10usize, 14, 15]
    } else if v == 35 {
        seq![10usize, 11, 15]
    } else if v == 36 {
        seq![11usize, 15, 255]
    } else if v == 37 {
        seq![11usize, 255, 255]
    } else if v == 38 {
        seq![12usize, 255, 255]
    } else if v == 39 {
        seq![12usize, 16, 255]
    } else if v == 40 {
        seq![12usize, 13, 16]
    } else if v == 41 {
        seq![13usize, 16, 17]
    } else if v == 42 {
        seq![13usize, 14, 17]
    } else if v == 43 {
        seq![14usize, 17, 18]
    } else if v == 44 {
        seq![14usize, 15, 18]
    } else if v == 45 {
        seq![15usize, 18, 255]
    } else if v == 46 {
        seq![15usize, 255, 255]
    } else if v == 47 {
        seq![16usize, 255, 255]
    } else if v == 48 {
        seq![16usize, 255, 255]
    } else if v == 49 {
        seq![16usize, 17, 255]
    } else if v == 50 {
        seq![17usize, 255, 255]
    } else if v == 51 {
        seq![17usize, 18, 255]
    } else if v == 52 {
        seq![18usize, 255, 255]
    } else if v == 53 {
        seq![18usize, 255, 255]
    } else {
        seq![NONE, NONE, NONE]
    }
}

/// Returns the land hexes that have vertex `v` as a corner, in ascending order.
pub fn vertex_hexes(v: usize) -> (r: [usize; 3])
    requires
        v < NUM_VERTICES,
    ensures
        r@ == spec_vertex_hexes(v as int),
        padded_row(r@, NUM_HEXES),
{
    match v {
        0 => [0, NONE, NONE],
        1 => [0, NONE, NONE],
        2 => [0, 1, NONE],
        3 => [1, NONE, NONE],
        4 => [1, 2, NONE],
        5 => [2, NONE, NONE],
        6 => [2, NONE, NONE],
        7 => [3, NONE, NONE],
        8 => [0, 3, NONE],
        9 => [0, 3, 4],
        10 => [0, 1, 4],
        11 => [1, 4, 5],
        12 => [1, 2, 5],
        13 => [2, 5, 6],
        14 => [2, 6, NONE],
        15 => [6, NONE, NONE],
        16 => [7, NONE, NONE],
        17 => [3, 7, NONE],
        18 => [3, 7, 8],
        19 => [3, 4, 8],
        20 => [4, 8, 9],
        21 => [4, 5, 9],
        22 => [5, 9, 10],
        23 => [5, 6, 10],
        24 => [6, 10, 11],
        25 => [6, 11, NONE],
        26 => [11, NONE, NONE],
        27 => [7, NONE, NONE],
        28 => [7, 12, NONE],
        29 => [7, 8, 12],
        30 => [8, 12, 13],
        31 => [8, 9, 13],
        32 => [9, 13, 14],
        33 => [9, 10, 14],
        34 => [10, 14, 15],
        35 => [10, 11, 15],
        36 => [11, 15, NONE],
        37 => [11, NONE, NONE],
        38 => [12, NONE, NONE],
        39 => [12, 16, NONE],
        40 => [12, 13, 16],
        41 => [13, 16, 17],
        42 => [13, 14, 17],
        43 => [14, 17, 18],
        44 => [14, 15, 18],
        45 => [15, 18, NONE],
        46 => [15, NONE, NONE],
        47 => [16, NONE, NONE],
        48 => [16, NONE, NONE],
        49 => [16, 17, NONE],
        50 => [17, NONE, NONE],
        51 => [17, 18, NONE],
        52 => [18, NONE, NONE],
        53 => [18, NONE, NONE],
        _ => [NONE; 3],
    }
}

/// The table row of the six corners of hex `h`, in ascending order.
pub open spec fn spec_hex_vertices(h: int) -> Seq<usize> {
    if h == 0 {
        seq![0usize, 1, 2, 8, 9, 10]
    } else if h == 1 {
        seq![2usize, 3, 4, 10, 11, 12]
    } else if h == 2 {
        seq![4usize, 5, 6, 12, 13, 14]
    } else if h == 3 {
        seq![7usize, 8, 9, 17, 18, 19]
    } else if h == 4 {
        seq![9usize, 10, 11, 19, 20, 21]
    } else if h == 5 {
        seq![11usize, 12, 13, 21, 22, 23]
    } else if h == 6 {
        seq![13usize, 14, 15, 23, 24, 25]
    } else if h == 7 {
        seq![16usize, 17, 18, 27, 28, 29]
    } else if h == 8 {
        seq![18usize, 19, 20, 29, 30, 31]
    } else if h == 9 {
        seq![20usize, 21, 22, 31, 32, 33]
    } else if h == 10 {
        seq![22usize, 23, 24, 33, 34, 35]
    } else if h == 11 {
        seq![24usize, 25, 26, 35, 36, 37]
    } else if h == 12 {
        seq![28usize, 29, 30, 38, 39, 40]
    } else if h == 13 {
        seq![30usize, 31, 32, 40, 41, 42]
    } else if h == 14 {
        seq![32usize, 33, 34, 42, 43, 44]
    } else if h == 15 {
        seq![34usize, 35, 36, 44, 45, 46]
    } else if h == 16 {
        seq![39usize, 40, 41, 47, 48, 49]
    } else if h == 17 {
        seq![41usize, 42, 43, 49, 50, 51]
    } else if h == 18 {
        seq![43usize, 44, 45, 51, 52, 53]
    } else {
        seq![NONE, NONE, NONE, NONE, NONE, NONE]
    }
}

/// Returns the six corners of hex `h`, in ascending order.
pub fn hex_vertices(h: usize) -> (r: [usize; 6])
    requires
        h < NUM_HEXES,
    ensures
        r@ == spec_hex_vertices(h as int),
        full_row(r@, NUM_VERTICES),
{
    match h {
        0 => [0, 1, 2, 8, 9, 10],
        1 => [2, 3, 4, 10, 11, 12],
        2 => [4, 5, 6, 12, 13, 14],
        3 => [7, 8, 9, 17, 18, 19],
        4 => [9, 10, 11, 19, 20, 21],
        5 => [11, 12, 13, 21, 22, 23],
        6 => [13, 14, 15, 23, 24, 25],
        7 => [16, 17, 18, 27, 28, 29],
        8 => [18, 19, 20, 29, 30, 31],
        9 => [20, 21, 22, 31, 32, 33],
        10 => [22, 23, 24, 33, 34, 35],
        11 => [24, 25, 26, 35, 36, 37],
        12 => [28, 29, 30, 38, 39, 40],
        13 => [30, 31, 32, 40, 41, 42],
        14 => [32, 33, 34, 42, 43, 44],
        15 => [34, 35, 36, 44, 45, 46],
        16 => [39, 40, 41, 47, 48, 49],
        17 => [41, 42, 43, 49, 50, 51],
        18 => [43, 44, 45, 51, 52, 53],
        _ => [NONE; 6],
    }
}

/// The table row of the land hexes that share a side with hex `h`, in ascending order.
pub open spec fn spec_hex_hexes(h: int) -> Seq<usize> {
    if h == 0 {
        seq![1usize, 3, 4, 255, 255, 255]
    } else if h == 1 {
        seq![0usize, 2, 4, 5, 255, 255]
    } else if h == 2 {
        seq![1usize, 5, 6, 255, 255, 255]
    } else if h == 3 {
        seq![0usize, 4, 7, 8, 255, 255]
    } else if h == 4 {
        seq![0usize, 1, 3, 5, 8, 9]
    } else if h == 5 {
        seq![1usize, 2, 4, 6, 9, 10]
    } else if h == 6 {
        seq![2usize, 5, 10, 11, 255, 255]
    } else if h == 7 {
        seq![3usize, 8, 12, 255, 255, 255]
    } else if h == 8 {
        seq![3usize, 4, 7, 9, 12, 13]
    } else if h == 9 {
        seq![4usize, 5, 8, 10, 13, 14]
    } else if h == 10 {
        seq![5usize, 6, 9, 11, 14, 15]
    } else if h == 11 {
        seq![6usize, 10, 15, 255, 255, 255]
    } else if h == 12 {
        seq![7usize, 8, 13, 16, 255, 255]
    } else if h == 13 {
        seq![8usize, 9, 12, 14, 16, 17]
    } else if h == 14 {
        seq![9usize, 10, 13, 15, 17, 18]
    } else if h == 15 {
        seq![10usize, 11, 14, 18, 255, 255]
    } else if h == 16 {
        seq![12usize, 13, 17, 255, 255, 255]
    } else if h == 17 {
        seq![13usize, 14, 16, 18, 255, 255]
    } else if h == 18 {
        seq![14usize, 15, 17, 255, 255, 255]
    } else {
        seq![NONE, NONE, NONE, NONE, NONE, NONE]
    }
}

/// Returns the land hexes that share a side with hex `h`, in ascending order.
pub fn hex_hexes(h: usize) -> (r: [usize; 6])
    requires
        h < NUM_HEXES,
    ensures
        r@ == spec_hex_hexes(h as int),
        padded_row(r@, NUM_HEXES),
{
    match h {
        0 => [1, 3, 4, NONE, NONE, NONE],
        1 => [0, 2, 4, 5, NONE, NONE],
        2 => [1, 5, 6, NONE, NONE, NONE],
        3 => [0, 4, 7, 8, NONE, NONE],
        4 => [0, 1, 3, 5, 8, 9],
        5 => [1, 2, 4, 6, 9, 10],
        6 => [2, 5, 10, 11, NONE, NONE],
        7 => [3, 8, 12, NONE, NONE, NONE],
        8 => [3, 4, 7, 9, 12, 13],
        9 => [4, 5, 8, 10, 13, 14],
        10 => [5, 6, 9, 11, 14, 15],
        11 => [6, 10, 15, NONE, NONE, NONE],
        12 => [7, 8, 13, 16, NONE, NONE],
        13 => [8, 9, 12, 14, 16, 17],
        14 => [9, 10, 13, 15, 17, 18],
        15 => [10, 11, 14, 18, NONE, NONE],
        16 => [12, 13, 17, NONE, NONE, NONE],
        17 => [13, 14, 16, 18, NONE, NONE],
        18 => [14, 15, 17, NONE, NONE, NONE],
        _ => [NONE; 6],
    }
}

/// The table row of the two coastal vertices that give access to port `p`.
pub open spec fn spec_port_vertices(p: int) -> Seq<usize> {
    if p == 0 {
        seq![0usize, 1]
    } else if p == 1 {
        seq![3usize, 4]
    } else if p == 2 {
        seq![7usize, 17]
    } else if p == 3 {
        seq![14usize, 15]
    } else if p == 4 {
        seq![26usize, 37]
    } else if p == 5 {
        seq![28usize, 38]
    } else if p == 6 {
        seq![45usize, 46]
    } else if p == 7 {
        seq![47usize, 48]
    } else if p == 8 {
        seq![50usize, 51]
    } else {
        seq![NONE, NONE]
    }
}

/// Returns the two coastal vertices that give access to port `p`.
pub fn port_vertices(p: usize) -> (r: [usize; 2])
    requires
        p < NUM_PORTS,
    ensures
        r@ == spec_port_vertices(p as int),
        full_row(r@, NUM_VERTICES),
{
    match p {
        0 => [0, 1],
        1 => [3, 4],
        2 => [7, 17],
        3 => [14, 15],
        4 => [26, 37],
        5 => [28, 38],
        6 => [45, 46],
        7 => [47, 48],
        8 => [50, 51],
        _ => [NONE; 2],
    }
}


/// The edge rows of the vertices are padded rows of edges, none of them empty.
pub proof fn lemma_vertex_edges_padded(v: int)
    requires
        0 <= v < NUM_VERTICES,
    ensures
        padded_row(spec_vertex_edges(v), NUM_EDGES),
        spec_vertex_edges(v).len() == 3,
        spec_vertex_edges(v)[0] != NONE,
{
}

} // verus!
