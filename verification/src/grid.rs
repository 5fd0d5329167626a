//! The button grid of manual control: the visible nodes laid out in rows by
//! their y position and in columns by their x position, so that each button
//! sits where its destination is on the machine.
use vstd::prelude::*;
use crate::nodes::{hover_suffix, NodeView, Nodes};
use crate::text::contains_seq;
use crate::nodes::{first_index, lemma_first_index};

verus! {

/// A node in the grid: its position in the node list, its x and its y (in
/// thousandths of a centimetre).
pub type Cell = (int, int, int);

/// Whether node `n` gets a button: it is no hover node and not hidden.
pub open spec fn grid_visible(n: NodeView) -> bool {
    !contains_seq(n.name, hover_suffix()) && !n.hide
}

/// The nodes that get a button, in list order.
pub open spec fn visible_cells(s: Seq<NodeView>) -> Seq<Cell>
    decreases s.len(),
{
    if s.len() == 0 {
        Seq::empty()
    } else {
        let r = visible_cells(s.drop_last());
        if grid_visible(s.last()) {
            r.push(((s.len() - 1) as int, s.last().x, s.last().y))
        } else {
            r
        }
    }
}

/// The key cells are ordered by: x or y.
pub open spec fn key_of(e: Cell, by_x: bool) -> int {
    if by_x {
        e.1
    } else {
        e.2
    }
}

/// Where a cell of key `k` goes in a list ordered greatest key first: after
/// every cell whose key is not less.
pub open spec fn slot(l: Seq<Cell>, k: int, by_x: bool) -> int {
    match first_index(l, |e: Cell| key_of(e, by_x) < k) {
        Some(p) => p,
        None => l.len() as int,
    }
}

/// Cells ordered greatest key first; cells of equal key keep their order.
pub open spec fn sort_desc(s: Seq<Cell>, by_x: bool) -> Seq<Cell>
    decreases s.len(),
{
    if s.len() == 0 {
        s
    } else {
        let l = sort_desc(s.drop_last(), by_x);
        l.insert(slot(l, key_of(s.last(), by_x), by_x), s.last())
    }
}

/// Cells, ordered by y, split into rows: a cell joins the current row when
/// its y is within 1 cm of the y that started the row, else it starts a
/// new row. Also gives the y that started the last row.
pub open spec fn rows_of(s: Seq<Cell>) -> (Seq<Seq<Cell>>, int)
    decreases s.len(),
{
    if s.len() == 0 {
        (seq![Seq::empty()], 0)
    } else if s.len() == 1 {
        (seq![seq![s[0]]], s[0].2)
    } else {
        let (rows, t) = rows_of(s.drop_last());
        let e = s.last();
        if -1000 < e.2 - t < 1000 {
            (rows.update(rows.len() - 1, rows.last().push(e)), t)
        } else {
            (rows.push(seq![e]), e.2)
        }
    }
}

/// The distance of `v` from zero.
pub open spec fn dist(v: int) -> int {
    if v < 0 {
        -v
    } else {
        v
    }
}

/// The greatest distance of a cell's x from zero.
pub open spec fn max_dist(s: Seq<Cell>) -> int
    decreases s.len(),
{
    if s.len() == 0 {
        0
    } else {
        let m = max_dist(s.drop_last());
        if dist(s.last().1) > m {
            dist(s.last().1)
        } else {
            m
        }
    }
}

/// The number of columns before empty ones are dropped: the greatest
/// distance of a cell's x from zero, in whole centimetres rounded up, and
/// room past it for every cell, so that each cell of a row finds its
/// column.
pub open spec fn grid_width(s: Seq<Cell>) -> nat {
    ((max_dist(s) + 999) / 1000 + s.len() + 2) as nat
}

/// The first `n` columns of a row (ordered by x, greatest first) and how
/// many of its cells they hold: column `i` takes the next cell once `i`
/// is more than 1 cm past that cell's distance from zero.
pub open spec fn fill(row: Seq<Cell>, n: nat) -> (Seq<Option<int>>, int)
    decreases n,
{
    if n == 0 {
        (Seq::empty(), 0)
    } else {
        let (cells, ri) = fill(row, (n - 1) as nat);
        let i = n - 1;
        if ri >= row.len() || i * 1000 - dist(row[ri].1) <= 1000 {
            (cells.push(None), ri)
        } else {
            (cells.push(Some(row[ri].0)), ri + 1)
        }
    }
}

/// Whether some row has a button in column `j`.
pub open spec fn column_used(g: Seq<Seq<Option<int>>>, j: int) -> bool {
    exists|r: int| 0 <= r < g.len() && (#[trigger] g[r][j]) is Some
}

/// The columns among the first `n` that some row uses, in order.
pub open spec fn used_columns(g: Seq<Seq<Option<int>>>, n: nat) -> Seq<int>
    decreases n,
{
    if n == 0 {
        Seq::empty()
    } else {
        let r = used_columns(g, (n - 1) as nat);
        if column_used(g, n - 1) {
            r.push(n - 1)
        } else {
            r
        }
    }
}

/// The full grid before empty columns are dropped.
pub open spec fn full_grid(s: Seq<NodeView>) -> Seq<Seq<Option<int>>> {
    let cells = visible_cells(s);
    let rows = rows_of(sort_desc(cells, false)).0;
    let w = grid_width(cells);
    rows.map_values(|r: Seq<Cell>| fill(sort_desc(r, true), w).0)
}

/// The grid of buttons for the nodes `s`: for each row (greatest y first)
/// the used columns (greatest x first), each holding the position of the
/// node whose button sits there, or nothing.
pub open spec fn grid_of(s: Seq<NodeView>) -> Seq<Seq<Option<int>>> {
    let g = full_grid(s);
    let cols = used_columns(g, grid_width(visible_cells(s)));
    g.map_values(|row: Seq<Option<int>>| cols.map_values(|j: int| row[j]))
}

/// The view of an exec cell.
pub open spec fn cell_view(e: (usize, i64, i64)) -> Cell {
    (e.0 as int, e.1 as int, e.2 as int)
}

/// The views of exec cells.
pub open spec fn cell_views(v: Seq<(usize, i64, i64)>) -> Seq<Cell> {
    v.map_values(|e: (usize, i64, i64)| cell_view(e))
}

/// The views of a grid.
pub open spec fn grid_views(g: Seq<Vec<Option<usize>>>) -> Seq<Seq<Option<int>>> {
    g.map_values(
        |row: Vec<Option<usize>>|
            row@.map_values(
                |c: Option<usize>|
                    match c {
                        Some(i) => Some(i as int),
                        None => None,
                    },
            ),
    )
}

fn visible_of(nodes: &Nodes) -> (r: Vec<(usize, i64, i64)>)
    ensures
        cell_views(r@) == visible_cells(nodes@),
{
    let mut r: Vec<(usize, i64, i64)> = Vec::new();
    for i in 0..nodes.node.len()
        invariant
            cell_views(r@) == visible_cells(nodes@.take(i as int)),
    {
        proof {
            assert(nodes@.take(i + 1).drop_last() =~= nodes@.take(i as int));
            reveal_strlit("_hover");
            assert("_hover"@ =~= hover_suffix());
        }
        let n = &nodes.node[i];
        if !crate::text::contains_str(n.name.as_str(), "_hover") && !n.hide {
            let ghost before = r@;
            r.push((i, n.x, n.y));
            assert(cell_views(r@) =~= cell_views(before).push((i as int, n.x as int, n.y as int)));
        }
    }
    assert(nodes@.take(nodes@.len() as int) =~= nodes@);
    r
}

fn key_exec(e: (usize, i64, i64), by_x: bool) -> (k: i64)
    ensures
        k == key_of(cell_view(e), by_x),
{
    if by_x {
        e.1
    } else {
        e.2
    }
}

/// Orders cells greatest key first, keeping the order of equal keys, as
/// `sort_desc` says.
fn sort_cells(v: &Vec<(usize, i64, i64)>, by_x: bool) -> (r: Vec<(usize, i64, i64)>)
    ensures
        cell_views(r@) == sort_desc(cell_views(v@), by_x),
{
    let ghost s = cell_views(v@);
    let mut l: Vec<(usize, i64, i64)> = Vec::new();
    for i in 0..v.len()
        invariant
            s == cell_views(v@),
            cell_views(l@) == sort_desc(s.take(i as int), by_x),
    {
        let e = v[i];
        let k = key_exec(e, by_x);
        let ghost lv = cell_views(l@);
        let ghost p_fn = |c: Cell| key_of(c, by_x) < k;
        let mut p: usize = 0;
        while p < l.len() && key_exec(l[p], by_x) >= k
            invariant
                lv == cell_views(l@),
                p <= l@.len(),
                p_fn == (|c: Cell| key_of(c, by_x) < k),
                forall|a: int| 0 <= a < p ==> !p_fn(#[trigger] lv[a]),
            decreases l@.len() - p,
        {
            assert(lv[p as int] == cell_view(l@[p as int]));
            p = p + 1;
        }
        proof {
            lemma_first_index(lv, p_fn, p as int);
            if p < l@.len() {
                assert(lv[p as int] == cell_view(l@[p as int]));
            }
            assert(s.take(i + 1).drop_last() =~= s.take(i as int));
            assert(s.take(i + 1).last() == cell_view(e));
        }
        l.insert(p, e);
        assert(cell_views(l@) =~= lv.insert(p as int, cell_view(e)));
    }
    assert(s.take(s.len() as int) =~= s);
    l
}

/// Splits cells ordered by y into rows, as `rows_of` says.
fn split_rows(v: &Vec<(usize, i64, i64)>) -> (r: Vec<Vec<(usize, i64, i64)>>)
    requires
        v@.len() > 0,
    ensures
        r@.map_values(|row: Vec<(usize, i64, i64)>| cell_views(row@)) == rows_of(cell_views(v@)).0,
        r@.len() > 0,
{
    let ghost s = cell_views(v@);
    let mut rows: Vec<Vec<(usize, i64, i64)>> = Vec::new();
    let mut first: Vec<(usize, i64, i64)> = Vec::new();
    first.push(v[0]);
    rows.push(first);
    let mut t: i64 = v[0].2;
    proof {
        assert(s.take(1) =~= seq![s[0]]);
        assert(cell_views(rows@[0]@) =~= seq![s[0]]);
        assert(rows@.map_values(|row: Vec<(usize, i64, i64)>| cell_views(row@)) =~= seq![seq![s[0]]]);
    }
    for i in 1..v.len()
        invariant
            s == cell_views(v@),
            rows@.len() > 0,
            rows@.map_values(|row: Vec<(usize, i64, i64)>| cell_views(row@)) == rows_of(s.take(i as int)).0,
            t as int == rows_of(s.take(i as int)).1,
    {
        let e = v[i];
        let ghost before = rows@.map_values(|row: Vec<(usize, i64, i64)>| cell_views(row@));
        proof {
            assert(s.take(i + 1).drop_last() =~= s.take(i as int));
            assert(s.take(i + 1).last() == cell_view(e));
        }
        let d = e.2 as i128 - t as i128;
        if -1000 < d && d < 1000 {
            let last = rows.len() - 1;
            let mut row = rows.remove(last);
            let ghost rv = cell_views(row@);
            row.push(e);
            assert(cell_views(row@) =~= rv.push(cell_view(e)));
            rows.push(row);
            assert(rows@.map_values(|row: Vec<(usize, i64, i64)>| cell_views(row@)) =~= before.update(
                before.len() - 1,
                before.last().push(cell_view(e)),
            ));
        } else {
            let mut row: Vec<(usize, i64, i64)> = Vec::new();
            row.push(e);
            assert(cell_views(row@) =~= seq![cell_view(e)]);
            rows.push(row);
            t = e.2;
            assert(rows@.map_values(|row: Vec<(usize, i64, i64)>| cell_views(row@)) =~= before.push(
                seq![cell_view(e)],
            ));
        }
    }
    assert(s.take(s.len() as int) =~= s);
    rows
}

/// The greatest distance of a cell's x from zero.
fn largest_dist(v: &Vec<(usize, i64, i64)>) -> (m: u64)
    ensures
        m as int == max_dist(cell_views(v@)),
{
    let ghost s = cell_views(v@);
    let mut m: u64 = 0;
    for i in 0..v.len()
        invariant
            s == cell_views(v@),
            m as int == max_dist(s.take(i as int)),
    {
        proof {
            assert(s.take(i + 1).drop_last() =~= s.take(i as int));
        }
        let x = v[i].1 as i128;
        let d: u64 = if x < 0 { (0 - x) as u64 } else { x as u64 };
        if d > m {
            m = d;
        }
    }
    assert(s.take(s.len() as int) =~= s);
    m
}

/// The columns of a row, as `fill` says.
fn fill_row(row: &Vec<(usize, i64, i64)>, w: u128) -> (r: Vec<Option<usize>>)
    requires
        w <= 0x1_0000_0000_0000_0000_0000,
    ensures
        r@.map_values(
            |c: Option<usize>|
                match c {
                    Some(i) => Some(i as int),
                    None => None,
                },
        ) == fill(cell_views(row@), w as nat).0,
{
    let ghost s = cell_views(row@);
    let mut cells: Vec<Option<usize>> = Vec::new();
    let mut ri: usize = 0;
    let mut i: u128 = 0;
    while i < w
        invariant
            s == cell_views(row@),
            i <= w,
            w <= 0x1_0000_0000_0000_0000_0000,
            cells@.map_values(
                |c: Option<usize>|
                    match c {
                        Some(i) => Some(i as int),
                        None => None,
                    },
            ) == fill(s, i as nat).0,
            ri as int == fill(s, i as nat).1,
            ri <= row@.len(),
        decreases w - i,
    {
        let ghost before = cells@;
        if ri >= row.len() {
            cells.push(None);
        } else {
            let x = row[ri].1 as i128;
            let a: i128 = if x < 0 { -x } else { x };
            if (i as i128) * 1000 - a <= 1000 {
                cells.push(None);
            } else {
                cells.push(Some(row[ri].0));
                ri = ri + 1;
            }
        }
        assert(cells@.map_values(
            |c: Option<usize>|
                match c {
                    Some(i) => Some(i as int),
                    None => None,
                },
        ) =~= fill(s, (i + 1) as nat).0);
        i = i + 1;
    }
    cells
}

/// Whether some row has a button in column `j`.
fn column_in_use(g: &Vec<Vec<Option<usize>>>, j: usize, w: usize) -> (r: bool)
    requires
        j < w,
        forall|k: int| 0 <= k < g@.len() ==> #[trigger] g@[k]@.len() == w,
    ensures
        r == column_used(grid_views(g@), j as int),
{
    for k in 0..g.len()
        invariant
            j < w,
            forall|q: int| 0 <= q < g@.len() ==> #[trigger] g@[q]@.len() == w,
            forall|q: int| 0 <= q < k ==> (#[trigger] g@[q]@[j as int]) is None,
    {
        if g[k][j].is_some() {
            assert(grid_views(g@)[k as int][j as int] is Some);
            return true;
        }
    }
    proof {
        assert forall|q: int| 0 <= q < grid_views(g@).len() implies !(#[trigger] grid_views(g@)[q][j as int] is Some) by {
            assert(g@[q]@[j as int] is None);
        }
    }
    false
}

/// The button grid of manual control for the nodes `nodes`, as `grid_of`
/// says.
pub fn grid(nodes: &Nodes) -> (r: Vec<Vec<Option<usize>>>)
    requires
        visible_cells(nodes@).len() > 0,
    ensures
        grid_views(r@) == grid_of(nodes@),
{
    let cells = visible_of(nodes);
    let by_y = sort_cells(&cells, false);
    proof {
        lemma_sort_len(cell_views(cells@), false);
    }
    let rows = split_rows(&by_y);
    let a = largest_dist(&cells);
    let cm: u64 = a / 1000 + if a % 1000 == 0 { 0 } else { 1 };
    let w: u128 = cm as u128 + cells.len() as u128 + 2;
    proof {
        assert(cm as int == (a as int + 999) / 1000) by (nonlinear_arith)
            requires
                cm == a / 1000 + if a % 1000 == 0 { 0u64 } else { 1u64 },
        ;
        lemma_cells_len(cells@);
        assert(w as nat == grid_width(cell_views(cells@)));
    }
    let ghost rv = rows@.map_values(|row: Vec<(usize, i64, i64)>| cell_views(row@));
    let mut full: Vec<Vec<Option<usize>>> = Vec::new();
    for k in 0..rows.len()
        invariant
            rv == rows@.map_values(|row: Vec<(usize, i64, i64)>| cell_views(row@)),
            full@.len() == k,
            forall|q: int| 0 <= q < k ==> #[trigger] grid_views(full@)[q] == fill(sort_desc(rv[q], true), w as nat).0,
            forall|q: int| 0 <= q < k ==> (#[trigger] full@[q])@.len() == w,
            w <= 0x1_0000_0000_0000_0000_0000,
    {
        let sorted = sort_cells(&rows[k], true);
        let row = fill_row(&sorted, w);
        proof {
            lemma_fill_len(cell_views(sorted@), w as nat);
        }
        let ghost before = full@;
        full.push(row);
        assert(grid_views(full@) =~= grid_views(before).push(grid_views(full@)[k as int]));
    }
    let ghost g = grid_views(full@);
    assert(g =~= full_grid(nodes@));
    assert(full@[0]@.len() == w);
    let wu = full[0].len();
    let mut used: Vec<usize> = Vec::new();
    let mut j: usize = 0;
    while j < wu
        invariant
            wu as nat == w as nat,
            g == grid_views(full@),
            forall|q: int| 0 <= q < full@.len() ==> (#[trigger] full@[q])@.len() == wu,
            j <= wu,
            used@.map_values(|c: usize| c as int) == used_columns(g, j as nat),
            forall|q: int| 0 <= q < used@.len() ==> #[trigger] used@[q] < j,
        decreases wu - j,
    {
        if column_in_use(&full, j, wu) {
            let ghost before = used@;
            used.push(j);
            assert(used@.map_values(|c: usize| c as int) =~= before.map_values(|c: usize| c as int).push(j as int));
        }
        j = j + 1;
    }
    let mut r: Vec<Vec<Option<usize>>> = Vec::new();
    for k in 0..full.len()
        invariant
            g == grid_views(full@),
            forall|q: int| 0 <= q < full@.len() ==> (#[trigger] full@[q])@.len() == wu,
            forall|q: int| 0 <= q < used@.len() ==> #[trigger] used@[q] < wu,
            used@.map_values(|c: usize| c as int) == used_columns(g, wu as nat),
            r@.len() == k,
            forall|q: int| 0 <= q < k ==> #[trigger] grid_views(r@)[q] == used_columns(g, wu as nat).map_values(|c: int| g[q][c]),
    {
        let mut row: Vec<Option<usize>> = Vec::new();
        for c in 0..used.len()
            invariant
                k < full@.len(),
                full@[k as int]@.len() == wu,
                forall|q: int| 0 <= q < used@.len() ==> #[trigger] used@[q] < wu,
                row@.len() == c,
                forall|q: int| 0 <= q < c ==> #[trigger] row@[q] == full@[k as int]@[used@[q] as int],
        {
            row.push(full[k][used[c]]);
        }
        let ghost before = r@;
        proof {
            let cols = used_columns(g, wu as nat);
            assert(cols =~= used@.map_values(|c: usize| c as int));
            assert(grid_views(before.push(row))[k as int] =~= cols.map_values(|c: int| g[k as int][c]));
        }
        r.push(row);
        assert(grid_views(r@) =~= grid_views(before).push(grid_views(r@)[k as int]));
    }
    assert(grid_views(r@) =~= grid_of(nodes@));
    r
}

proof fn lemma_sort_len(s: Seq<Cell>, by_x: bool)
    ensures
        sort_desc(s, by_x).len() == s.len(),
    decreases s.len(),
{
    if s.len() > 0 {
        lemma_sort_len(s.drop_last(), by_x);
        let l = sort_desc(s.drop_last(), by_x);
        crate::nodes::first_index_bound(l, |e: Cell| key_of(e, by_x) < key_of(s.last(), by_x));
        l.insert_ensures(slot(l, key_of(s.last(), by_x), by_x), s.last());
    }
}

proof fn lemma_cells_len(v: Seq<(usize, i64, i64)>)
    ensures
        cell_views(v).len() == v.len(),
{
}

proof fn lemma_fill_len(row: Seq<Cell>, n: nat)
    ensures
        fill(row, n).0.len() == n,
        0 <= fill(row, n).1 <= row.len(),
    decreases n,
{
    if n > 0 {
        lemma_fill_len(row, (n - 1) as nat);
    }
}


/// How many entries of a grid row hold the node at position `p`.
pub open spec fn row_count(row: Seq<Option<int>>, p: int) -> nat
    decreases row.len(),
{
    if row.len() == 0 {
        0
    } else {
        row_count(row.drop_last(), p) + if row.last() == Some(p) {
            1nat
        } else {
            0nat
        }
    }
}

/// How many entries of a grid hold the node at position `p`.
pub open spec fn grid_count(g: Seq<Seq<Option<int>>>, p: int) -> nat
    decreases g.len(),
{
    if g.len() == 0 {
        0
    } else {
        grid_count(g.drop_last(), p) + row_count(g.last(), p)
    }
}

/// How many cells are of the node at position `p`.
pub open spec fn cell_count(q: Seq<Cell>, p: int) -> nat
    decreases q.len(),
{
    if q.len() == 0 {
        0
    } else {
        cell_count(q.drop_last(), p) + if q.last().0 == p {
            1nat
        } else {
            0nat
        }
    }
}

/// How many cells of the rows `rs` are of the node at position `p`.
spec fn rows_count(rs: Seq<Seq<Cell>>, p: int) -> nat
    decreases rs.len(),
{
    if rs.len() == 0 {
        0
    } else {
        rows_count(rs.drop_last(), p) + cell_count(rs.last(), p)
    }
}

/// Whether every cell's x is at most `a` from zero.
spec fn within(q: Seq<Cell>, a: int) -> bool {
    forall|k: int| 0 <= k < q.len() ==> dist(#[trigger] q[k].1) <= a
}

proof fn lemma_visible_count(s: Seq<NodeView>, p: int)
    ensures
        cell_count(visible_cells(s), p) == (if 0 <= p < s.len() && grid_visible(s[p]) {
            1nat
        } else {
            0nat
        }),
    decreases s.len(),
{
    if s.len() > 0 {
        let sp = s.drop_last();
        lemma_visible_count(sp, p);
        if 0 <= p < sp.len() {
            assert(sp[p] == s[p]);
        }
        if p == s.len() - 1 {
            assert(s[p] == s.last());
        }
        let c = visible_cells(sp);
        if grid_visible(s.last()) {
            let e = ((s.len() - 1) as int, s.last().x, s.last().y);
            assert(c.push(e).drop_last() =~= c);
        }
    }
}

proof fn lemma_max_dist(q: Seq<Cell>)
    ensures
        within(q, max_dist(q)),
        max_dist(q) >= 0,
    decreases q.len(),
{
    if q.len() > 0 {
        lemma_max_dist(q.drop_last());
        assert forall|k: int| 0 <= k < q.len() implies dist(#[trigger] q[k].1) <= max_dist(q) by {
            if k < q.len() - 1 {
                assert(q[k] == q.drop_last()[k]);
            }
        }
    }
}

proof fn lemma_count_concat(a: Seq<Cell>, b: Seq<Cell>, p: int)
    ensures
        cell_count(a + b, p) == cell_count(a, p) + cell_count(b, p),
    decreases b.len(),
{
    if b.len() == 0 {
        assert(a + b =~= a);
    } else {
        lemma_count_concat(a, b.drop_last(), p);
        assert((a + b).drop_last() =~= a + b.drop_last());
    }
}

proof fn lemma_count_insert(l: Seq<Cell>, i: int, e: Cell, p: int)
    requires
        0 <= i <= l.len(),
    ensures
        cell_count(l.insert(i, e), p) == cell_count(l, p) + if e.0 == p {
            1nat
        } else {
            0nat
        },
{
    let a = l.take(i);
    let b = l.skip(i);
    assert(l =~= a + b);
    assert(l.insert(i, e) =~= (a + seq![e]) + b);
    lemma_count_concat(a, b, p);
    lemma_count_concat(a + seq![e], b, p);
    lemma_count_concat(a, seq![e], p);
    assert(seq![e].drop_last() =~= Seq::<Cell>::empty());
    assert(cell_count(Seq::<Cell>::empty(), p) == 0);
    assert(cell_count(seq![e], p) == cell_count(Seq::<Cell>::empty(), p) + if e.0 == p {
        1nat
    } else {
        0nat
    });
}

proof fn lemma_slot_bound(l: Seq<Cell>, k: int, by_x: bool)
    ensures
        0 <= slot(l, k, by_x) <= l.len(),
{
    crate::nodes::first_index_bound(l, |e: Cell| key_of(e, by_x) < k);
}

proof fn lemma_sort_count(q: Seq<Cell>, by_x: bool, p: int)
    ensures
        cell_count(sort_desc(q, by_x), p) == cell_count(q, p),
    decreases q.len(),
{
    if q.len() > 0 {
        let l = sort_desc(q.drop_last(), by_x);
        lemma_sort_count(q.drop_last(), by_x, p);
        lemma_sort_len(q.drop_last(), by_x);
        lemma_slot_bound(l, key_of(q.last(), by_x), by_x);
        lemma_count_insert(l, slot(l, key_of(q.last(), by_x), by_x), q.last(), p);
    }
}

proof fn lemma_sort_within(q: Seq<Cell>, by_x: bool, a: int)
    requires
        within(q, a),
    ensures
        within(sort_desc(q, by_x), a),
        sort_desc(q, by_x).len() == q.len(),
    decreases q.len(),
{
    lemma_sort_len(q, by_x);
    if q.len() > 0 {
        let qp = q.drop_last();
        assert forall|k: int| 0 <= k < qp.len() implies dist(#[trigger] qp[k].1) <= a by {
            assert(qp[k] == q[k]);
        }
        lemma_sort_within(qp, by_x, a);
        let l = sort_desc(qp, by_x);
        let i = slot(l, key_of(q.last(), by_x), by_x);
        lemma_slot_bound(l, key_of(q.last(), by_x), by_x);
        let r = l.insert(i, q.last());
        assert(dist(q[q.len() - 1].1) <= a);
        assert forall|k: int| 0 <= k < r.len() implies dist(#[trigger] r[k].1) <= a by {
            if k < i {
                assert(r[k] == l[k]);
            } else if k > i {
                assert(r[k] == l[k - 1]);
            }
        }
    }
}

proof fn lemma_rows_count(q: Seq<Cell>, p: int)
    ensures
        rows_count(rows_of(q).0, p) == cell_count(q, p),
    decreases q.len(),
{
    if q.len() == 1 {
        assert(seq![seq![q[0]]].drop_last() =~= Seq::<Seq<Cell>>::empty());
        assert(seq![q[0]].drop_last() =~= Seq::<Cell>::empty());
        assert(q.drop_last() =~= Seq::<Cell>::empty());
        assert(rows_count(Seq::<Seq<Cell>>::empty(), p) == 0);
        assert(cell_count(Seq::<Cell>::empty(), p) == 0);
        assert(cell_count(seq![q[0]], p) == cell_count(q, p));
        assert(rows_count(seq![seq![q[0]]], p) == cell_count(seq![q[0]], p));
    } else if q.len() > 1 {
        let (rows, t) = rows_of(q.drop_last());
        lemma_rows_count(q.drop_last(), p);
        lemma_rows_nonempty(q.drop_last());
        let e = q.last();
        if -1000 < e.2 - t < 1000 {
            let nr = rows.update(rows.len() - 1, rows.last().push(e));
            assert(nr.drop_last() =~= rows.drop_last());
            assert(nr.last() == rows.last().push(e));
            assert(rows.last().push(e).drop_last() =~= rows.last());
        } else {
            let nr = rows.push(seq![e]);
            assert(nr.drop_last() =~= rows);
            assert(seq![e].drop_last() =~= Seq::<Cell>::empty());
            assert(cell_count(Seq::<Cell>::empty(), p) == 0);
        }
    } else {
        assert(seq![Seq::<Cell>::empty()].drop_last() =~= Seq::<Seq<Cell>>::empty());
        assert(rows_count(Seq::<Seq<Cell>>::empty(), p) == 0);
        assert(cell_count(Seq::<Cell>::empty(), p) == 0);
    }
}

proof fn lemma_rows_nonempty(q: Seq<Cell>)
    ensures
        rows_of(q).0.len() > 0,
    decreases q.len(),
{
    if q.len() > 1 {
        lemma_rows_nonempty(q.drop_last());
    }
}

proof fn lemma_rows_within(q: Seq<Cell>, a: int)
    requires
        within(q, a),
    ensures
        forall|r: int|
            0 <= r < rows_of(q).0.len() ==> within(#[trigger] rows_of(q).0[r], a) && rows_of(q).0[r].len() <= q.len(),
    decreases q.len(),
{
    if q.len() == 1 {
        assert(dist(q[0].1) <= a);
    } else if q.len() > 1 {
        let qp = q.drop_last();
        assert forall|k: int| 0 <= k < qp.len() implies dist(#[trigger] qp[k].1) <= a by {
            assert(qp[k] == q[k]);
        }
        lemma_rows_within(qp, a);
        lemma_rows_nonempty(qp);
        let (rows, t) = rows_of(qp);
        let e = q.last();
        assert(dist(q[q.len() - 1].1) <= a);
        if -1000 < e.2 - t < 1000 {
            let x = rows.last().push(e);
            assert(within(rows[rows.len() - 1], a));
            assert forall|k: int| 0 <= k < x.len() implies dist(#[trigger] x[k].1) <= a by {
                if k < x.len() - 1 {
                    assert(x[k] == rows.last()[k]);
                }
            }
        } else {
            assert(within(seq![e], a));
        }
    }
}

proof fn lemma_fill_progress(row: Seq<Cell>, n: nat, a: int)
    requires
        within(row, a),
        a >= 0,
    ensures
        fill(row, n).1 >= row.len() || fill(row, n).1 >= n - (a + 999) / 1000 - 2,
    decreases n,
{
    lemma_fill_len(row, n);
    if n > 0 {
        lemma_fill_progress(row, (n - 1) as nat, a);
        lemma_fill_len(row, (n - 1) as nat);
        let (cells, ri) = fill(row, (n - 1) as nat);
        let i = n - 1;
        let d = (a + 999) / 1000;
        assert(d * 1000 >= a) by (nonlinear_arith)
            requires
                d == (a + 999) / 1000,
                a >= 0,
        ;
        if ri < row.len() {
            assert(dist(row[ri].1) <= a);
        }
    }
}

proof fn lemma_fill_count(row: Seq<Cell>, n: nat, p: int)
    ensures
        row_count(fill(row, n).0, p) == cell_count(row.take(fill(row, n).1), p),
    decreases n,
{
    lemma_fill_len(row, n);
    if n == 0 {
        assert(row.take(0) =~= Seq::<Cell>::empty());
    } else {
        lemma_fill_count(row, (n - 1) as nat, p);
        lemma_fill_len(row, (n - 1) as nat);
        let (cells, ri) = fill(row, (n - 1) as nat);
        let (cells2, ri2) = fill(row, n);
        assert(cells2.drop_last() =~= cells);
        if ri2 == ri + 1 {
            assert(row.take(ri + 1).drop_last() =~= row.take(ri));
            assert(row.take(ri + 1).last() == row[ri]);
        }
    }
}

/// The grid rows filled from the rows `rs` with `w` columns each.
spec fn filled(rs: Seq<Seq<Cell>>, w: nat) -> Seq<Seq<Option<int>>> {
    rs.map_values(|r: Seq<Cell>| fill(sort_desc(r, true), w).0)
}

proof fn lemma_filled_count(rs: Seq<Seq<Cell>>, w: nat, a: int, p: int)
    requires
        a >= 0,
        forall|r: int| 0 <= r < rs.len() ==> within(#[trigger] rs[r], a) && (a + 999) / 1000 + rs[r].len() + 2 <= w,
    ensures
        grid_count(filled(rs, w), p) == rows_count(rs, p),
    decreases rs.len(),
{
    if rs.len() > 0 {
        let rp = rs.drop_last();
        assert forall|r: int| 0 <= r < rp.len() implies within(#[trigger] rp[r], a) && (a + 999) / 1000 + rp[r].len()
            + 2 <= w by {
            assert(rp[r] == rs[r]);
        }
        lemma_filled_count(rp, w, a, p);
        assert(filled(rs, w).drop_last() =~= filled(rp, w));
        let last = rs.last();
        assert(within(rs[rs.len() - 1], a));
        let sr = sort_desc(last, true);
        lemma_sort_within(last, true, a);
        lemma_sort_count(last, true, p);
        lemma_fill_progress(sr, w, a);
        lemma_fill_len(sr, w);
        lemma_fill_count(sr, w, p);
        assert(sr.take(sr.len() as int) =~= sr);
        assert(filled(rs, w).last() == fill(sr, w).0);
    }
}

proof fn lemma_used_count(g: Seq<Seq<Option<int>>>, r: int, n: nat, w: nat, p: int)
    requires
        0 <= r < g.len(),
        n <= w,
        forall|k: int| 0 <= k < g.len() ==> #[trigger] g[k].len() == w,
    ensures
        row_count(used_columns(g, n).map_values(|j: int| g[r][j]), p) == row_count(g[r].take(n as int), p),
    decreases n,
{
    if n == 0 {
        assert(g[r].take(0) =~= Seq::<Option<int>>::empty());
        assert(used_columns(g, n).map_values(|j: int| g[r][j]) =~= Seq::<Option<int>>::empty());
    } else {
        lemma_used_count(g, r, (n - 1) as nat, w, p);
        let row = g[r];
        assert(row.take(n as int).drop_last() =~= row.take(n - 1));
        assert(row.take(n as int).last() == row[n - 1]);
        let prev = used_columns(g, (n - 1) as nat);
        if column_used(g, n - 1) {
            assert(prev.push(n - 1).map_values(|j: int| g[r][j]).drop_last() =~= prev.map_values(|j: int| g[r][j]));
        } else {
            assert(!(g[r][n - 1] is Some));
        }
    }
}

proof fn lemma_columns_count(g: Seq<Seq<Option<int>>>, k: nat, w: nat, p: int)
    requires
        k <= g.len(),
        forall|q: int| 0 <= q < g.len() ==> #[trigger] g[q].len() == w,
    ensures
        grid_count(
            g.take(k as int).map_values(|row: Seq<Option<int>>| used_columns(g, w).map_values(|j: int| row[j])),
            p,
        ) == grid_count(g.take(k as int), p),
    decreases k,
{
    let f = |row: Seq<Option<int>>| used_columns(g, w).map_values(|j: int| row[j]);
    if k == 0 {
        assert(g.take(0).map_values(f) =~= Seq::<Seq<Option<int>>>::empty());
        assert(g.take(0) =~= Seq::<Seq<Option<int>>>::empty());
    } else {
        lemma_columns_count(g, (k - 1) as nat, w, p);
        assert(g.take(k as int).drop_last() =~= g.take(k - 1));
        assert(g.take(k as int).map_values(f).drop_last() =~= g.take(k - 1).map_values(f));
        assert(g.take(k as int).last() == g[k - 1]);
        lemma_used_count(g, k - 1, w, w, p);
        assert(g[k - 1].take(w as int) =~= g[k - 1]);
    }
}

proof fn lemma_full_grid_rows(s: Seq<NodeView>)
    ensures
        forall|q: int| 0 <= q < full_grid(s).len() ==> #[trigger] full_grid(s)[q].len() == grid_width(visible_cells(s)),
{
    let cells = visible_cells(s);
    let rows = rows_of(sort_desc(cells, false)).0;
    let w = grid_width(cells);
    assert forall|q: int| 0 <= q < full_grid(s).len() implies #[trigger] full_grid(s)[q].len() == w by {
        lemma_fill_len(sort_desc(rows[q], true), w);
    }
}

proof fn lemma_used_columns_used(g: Seq<Seq<Option<int>>>, n: nat)
    ensures
        forall|j: int| 0 <= j < used_columns(g, n).len() ==> column_used(g, #[trigger] used_columns(g, n)[j]),
    decreases n,
{
    if n > 0 {
        lemma_used_columns_used(g, (n - 1) as nat);
        let prev = used_columns(g, (n - 1) as nat);
        assert forall|j: int| 0 <= j < used_columns(g, n).len() implies column_used(g, #[trigger] used_columns(g, n)[j]) by {
            if j < prev.len() {
                assert(used_columns(g, n)[j] == prev[j]);
            }
        }
    }
}

/// Every destination gets exactly one button: for each position `p`, the
/// grid holds the node at `p` once where it is a node of the list that is
/// neither hidden nor a hover node, and nowhere otherwise. All rows of the
/// grid have the same length, and every column holds a button in some row.
pub proof fn lemma_grid_buttons(s: Seq<NodeView>, p: int)
    ensures
        grid_count(grid_of(s), p) == (if 0 <= p < s.len() && grid_visible(s[p]) {
            1nat
        } else {
            0nat
        }),
        forall|r: int| 0 <= r < grid_of(s).len() ==> #[trigger] grid_of(s)[r].len() == grid_of(s)[0].len(),
        forall|j: int| 0 <= j < grid_of(s)[0].len() ==> #[trigger] column_used(grid_of(s), j),
{
    let cells = visible_cells(s);
    let sorted = sort_desc(cells, false);
    let rows = rows_of(sorted).0;
    let w = grid_width(cells);
    let a = max_dist(cells);
    let g = full_grid(s);
    lemma_max_dist(cells);
    lemma_sort_within(cells, false, a);
    lemma_rows_within(sorted, a);
    lemma_filled_count(rows, w, a, p);
    assert(g == filled(rows, w));
    lemma_rows_count(sorted, p);
    lemma_sort_count(cells, false, p);
    lemma_visible_count(s, p);
    lemma_full_grid_rows(s);
    lemma_columns_count(g, g.len(), w, p);
    assert(g.take(g.len() as int) =~= g);
    assert(grid_of(s) =~= g.map_values(|row: Seq<Option<int>>| used_columns(g, w).map_values(|j: int| row[j])));
    lemma_rows_nonempty(sorted);
    let cols = used_columns(g, w);
    lemma_used_columns_used(g, w);
    assert forall|j: int| 0 <= j < grid_of(s)[0].len() implies #[trigger] column_used(grid_of(s), j) by {
        assert(column_used(g, cols[j]));
        let r = choose|r: int| 0 <= r < g.len() && (#[trigger] g[r][cols[j]]) is Some;
        assert(grid_of(s)[r][j] == g[r][cols[j]]);
    }
}

} // verus!
