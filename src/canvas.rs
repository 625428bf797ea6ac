use vstd::prelude::*;

verus! {

/// The character that background cells of a canvas hold.
pub const BLANK: char = ' ';

/// The character that a drawn edge leaves in a cell. Every cell of every
/// edge gets this one full block, so where edges cross, the later one
/// leaves the same mark as the earlier.
pub const INK: char = '█';

/// A row of `width` blank cells.
pub open spec fn blank_row(width: nat) -> Seq<char> {
    Seq::new(width, |_c: int| BLANK)
}

/// Every row of `rows` holds exactly `width` cells, and there are `height` rows.
pub open spec fn has_shape(rows: Seq<Seq<char>>, width: nat, height: nat) -> bool {
    &&& rows.len() == height
    &&& forall|r: int| 0 <= r < height ==> (#[trigger] rows[r]).len() == width
}

/// The view of a canvas: its rows, each as a sequence of characters.
pub open spec fn rows_of(canvas: Seq<Vec<char>>) -> Seq<Seq<char>> {
    Seq::new(canvas.len(), |r: int| canvas[r]@)
}

/// What the cell at column `c` of row `r` holds once `cells` are inked over
/// its old content `old_cell`.
pub open spec fn cell_after(old_cell: char, cells: Set<(int, int)>, c: int, r: int) -> char {
    if cells.contains((c, r)) {
        INK
    } else {
        old_cell
    }
}

/// `after` is `before` with every cell whose (column, row) lies in `cells` inked,
/// and every other cell unchanged. Cells of `cells` off the grid are ignored.
pub open spec fn inked(before: Seq<Seq<char>>, after: Seq<Seq<char>>, cells: Set<(int, int)>) -> bool {
    &&& after.len() == before.len()
    &&& forall|r: int| 0 <= r < after.len() ==> (#[trigger] after[r]).len() == before[r].len()
    &&& forall|r: int, c: int|
        0 <= r < after.len() && 0 <= c < after[r].len() ==> (#[trigger] after[r][c]) == cell_after(
            before[r][c],
            cells,
            c,
            r,
        )
}

/// Inking a set of cells and then another is inking their union.
pub proof fn lemma_inked_trans(
    a: Seq<Seq<char>>,
    b: Seq<Seq<char>>,
    c: Seq<Seq<char>>,
    s: Set<(int, int)>,
    t: Set<(int, int)>,
)
    requires
        inked(a, b, s),
        inked(b, c, t),
    ensures
        inked(a, c, s.union(t)),
{
    assert forall|r: int, k: int| 0 <= r < c.len() && 0 <= k < c[r].len() implies (#[trigger] c[r][k])
        == cell_after(a[r][k], s.union(t), k, r) by {
        assert(b[r].len() == c[r].len());
        assert(c[r][k] == cell_after(b[r][k], t, k, r));
        assert(b[r][k] == cell_after(a[r][k], s, k, r));
    }
}

/// Inking no cell leaves the canvas as it was.
pub proof fn lemma_inked_none(a: Seq<Seq<char>>)
    ensures
        inked(a, a, Set::empty()),
{
}

/// Allocates a canvas of `height` rows, each of `width` blank cells.
pub fn blank_canvas(width: usize, height: usize) -> (canvas: Vec<Vec<char>>)
    ensures
        canvas@.len() == height,
        forall|r: int| 0 <= r < height ==> (#[trigger] canvas@[r])@ == blank_row(width as nat),
{
    let mut canvas: Vec<Vec<char>> = Vec::new();
    let mut r: usize = 0;
    while r < height
        invariant
            r <= height,
            canvas@.len() == r,
            forall|k: int| 0 <= k < r ==> (#[trigger] canvas@[k])@ == blank_row(width as nat),
        decreases height - r,
    {
        let mut row: Vec<char> = Vec::new();
        let mut c: usize = 0;
        while c < width
            invariant
                c <= width,
                row@ == Seq::new(c as nat, |_c: int| BLANK),
            decreases width - c,
        {
            row.push(BLANK);
            c = c + 1;
            assert(row@ =~= Seq::new(c as nat, |_c: int| BLANK));
        }
        canvas.push(row);
        r = r + 1;
    }
    canvas
}

/// Inks the cell at column `x` of row `y`, when the canvas has such a cell;
/// a cell off the canvas is dropped.
pub fn plot(canvas: &mut Vec<Vec<char>>, x: i64, y: i64)
    ensures
        inked(rows_of(old(canvas)@), rows_of(final(canvas)@), set![(x as int, y as int)]),
{
    let ghost before = rows_of(canvas@);
    if 0 <= y && (y as u64) < (canvas.len() as u64) {
        let r: usize = y as usize;
        if 0 <= x && (x as u64) < (canvas[r].len() as u64) {
            let c: usize = x as usize;
            let mut row: Vec<char> = Vec::new();
            std::mem::swap(&mut row, &mut canvas[r]);
            row.set(c, INK);
            std::mem::swap(&mut row, &mut canvas[r]);
            assert forall|i: int| 0 <= i < canvas@.len() && i != r implies canvas@[i]@ == before[i] by {}
        }
    }
    let ghost after = rows_of(canvas@);
    assert forall|i: int, k: int| 0 <= i < after.len() && 0 <= k < after[i].len() implies (#[trigger] after[i][k])
        == cell_after(before[i][k], set![(x as int, y as int)], k, i) by {
        if set![(x as int, y as int)].contains((k, i)) {
            assert((k, i) == (x as int, y as int));
        }
    }
}

} // verus!
