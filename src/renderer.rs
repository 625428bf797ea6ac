use vstd::prelude::*;

use vstd::arithmetic::div_mod::{lemma_mod_self_0, lemma_small_mod};

use crate::canvas::{
    blank_canvas, blank_row, has_shape, inked, lemma_inked_none, lemma_inked_trans, plot, rows_of, BLANK,
    INK,
};

verus! {

/// A point projected onto the character grid: `x` is a column, `y` a row.
/// Either may lie off the grid.
#[derive(Clone, Copy, Debug, PartialEq, Eq, Structural)]
pub struct ScreenPoint {
    pub x: i32,
    pub y: i32,
}

impl ScreenPoint {
    /// The point at column `x` of row `y`.
    pub fn new(x: i32, y: i32) -> (p: ScreenPoint)
        ensures
            p.x == x,
            p.y == y,
    {
        ScreenPoint { x, y }
    }
}

/// The magnitude of `v`.
pub open spec fn abs(v: int) -> int {
    if v < 0 {
        -v
    } else {
        v
    }
}

/// The direction of a step from `a` towards `b`: +1 when `b` is greater than `a`,
/// else -1.
pub open spec fn direction(a: int, b: int) -> int {
    if a < b {
        1
    } else {
        -1
    }
}

/// The error term of the stepping walk over a segment that spans `dx` columns
/// and `dy` rows, once it has taken `i` column steps and `j` row steps.
pub open spec fn walk_error(dx: int, dy: int, i: int, j: int) -> int {
    dx - dy + dx * j - dy * i
}

/// The walk takes a column step where twice its error exceeds `-dy`.
pub open spec fn steps_column(dx: int, dy: int, i: int, j: int) -> bool {
    2 * walk_error(dx, dy, i, j) > -dy
}

/// The walk takes a row step where twice its error stays below `dx`.
pub open spec fn steps_row(dx: int, dy: int, i: int, j: int) -> bool {
    2 * walk_error(dx, dy, i, j) < dx
}

/// From any offset short of the far end, the walk moves, and never past the end.
pub proof fn lemma_step(dx: int, dy: int, i: int, j: int)
    requires
        0 <= i <= dx,
        0 <= j <= dy,
        !(i == dx && j == dy),
    ensures
        steps_column(dx, dy, i, j) ==> i < dx,
        steps_row(dx, dy, i, j) ==> j < dy,
        steps_column(dx, dy, i, j) || steps_row(dx, dy, i, j),
{
    if i == dx {
        assert(dx * j - dy * dx <= dx * (dy - 1) - dy * dx) by (nonlinear_arith)
            requires
                0 <= dx,
                j <= dy - 1,
        ;
        assert(dx * (dy - 1) - dy * dx == -dx) by (nonlinear_arith);
    }
    if j == dy {
        assert(dx * dy - dy * i >= dx * dy - dy * (dx - 1)) by (nonlinear_arith)
            requires
                0 <= dy,
                i <= dx - 1,
        ;
        assert(dx * dy - dy * (dx - 1) == dy) by (nonlinear_arith);
    }
}

/// The cells that the stepping walk visits from offset (`i`, `j`) to its end
/// (`dx`, `dy`), for a segment that starts at (`x1`, `y1`) and steps by `sx`
/// per column and `sy` per row.
pub open spec fn walk_cells(x1: int, y1: int, sx: int, sy: int, dx: int, dy: int, i: int, j: int) -> Set<
    (int, int),
>
    decreases (dx - i) + (dy - j),
    when 0 <= i <= dx && 0 <= j <= dy
{
    let here = (x1 + sx * i, y1 + sy * j);
    if i == dx && j == dy {
        set![here]
    } else {
        proof {
            lemma_step(dx, dy, i, j);
        }
        let ni = if steps_column(dx, dy, i, j) {
            i + 1
        } else {
            i
        };
        let nj = if steps_row(dx, dy, i, j) {
            j + 1
        } else {
            j
        };
        walk_cells(x1, y1, sx, sy, dx, dy, ni, nj).insert(here)
    }
}

/// The cells of the line from `a` to `b`: the integer stepping walk that starts
/// at `a` with error `dx - dy`, and ends at `b`.
pub open spec fn line_cells(a: ScreenPoint, b: ScreenPoint) -> Set<(int, int)> {
    rest_of_line(a, b, 0, 0)
}

/// The cells that the walk along the line from `a` to `b` visits once it has
/// taken `i` column steps and `j` row steps.
pub open spec fn rest_of_line(a: ScreenPoint, b: ScreenPoint, i: int, j: int) -> Set<(int, int)> {
    walk_cells(
        a.x as int,
        a.y as int,
        direction(a.x as int, b.x as int),
        direction(a.y as int, b.y as int),
        abs(b.x - a.x),
        abs(b.y - a.y),
        i,
        j,
    )
}

/// The walk from any offset within the segment reaches the far end.
proof fn lemma_walk_reaches_end(x1: int, y1: int, sx: int, sy: int, dx: int, dy: int, i: int, j: int)
    requires
        0 <= i <= dx,
        0 <= j <= dy,
    ensures
        walk_cells(x1, y1, sx, sy, dx, dy, i, j).contains((x1 + sx * dx, y1 + sy * dy)),
    decreases (dx - i) + (dy - j),
{
    if !(i == dx && j == dy) {
        lemma_step(dx, dy, i, j);
        let ni = if steps_column(dx, dy, i, j) {
            i + 1
        } else {
            i
        };
        let nj = if steps_row(dx, dy, i, j) {
            j + 1
        } else {
            j
        };
        lemma_walk_reaches_end(x1, y1, sx, sy, dx, dy, ni, nj);
    }
}

/// A line covers both of its end points.
pub proof fn lemma_line_covers_ends(a: ScreenPoint, b: ScreenPoint)
    ensures
        line_cells(a, b).contains((a.x as int, a.y as int)),
        line_cells(a, b).contains((b.x as int, b.y as int)),
{
    let dx = abs(b.x - a.x);
    let dy = abs(b.y - a.y);
    let sx = direction(a.x as int, b.x as int);
    let sy = direction(a.y as int, b.y as int);
    lemma_walk_reaches_end(a.x as int, a.y as int, sx, sy, dx, dy, 0, 0);
    assert(a.x + sx * dx == b.x);
    assert(a.y + sy * dy == b.y);
    if !(dx == 0 && dy == 0) {
        lemma_step(dx, dy, 0, 0);
    }
}

/// Inks the cells of the line from `from` to `to` that lie on the canvas.
pub fn draw_line(canvas: &mut Vec<Vec<char>>, from: ScreenPoint, to: ScreenPoint)
    ensures
        inked(rows_of(old(canvas)@), rows_of(final(canvas)@), line_cells(from, to)),
{
    let x1: i64 = from.x as i64;
    let y1: i64 = from.y as i64;
    let x2: i64 = to.x as i64;
    let y2: i64 = to.y as i64;
    let dx: i64 = if x1 < x2 { x2 - x1 } else { x1 - x2 };
    let dy: i64 = if y1 < y2 { y2 - y1 } else { y1 - y2 };
    let sx: i64 = if x1 < x2 { 1 } else { -1 };
    let sy: i64 = if y1 < y2 { 1 } else { -1 };
    let mut err: i64 = dx - dy;
    let mut x: i64 = x1;
    let mut y: i64 = y1;
    let ghost mut i: int = 0;
    let ghost mut j: int = 0;
    let ghost start = rows_of(canvas@);
    let ghost mut done: Set<(int, int)> = Set::empty();
    proof {
        lemma_inked_none(start);
        assert(line_cells(from, to) =~= done.union(rest_of_line(from, to, 0, 0)));
    }
    loop
        invariant
            x1 == from.x && y1 == from.y && x2 == to.x && y2 == to.y,
            dx == abs(to.x - from.x),
            dy == abs(to.y - from.y),
            sx == direction(from.x as int, to.x as int),
            sy == direction(from.y as int, to.y as int),
            0 <= dx <= 0x1_0000_0000,
            0 <= dy <= 0x1_0000_0000,
            x2 == x1 + sx * dx,
            y2 == y1 + sy * dy,
            sx == 1 || sx == -1,
            sy == 1 || sy == -1,
            0 <= i <= dx,
            0 <= j <= dy,
            x == x1 + sx * i,
            y == y1 + sy * j,
            err == walk_error(dx as int, dy as int, i, j),
            -2 * dx - dy <= 2 * (dx * j - dy * i) <= 2 * dy + dx,
            line_cells(from, to) == done.union(rest_of_line(from, to, i, j)),
            inked(start, rows_of(canvas@), done),
        ensures
            inked(start, rows_of(canvas@), line_cells(from, to)),
        decreases (dx - i) + (dy - j),
    {
        let ghost before = rows_of(canvas@);
        plot(canvas, x, y);
        proof {
            lemma_inked_trans(start, before, rows_of(canvas@), done, set![(x as int, y as int)]);
            done = done.union(set![(x as int, y as int)]);
        }
        if x == x2 && y == y2 {
            proof {
                assert(sx * (i - dx) == 0) by (nonlinear_arith)
                    requires x1 + sx * i == x1 + sx * dx;
                assert(sy * (j - dy) == 0) by (nonlinear_arith)
                    requires y1 + sy * j == y1 + sy * dy;
                assert(i == dx) by (nonlinear_arith)
                    requires sx * (i - dx) == 0, sx == 1 || sx == -1;
                assert(j == dy) by (nonlinear_arith)
                    requires sy * (j - dy) == 0, sy == 1 || sy == -1;
                assert(line_cells(from, to) =~= done);
            }
            break;
        }
        proof {
            if i == dx && j == dy {
                assert(x == x2 && y == y2);
            }
            lemma_step(dx as int, dy as int, i, j);
        }
        let e2: i64 = err * 2;
        let ghost ni: int = if e2 > -dy { i + 1 } else { i };
        let ghost nj: int = if e2 < dx { j + 1 } else { j };
        proof {
            let here = (x as int, y as int);
            assert(rest_of_line(from, to, i, j) == rest_of_line(from, to, ni, nj).insert(here));
            assert(line_cells(from, to) =~= done.union(rest_of_line(from, to, ni, nj)));
            let moved_x: int = if e2 > -dy { dy as int } else { 0 };
            let moved_y: int = if e2 < dx { dx as int } else { 0 };
            assert(dx * nj - dy * ni == dx * j - dy * i - moved_x + moved_y) by (nonlinear_arith)
                requires
                    moved_x == if e2 > -dy { dy as int } else { 0 },
                    moved_y == if e2 < dx { dx as int } else { 0 },
                    ni == if e2 > -dy { i + 1 } else { i },
                    nj == if e2 < dx { j + 1 } else { j };
            assert(sx * ni == sx * i + (if e2 > -dy { sx as int } else { 0 })) by (nonlinear_arith)
                requires ni == if e2 > -dy { i + 1 } else { i };
            assert(sy * nj == sy * j + (if e2 < dx { sy as int } else { 0 })) by (nonlinear_arith)
                requires nj == if e2 < dx { j + 1 } else { j };
        }
        if e2 > -dy {
            err = err - dy;
            x = x + sx;
        }
        if e2 < dx {
            err = err + dx;
            y = y + sy;
        }
        proof {
            i = ni;
            j = nj;
        }
    }
}

/// The cells of the first `n` edges of `face`; edge `k` runs from point `k` to
/// point `k + 1`, and the last one back to the first point.
pub open spec fn edges_cells(face: Seq<ScreenPoint>, n: int) -> Set<(int, int)>
    decreases n,
{
    if n <= 0 {
        Set::empty()
    } else {
        edges_cells(face, n - 1).union(line_cells(face[n - 1], face[n % (face.len() as int)]))
    }
}

/// The cells that the outline of a face covers: the closed polygon through its
/// points, in order. A face of fewer than two points covers none.
pub open spec fn face_cells(face: Seq<ScreenPoint>) -> Set<(int, int)> {
    if face.len() < 2 {
        Set::empty()
    } else {
        edges_cells(face, face.len() as int)
    }
}

/// The cells that the first `n` faces cover.
pub open spec fn faces_cells(faces: Seq<Seq<ScreenPoint>>, n: int) -> Set<(int, int)>
    decreases n,
{
    if n <= 0 {
        Set::empty()
    } else {
        faces_cells(faces, n - 1).union(face_cells(faces[n - 1]))
    }
}

/// The projected faces of a solid, each as a sequence of points.
pub open spec fn faces_view(faces: Seq<Vec<ScreenPoint>>) -> Seq<Seq<ScreenPoint>> {
    Seq::new(faces.len(), |f: int| faces[f]@)
}

/// The cells that a projected solid covers: those of all its faces.
pub open spec fn solid_cells(faces: Seq<Vec<ScreenPoint>>) -> Set<(int, int)> {
    faces_cells(faces_view(faces), faces.len() as int)
}

/// The canvas that a projected solid renders to: `height` rows of `width` cells,
/// where a cell is inked exactly when some edge of some face covers it.
pub open spec fn rendered(faces: Seq<Vec<ScreenPoint>>, width: nat, height: nat) -> Seq<Seq<char>> {
    Seq::new(
        height,
        |r: int|
            Seq::new(
                width,
                |c: int|
                    if solid_cells(faces).contains((c, r)) {
                        INK
                    } else {
                        BLANK
                    },
            ),
    )
}

/// Draws the outline of one face: each edge in order, the last one closing the
/// polygon. A face of fewer than two points draws nothing.
pub fn draw_face(canvas: &mut Vec<Vec<char>>, face: &Vec<ScreenPoint>)
    ensures
        inked(rows_of(old(canvas)@), rows_of(final(canvas)@), face_cells(face@)),
{
    let ghost start = rows_of(canvas@);
    proof {
        lemma_inked_none(start);
    }
    let n: usize = face.len();
    if n < 2 {
        return;
    }
    let mut k: usize = 0;
    while k < n
        invariant
            n == face@.len(),
            2 <= n,
            k <= n,
            inked(start, rows_of(canvas@), edges_cells(face@, k as int)),
        decreases n - k,
    {
        let ghost before = rows_of(canvas@);
        let next: usize = if k + 1 == n { 0 } else { k + 1 };
        draw_line(canvas, face[k], face[next]);
        proof {
            if k + 1 == n {
                lemma_mod_self_0(n as int);
            } else {
                lemma_small_mod((k + 1) as nat, n as nat);
            }
            assert(next as int == (k + 1) % (n as int));
            lemma_inked_trans(start, before, rows_of(canvas@), edges_cells(face@, k as int),
                line_cells(face@[k as int], face@[next as int]));
        }
        k = k + 1;
    }
}

/// Renders a projected solid onto a fresh canvas of `height` rows of `width`
/// cells: every edge of every face is drawn, faces in order and edges in order
/// within a face, and cells off the canvas are dropped.
pub fn render(faces: &Vec<Vec<ScreenPoint>>, width: usize, height: usize) -> (canvas: Vec<Vec<char>>)
    ensures
        has_shape(rows_of(canvas@), width as nat, height as nat),
        rows_of(canvas@) == rendered(faces@, width as nat, height as nat),
{
    let mut canvas = blank_canvas(width, height);
    let ghost start = rows_of(canvas@);
    proof {
        lemma_inked_none(start);
    }
    let mut f: usize = 0;
    while f < faces.len()
        invariant
            f <= faces@.len(),
            start.len() == height,
            forall|r: int| 0 <= r < height ==> (#[trigger] start[r]) == blank_row(width as nat),
            inked(start, rows_of(canvas@), faces_cells(faces_view(faces@), f as int)),
        decreases faces@.len() - f,
    {
        let ghost before = rows_of(canvas@);
        draw_face(&mut canvas, &faces[f]);
        proof {
            assert(faces_view(faces@)[f as int] == faces@[f as int]@);
            lemma_inked_trans(start, before, rows_of(canvas@), faces_cells(faces_view(faces@), f as int),
                face_cells(faces@[f as int]@));
        }
        f = f + 1;
    }
    proof {
        let target = rendered(faces@, width as nat, height as nat);
        let got = rows_of(canvas@);
        assert forall|r: int| 0 <= r < height implies (#[trigger] got[r]) == target[r] by {
            assert(start[r] == blank_row(width as nat));
            assert(got[r] =~= target[r]);
        }
        assert(got =~= target);
    }
    canvas
}

/// A face of fewer than two points renders no cell: adding it to a solid leaves
/// the rendered canvas as it was.
pub proof fn lemma_degenerate_face_renders_nothing(
    faces: Seq<Vec<ScreenPoint>>,
    face: Vec<ScreenPoint>,
    width: nat,
    height: nat,
)
    requires
        face@.len() < 2,
    ensures
        face_cells(face@) == Set::<(int, int)>::empty(),
        solid_cells(faces.push(face)) == solid_cells(faces),
        rendered(faces.push(face), width, height) == rendered(faces, width, height),
{
    let more = faces.push(face);
    assert forall|n: int| 0 <= n <= faces.len() implies faces_cells(faces_view(more), n) == faces_cells(
        faces_view(faces),
        n,
    ) by {
        lemma_faces_cells_prefix(more, faces, n);
    }
    assert(faces_view(more)[faces.len() as int] == face@);
    let n = faces.len() as int;
    assert(faces_cells(faces_view(more), n + 1) =~= faces_cells(faces_view(faces), n));
}

proof fn lemma_faces_cells_prefix(longer: Seq<Vec<ScreenPoint>>, shorter: Seq<Vec<ScreenPoint>>, n: int)
    requires
        0 <= n <= shorter.len() <= longer.len(),
        forall|f: int| 0 <= f < shorter.len() ==> longer[f] == shorter[f],
    ensures
        faces_cells(faces_view(longer), n) == faces_cells(faces_view(shorter), n),
    decreases n,
{
    if n > 0 {
        lemma_faces_cells_prefix(longer, shorter, n - 1);
        assert(faces_view(longer)[n - 1] == faces_view(shorter)[n - 1]);
    }
}

/// A solid whose faces all have fewer than two points renders a blank canvas.
pub proof fn lemma_degenerate_solid_renders_blank(faces: Seq<Vec<ScreenPoint>>, width: nat, height: nat)
    requires
        forall|f: int| 0 <= f < faces.len() ==> (#[trigger] faces[f])@.len() < 2,
    ensures
        rendered(faces, width, height) == Seq::new(height, |_r: int| blank_row(width)),
    decreases faces.len(),
{
    if faces.len() == 0 {
        assert(solid_cells(faces) == Set::<(int, int)>::empty());
    } else {
        let shorter = faces.drop_last();
        lemma_degenerate_solid_renders_blank(shorter, width, height);
        assert(faces == shorter.push(faces.last()));
        lemma_degenerate_face_renders_nothing(shorter, faces.last(), width, height);
    }
    let r = rendered(faces, width, height);
    assert forall|k: int| 0 <= k < height implies (#[trigger] r[k]) == blank_row(width) by {
        assert(r[k] =~= blank_row(width));
    }
    assert(r =~= Seq::new(height, |_r: int| blank_row(width)));
}

} // verus!
