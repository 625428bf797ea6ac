use vstd::prelude::*;

verus! {

/// One step of writing a frame to the terminal.
#[derive(Debug)]
pub enum TerminalOp {
    /// Print these characters, then end the line.
    WriteRow(Vec<char>),
    /// Move the cursor up by this many lines.
    MoveUp(usize),
    /// Clear the line under the cursor.
    ClearLine,
}

/// The mathematical form of a terminal step.
pub enum TerminalStep {
    WriteRow(Seq<char>),
    MoveUp(nat),
    ClearLine,
}

impl View for TerminalOp {
    type V = TerminalStep;

    open spec fn view(&self) -> TerminalStep {
        match self {
            TerminalOp::WriteRow(row) => TerminalStep::WriteRow(row@),
            TerminalOp::MoveUp(n) => TerminalStep::MoveUp(*n as nat),
            TerminalOp::ClearLine => TerminalStep::ClearLine,
        }
    }
}

/// The steps that draw `rows` over the previous frame: every row in order,
/// then the cursor back up by the number of rows, then a clear of that line,
/// so that the next frame overwrites this one in place.
pub open spec fn frame_steps(rows: Seq<Seq<char>>) -> Seq<TerminalStep> {
    Seq::new(rows.len(), |r: int| TerminalStep::WriteRow(rows[r])) + seq![
        TerminalStep::MoveUp(rows.len()),
        TerminalStep::ClearLine,
    ]
}

/// The steps of `ops`, in order.
pub open spec fn steps_of(ops: Seq<TerminalOp>) -> Seq<TerminalStep> {
    Seq::new(ops.len(), |k: int| ops[k]@)
}

/// A copy of one row of a canvas.
fn copy_row(row: &Vec<char>) -> (out: Vec<char>)
    ensures
        out@ == row@,
{
    let mut out: Vec<char> = Vec::new();
    let mut c: usize = 0;
    while c < row.len()
        invariant
            c <= row@.len(),
            out@ == row@.subrange(0, c as int),
        decreases row@.len() - c,
    {
        out.push(row[c]);
        c = c + 1;
        assert(out@ =~= row@.subrange(0, c as int));
    }
    assert(row@.subrange(0, row@.len() as int) =~= row@);
    out
}

/// The terminal steps of one frame of the canvas `canvas`.
pub fn frame_ops(canvas: &Vec<Vec<char>>) -> (ops: Vec<TerminalOp>)
    ensures
        steps_of(ops@) == frame_steps(
            Seq::new(canvas@.len(), |r: int| canvas@[r]@),
        ),
{
    let ghost rows = Seq::new(canvas@.len(), |r: int| canvas@[r]@);
    let mut ops: Vec<TerminalOp> = Vec::new();
    let mut r: usize = 0;
    while r < canvas.len()
        invariant
            r <= canvas@.len(),
            rows == Seq::new(canvas@.len(), |r: int| canvas@[r]@),
            ops@.len() == r,
            steps_of(ops@) == Seq::new(r as nat, |k: int| TerminalStep::WriteRow(rows[k])),
        decreases canvas@.len() - r,
    {
        let row = copy_row(&canvas[r]);
        let ghost before = ops@;
        ops.push(TerminalOp::WriteRow(row));
        r = r + 1;
        assert forall|k: int| 0 <= k < r implies steps_of(ops@)[k] == TerminalStep::WriteRow(rows[k]) by {
            if k < r - 1 {
                assert(ops@[k] == before[k]);
                assert(steps_of(before)[k] == TerminalStep::WriteRow(rows[k]));
            }
        }
        assert(steps_of(ops@) =~= Seq::new(r as nat, |k: int| TerminalStep::WriteRow(rows[k])));
    }
    let ghost before = ops@;
    ops.push(TerminalOp::MoveUp(canvas.len()));
    ops.push(TerminalOp::ClearLine);
    assert forall|k: int| 0 <= k < r implies steps_of(ops@)[k] == TerminalStep::WriteRow(rows[k]) by {
        assert(ops@[k] == before[k]);
        assert(steps_of(before)[k] == TerminalStep::WriteRow(rows[k]));
    }
    assert(steps_of(ops@) =~= frame_steps(rows));
    ops
}

} // verus!
