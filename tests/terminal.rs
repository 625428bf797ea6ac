use spinny::cli::{CliOptions, ShapeKind};
use spinny::frame::{frame_ops, TerminalOp};

#[test]
fn frame_writes_rows_then_repositions() {
    let canvas = vec![vec!['a', 'b'], vec!['c', 'd'], vec!['e', 'f']];
    let ops = frame_ops(&canvas);
    assert_eq!(ops.len(), 5);
    for (k, row) in canvas.iter().enumerate() {
        match &ops[k] {
            TerminalOp::WriteRow(r) => assert_eq!(r, row),
            other => panic!("unexpected step {:?}", other),
        }
    }
    assert!(matches!(ops[3], TerminalOp::MoveUp(3)));
    assert!(matches!(ops[4], TerminalOp::ClearLine));
}

#[test]
fn empty_frame_only_repositions() {
    let ops = frame_ops(&vec![]);
    assert_eq!(ops.len(), 2);
    assert!(matches!(ops[0], TerminalOp::MoveUp(0)));
    assert!(matches!(ops[1], TerminalOp::ClearLine));
}

#[test]
fn shape_names_select_solids() {
    assert_eq!(ShapeKind::from_name("cube"), ShapeKind::Cube);
    assert_eq!(ShapeKind::from_name("tetrahedron"), ShapeKind::Tetrahedron);
    assert_eq!(ShapeKind::from_name("dodecahedron"), ShapeKind::Cube);
    assert_eq!(ShapeKind::from_name(""), ShapeKind::Cube);
    assert_eq!(ShapeKind::from_name("Tetrahedron"), ShapeKind::Cube);
}

#[test]
fn options_select_shape_and_check_speeds() {
    let o = CliOptions { shape: "tetrahedron".to_string(), x: -10, y: 10, z: 0 };
    assert_eq!(o.shape_kind(), ShapeKind::Tetrahedron);
    assert!(o.speeds_valid());
    let fast = CliOptions { shape: "cube".to_string(), x: 1, y: 11, z: 1 };
    assert_eq!(fast.shape_kind(), ShapeKind::Cube);
    assert!(!fast.speeds_valid());
    let slow = CliOptions { shape: "cube".to_string(), x: 1, y: 1, z: -11 };
    assert!(!slow.speeds_valid());
}
