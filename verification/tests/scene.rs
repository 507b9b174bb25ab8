use grid_replay::{
    parse_definition, scene, wall_segments, PuzzleDefinition, Segment, Shape, Side,
};

fn seg(x1: usize, y1: usize, x2: usize, y2: usize) -> Segment {
    Segment { x1, y1, x2, y2 }
}

fn cell(x: usize, y: usize, value: i64) -> Shape {
    Shape::Cell { x, y, value }
}

fn frame() -> Vec<Shape> {
    vec![
        Shape::Frame(Side::Top),
        Shape::Frame(Side::Bottom),
        Shape::Frame(Side::Left),
        Shape::Frame(Side::Right),
    ]
}

#[test]
fn board_without_walls_has_no_segments() {
    let def = parse_definition("16 2\n0\n0\n00\n0 1\n2 3\n").unwrap();
    assert_eq!(wall_segments(&def), vec![]);
}

#[test]
fn single_cell_has_no_segments() {
    let def = PuzzleDefinition::new(4, 1, vec![vec![]], vec![], vec![vec![0]]).unwrap();
    assert_eq!(wall_segments(&def), vec![]);
}

#[test]
fn walls_become_segments_on_their_edges() {
    let def = parse_definition("36 3\n01\n00\n10\n001\n010\n4 0 7\n1 8 2\n6 3 5\n").unwrap();
    assert_eq!(
        wall_segments(&def),
        vec![
            // under cell (row 0, column 2) and under cell (row 1, column 1)
            seg(2, 1, 3, 1),
            seg(1, 2, 2, 2),
            // right of cell (row 0, column 1) and right of cell (row 2, column 0)
            seg(2, 0, 2, 1),
            seg(1, 2, 1, 3),
        ]
    );
}

#[test]
fn every_wall_of_a_closed_board_is_listed() {
    let def = parse_definition("16 2\n1\n1\n11\n0 1\n2 3\n").unwrap();
    assert_eq!(
        wall_segments(&def),
        vec![seg(0, 1, 1, 1), seg(1, 1, 2, 1), seg(1, 0, 1, 1), seg(1, 1, 1, 2)]
    );
}

#[test]
fn scene_lists_cells_by_column_then_walls_then_frame() {
    let def = parse_definition("16 2\n1\n0\n01\n0 1\n2 3\n").unwrap();
    let board = vec![vec![3, 1], vec![2, 0]];
    let mut expected = vec![cell(0, 0, 3), cell(0, 1, 2), cell(1, 0, 1), cell(1, 1, 0)];
    expected.push(Shape::Wall(seg(1, 1, 2, 1)));
    expected.push(Shape::Wall(seg(1, 0, 1, 1)));
    expected.extend(frame());
    assert_eq!(scene(&def, &board), Some(expected));
}

#[test]
fn scene_of_an_open_board_still_has_its_frame() {
    let def = parse_definition("16 2\n0\n0\n00\n0 1\n2 3\n").unwrap();
    let shapes = scene(&def, def.grid()).unwrap();
    assert_eq!(shapes.len(), 4 + 4);
    assert_eq!(shapes[4..], frame()[..]);
    let def = PuzzleDefinition::new(4, 1, vec![vec![]], vec![], vec![vec![7]]).unwrap();
    let mut expected = vec![cell(0, 0, 7)];
    expected.extend(frame());
    assert_eq!(scene(&def, def.grid()), Some(expected));
}

#[test]
fn scene_of_a_board_of_another_size_is_refused() {
    let def = parse_definition("16 2\n0\n0\n00\n0 1\n2 3\n").unwrap();
    assert_eq!(scene(&def, &vec![vec![0, 1, 2], vec![3, 4, 5], vec![6, 7, 8]]), None);
    assert_eq!(scene(&def, &vec![vec![0, 1], vec![2]]), None);
    assert_eq!(scene(&def, &vec![]), None);
}
