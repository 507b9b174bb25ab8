use grid_replay::text::{char_is_space, read_i64, read_usize, split_words};
use grid_replay::{
    frame_at, get_max_turn, parse_definition, parse_moves, rust_gen, Direction, Marker, Move,
    ParseError, SimulationError, VisOption, VisualizeError,
};

use proconio::marker::Chars;
use proconio::source::once::OnceSource;
use proconio::source::Readable;

const TWO_BY_TWO: &str = "16 2\n0\n0\n00\n0 1\n2 3\n";

fn chars(s: &str) -> Vec<char> {
    s.chars().collect()
}

fn as_strings(words: Vec<Vec<char>>) -> Vec<String> {
    words.into_iter().map(|w| w.into_iter().collect()).collect()
}

#[test]
fn words_are_split_as_the_standard_library_splits_them() {
    let samples = [
        "",
        " ",
        "a",
        " a",
        "a ",
        "ab  cd\tef\ngh\r\nij",
        "\u{b}x\u{c}y\u{85}z\u{a0}w",
        "1\u{1680}2\u{2000}3\u{200a}4\u{2028}5\u{2029}6\u{202f}7\u{205f}8\u{3000}9",
        "no\u{200b}break\u{feff}here\u{180e}",
        "16 2\n0\n0\n00\n0 1\n2 3\n",
        "  0 0\n1 1\n1 R U  ",
    ];
    for s in samples {
        let expected: Vec<String> = s.split_whitespace().map(|w| w.to_string()).collect();
        assert_eq!(as_strings(split_words(s)), expected, "for {:?}", s);
    }
}

#[test]
fn white_space_is_what_the_standard_library_takes_for_it() {
    for u in 0..0x11000u32 {
        if let Some(c) = char::from_u32(u) {
            assert_eq!(char_is_space(c), c.is_whitespace(), "for U+{:04X}", u);
        }
    }
}

#[test]
fn numbers_are_read_as_the_standard_library_reads_them() {
    let samples = [
        "", "0", "7", "007", "+7", "-7", "+", "-", "+-7", "-+7", "7+", "1 2", "12a", "a12", "१२",
        "4294967295", "4294967296", "18446744073709551615", "18446744073709551616",
        "9223372036854775807", "9223372036854775808", "-9223372036854775808",
        "-9223372036854775809", "+9223372036854775807", "000000000000000000000000000000012",
        "99999999999999999999999999", "-0", "+0", "0x10", "1e3", "1.5",
    ];
    for s in samples {
        assert_eq!(read_usize(&chars(s)), s.parse::<usize>().ok(), "for {:?}", s);
        assert_eq!(read_i64(&chars(s)), s.parse::<i64>().ok(), "for {:?}", s);
    }
}

#[test]
fn definition_is_read() {
    let def = parse_definition(TWO_BY_TWO).unwrap();
    assert_eq!(def.turn_budget(), 16);
    assert_eq!(def.size(), 2);
    assert_eq!(def.vertical_walls(), &vec![vec![false], vec![false]]);
    assert_eq!(def.horizontal_walls(), &vec![vec![false, false]]);
    assert_eq!(def.grid(), &vec![vec![0, 1], vec![2, 3]]);
}

#[test]
fn definition_with_walls_is_read() {
    let text = "36 3\n01\n00\n10\n001\n010\n4 0 7\n1 8 2\n6 3 5\n";
    let def = parse_definition(text).unwrap();
    assert_eq!(def.turn_budget(), 36);
    assert_eq!(def.size(), 3);
    assert_eq!(def.vertical_walls(), &vec![vec![false, true], vec![false, false], vec![true, false]]);
    assert_eq!(def.horizontal_walls(), &vec![vec![false, false, true], vec![false, true, false]]);
    assert_eq!(def.grid(), &vec![vec![4, 0, 7], vec![1, 8, 2], vec![6, 3, 5]]);
}

#[test]
fn definition_of_one_cell_is_read() {
    let def = parse_definition("4 1 0 9").unwrap();
    assert_eq!(def.size(), 1);
    assert_eq!(def.vertical_walls(), &vec![Vec::<bool>::new()]);
    assert_eq!(def.horizontal_walls(), &Vec::<Vec<bool>>::new());
    // the row of walls is dropped whole, and the value is what follows it
    assert_eq!(def.grid(), &vec![vec![9]]);
}

#[test]
fn definition_takes_any_white_space_between_words() {
    let def = parse_definition("  16\t2 0 0\r\n00 0 1 2\u{3000}3").unwrap();
    assert_eq!(def.grid(), &vec![vec![0, 1], vec![2, 3]]);
}

#[test]
fn definition_takes_longer_wall_rows_and_drops_the_rest() {
    let def = parse_definition("16 2\n01\n10\n011\n0 1\n2 3\n").unwrap();
    assert_eq!(def.vertical_walls(), &vec![vec![false], vec![true]]);
    assert_eq!(def.horizontal_walls(), &vec![vec![false, true]]);
}

#[test]
fn definition_takes_signs_and_does_not_read_past_the_values() {
    let def = parse_definition("+16 2 0 0 00 -5 +1 2 3 and more").unwrap();
    assert_eq!(def.grid(), &vec![vec![-5, 1], vec![2, 3]]);
}

#[test]
fn definition_errors() {
    let err = |s: &str| parse_definition(s).err();
    assert_eq!(err(""), Some(ParseError::UnexpectedEnd));
    assert_eq!(err("16"), Some(ParseError::UnexpectedEnd));
    assert_eq!(err("x 2"), Some(ParseError::InvalidNumber));
    assert_eq!(err("16 -2"), Some(ParseError::InvalidNumber));
    assert_eq!(err("16 99999999999999999999999"), Some(ParseError::InvalidNumber));
    assert_eq!(err("16 0"), Some(ParseError::EmptyBoard));
    assert_eq!(err("16 2\n0\n0\n00\n0 1\n2\n"), Some(ParseError::UnexpectedEnd));
    assert_eq!(err("16 18446744073709551615 0"), Some(ParseError::UnexpectedEnd));
    assert_eq!(err("16 4294967296 0"), Some(ParseError::UnexpectedEnd));
    assert_eq!(err("16 2\n0\n2\n00\n0 1\n2 3\n"), Some(ParseError::InvalidWallRow));
    assert_eq!(err("16 2\n0\n0\n0\n0 1\n2 3\n"), Some(ParseError::InvalidWallRow));
    assert_eq!(err("16 2\n0\n0\n0a\n0 1\n2 3\n"), Some(ParseError::InvalidWallRow));
    assert_eq!(err("16 2\n0\n0\n002\n0 1\n2 3\n"), Some(ParseError::InvalidWallRow));
    assert_eq!(err("16 3\n0\n00\n00\n000\n000\n0 1 2\n3 4 5\n6 7 8\n"), Some(ParseError::InvalidWallRow));
    assert_eq!(err("16 2\n0\n0\n00\n0 1\n2 x\n"), Some(ParseError::InvalidNumber));
    assert_eq!(err("16 2\n0\n0\n00\n0 1\n2 9223372036854775808\n"), Some(ParseError::InvalidNumber));
    // the number of words is judged before the rows of walls, and these before the values
    assert_eq!(err("16 2\n0\n2\n00\n0 1\n2\n"), Some(ParseError::UnexpectedEnd));
    assert_eq!(err("16 2\n0\n2\n00\n0 x\n2 3\n"), Some(ParseError::InvalidWallRow));
}

#[test]
fn moves_are_read() {
    let seq = parse_moves("0 0\n1 1\n1 R U\n0 D L\n").unwrap();
    assert_eq!(seq.t_start, Marker { x: 0, y: 0 });
    assert_eq!(seq.a_start, Marker { x: 1, y: 1 });
    assert_eq!(
        seq.moves,
        vec![
            Move { swap: true, t_dir: Direction::Right, a_dir: Direction::Up },
            Move { swap: false, t_dir: Direction::Down, a_dir: Direction::Left },
        ]
    );
}

#[test]
fn moves_start_is_column_then_row() {
    let seq = parse_moves("3 4 5 6").unwrap();
    assert_eq!(seq.t_start, Marker { x: 3, y: 4 });
    assert_eq!(seq.a_start, Marker { x: 5, y: 6 });
    assert_eq!(seq.moves, vec![]);
}

#[test]
fn moves_on_one_line_are_read() {
    let seq = parse_moves("  0 1 1 0 0 U D 1 L R 0 R L  ").unwrap();
    assert_eq!(seq.moves.len(), 3);
    assert_eq!(seq.moves[1], Move { swap: true, t_dir: Direction::Left, a_dir: Direction::Right });
}

#[test]
fn moves_errors() {
    let err = |s: &str| parse_moves(s).err();
    assert_eq!(err(""), Some(ParseError::UnexpectedEnd));
    assert_eq!(err("0 0 1"), Some(ParseError::UnexpectedEnd));
    assert_eq!(err("0 0 1 x"), Some(ParseError::InvalidNumber));
    assert_eq!(err("0 -1 1 1"), Some(ParseError::InvalidNumber));
    assert_eq!(err("0 0 1 1 2 U D"), Some(ParseError::InvalidFlag));
    assert_eq!(err("0 0 1 1 00 U D"), Some(ParseError::InvalidFlag));
    assert_eq!(err("0 0 1 1 U D 0"), Some(ParseError::InvalidFlag));
    assert_eq!(err("0 0 1 1 0 U D 1"), Some(ParseError::UnexpectedEnd));
    assert_eq!(err("0 0 1 1 0 U D 1 L"), Some(ParseError::UnexpectedEnd));
    assert_eq!(err("0 0 1 1 0 X D"), Some(ParseError::InvalidDirection));
    assert_eq!(err("0 0 1 1 0 U d"), Some(ParseError::InvalidDirection));
    assert_eq!(err("0 0 1 1 0 U DD"), Some(ParseError::InvalidDirection));
    assert_eq!(err("0 0 1 1 0 U 0"), Some(ParseError::InvalidDirection));
    // the first word that does not fit decides
    assert_eq!(err("0 0 1 1 0 U D 7 X"), Some(ParseError::InvalidFlag));
    assert_eq!(err("0 0 1 1 0 U X 7 U D"), Some(ParseError::InvalidDirection));
}

#[test]
fn max_turn_is_the_number_of_moves() {
    let turn = |s: &str| get_max_turn(String::new(), s.to_string());
    assert_eq!(turn("0 0 1 1"), Ok(0));
    assert_eq!(turn("0 0\n1 1\n1 R U\n0 D L\n"), Ok(2));
    assert_eq!(get_max_turn("not read".to_string(), "0 0 1 1 0 U D".to_string()), Ok(1));
    assert_eq!(turn("0 0 1 1 x U D"), Err(ParseError::InvalidFlag));
    assert_eq!(turn(""), Err(ParseError::UnexpectedEnd));
}

#[test]
fn generated_text_is_empty() {
    assert_eq!(rust_gen(), "");
}

#[test]
fn options_are_made() {
    assert_eq!(VisOption::new(), VisOption {});
}

#[test]
fn frame_of_the_two_by_two_swap() {
    let frame = frame_at(TWO_BY_TWO, "0 0\n1 1\n1 R U\n", 1).unwrap();
    assert_eq!(frame.definition.grid(), &vec![vec![0, 1], vec![2, 3]]);
    assert_eq!(frame.result.grid, vec![vec![3, 1], vec![2, 0]]);
    assert_eq!(frame.result.initial_cost, 10);
    assert_eq!(frame.result.final_cost, 10);
    let frame = frame_at(TWO_BY_TWO, "0 0\n1 1\n1 R U\n", 0).unwrap();
    assert_eq!(frame.result.grid, vec![vec![0, 1], vec![2, 3]]);
}

#[test]
fn frame_errors_name_their_stage() {
    let moves = "0 0\n1 1\n1 R U\n";
    assert_eq!(frame_at("16 0", "", 0).err(), Some(VisualizeError::Input(ParseError::EmptyBoard)));
    assert_eq!(frame_at(TWO_BY_TWO, "0 0 1", 0).err(), Some(VisualizeError::Output(ParseError::UnexpectedEnd)));
    assert_eq!(
        frame_at(TWO_BY_TWO, moves, 2).err(),
        Some(VisualizeError::Simulation(SimulationError::StepOutOfRange))
    );
    assert_eq!(
        frame_at(TWO_BY_TWO, moves, -1).err(),
        Some(VisualizeError::Simulation(SimulationError::StepOutOfRange))
    );
    assert_eq!(
        frame_at(TWO_BY_TWO, "0 0\n1 1\n1 U U\n", 1).err(),
        Some(VisualizeError::Simulation(SimulationError::MarkerOutOfGrid))
    );
    assert_eq!(
        frame_at(TWO_BY_TWO, "0 2\n1 1\n", 0).err(),
        Some(VisualizeError::Simulation(SimulationError::MarkerOutOfGrid))
    );
    let long = format!("0 0 0 0{}", " 0 U U".repeat(5));
    assert_eq!(
        frame_at("4 1 0 0", &long, -1).err(),
        Some(VisualizeError::Simulation(SimulationError::TooManyMoves))
    );
    assert_eq!(
        frame_at("4 1 0 0", &long, 0).err(),
        Some(VisualizeError::Simulation(SimulationError::TooManyMoves))
    );
    assert_eq!(
        frame_at("16 2 0 0 00 9223372036854775807 -9223372036854775808 0 0", "0 0 1 1", 0).err(),
        Some(VisualizeError::Simulation(SimulationError::CostOverflow))
    );
}

fn flags(row: &[char], need: usize) -> Vec<bool> {
    row[..need].iter().map(|c| *c == '1').collect()
}

#[test]
fn definition_is_read_as_proconio_reads_the_stream() {
    let texts = [
        TWO_BY_TWO,
        "36 3\n01\n00\n10\n001\n010\n4 0 7\n1 8 2\n6 3 5\n",
        "  16\t2 0 0\r\n00 0 1 2\u{3000}3",
        "16 2\n01\n10\n011\n0 1\n2 3\n",
        "+16 2 0 0 00 -5 +1 2 3 and more",
        "4 1 0 9",
        "64 4\n010\n101\n000\n111\n0000\n1111\n0101\n0 1 2 3\n4 5 6 7\n8 9 10 11\n12 13 14 15\n",
    ];
    for text in texts {
        let mut source = OnceSource::from(text);
        let t = usize::read(&mut source);
        let n = usize::read(&mut source);
        let vs: Vec<Vec<char>> = (0..n).map(|_| Chars::read(&mut source)).collect();
        let hs: Vec<Vec<char>> = (0..n - 1).map(|_| Chars::read(&mut source)).collect();
        let a: Vec<Vec<i64>> =
            (0..n).map(|_| (0..n).map(|_| i64::read(&mut source)).collect()).collect();

        let def = parse_definition(text).unwrap();
        assert_eq!(def.turn_budget(), t);
        assert_eq!(def.size(), n);
        let vs: Vec<Vec<bool>> = vs.iter().map(|row| flags(row, n - 1)).collect();
        let hs: Vec<Vec<bool>> = hs.iter().map(|row| flags(row, n)).collect();
        assert_eq!(def.vertical_walls(), &vs);
        assert_eq!(def.horizontal_walls(), &hs);
        assert_eq!(def.grid(), &a);
    }
}
