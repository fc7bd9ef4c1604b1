use tetris::{first_minimum, shape, Board, PieceType, BOARD_HEIGHT, BOARD_WIDTH};

fn occupied(b: &Board) -> usize {
    b.get_grid().iter().map(|row| row.iter().filter(|&&c| c).count()).sum()
}

fn topmost(b: &Board, x: usize) -> usize {
    (0..BOARD_HEIGHT).rev().find(|&y| b.grid[y][x]).map(|y| y + 1).unwrap_or(0)
}

fn assert_heights_match(b: &Board) {
    for x in 0..BOARD_WIDTH {
        assert_eq!(b.get_height(x), topmost(b, x), "column {}", x);
        for y in 0..BOARD_HEIGHT {
            assert_eq!(b.get_color_grid()[y][x].is_some(), b.get_grid()[y][x]);
        }
    }
}

fn fill(b: &mut Board, y: usize, x: usize) {
    b.grid[y][x] = true;
    b.color_grid[y][x] = Some(1);
}

fn empty(b: &mut Board, y: usize, x: usize) {
    b.grid[y][x] = false;
    b.color_grid[y][x] = None;
}

/// Row 0 filled but for column 9, with one more cell at (1, 0).
fn gap_board() -> Board {
    let mut b = Board::new();
    for x in 0..BOARD_WIDTH - 1 {
        fill(&mut b, 0, x);
        b.heights[x] = 1;
    }
    fill(&mut b, 1, 0);
    b.color_grid[1][0] = Some(2);
    b.heights[0] = 2;
    b
}

fn full_board() -> Board {
    let mut b = Board::new();
    for y in 0..BOARD_HEIGHT {
        for x in 0..BOARD_WIDTH {
            fill(&mut b, y, x);
        }
    }
    for x in 0..BOARD_WIDTH {
        b.heights[x] = BOARD_HEIGHT;
    }
    b
}

#[test]
fn new_board_is_empty() {
    let b = Board::new();
    assert_eq!(b.get_score(), 0);
    assert_eq!(occupied(&b), 0);
    for x in 0..BOARD_WIDTH {
        assert_eq!(b.get_height(x), 0);
    }
    assert!(b.get_color_grid().iter().all(|row| row.iter().all(|c| c.is_none())));
}

#[test]
fn square_on_empty_board() {
    let mut b = Board::new();
    assert_eq!(b.apply(PieceType::O, 0, 0), Ok(()));
    let g = b.get_grid();
    assert!(g[0][0] && g[0][1] && g[1][0] && g[1][1]);
    assert_eq!(occupied(&b), 4);
    assert_eq!(b.get_height(0), 2);
    assert_eq!(b.get_height(1), 2);
    assert_eq!(b.get_height(2), 0);
    assert_eq!(b.get_score(), 0);
    assert_eq!(b.get_color_grid()[0][0], Some(2));
}

#[test]
fn vertical_bar_fills_gap_and_clears_row() {
    let mut b = gap_board();
    assert_eq!(b.apply(PieceType::I, 9, 1), Ok(()));
    assert_eq!(b.get_score(), 100);
    let g = b.get_grid();
    // old row 1 moved down to row 0; the bar's upper cells moved down by one
    assert!(g[0][0] && g[0][9]);
    assert!((1..9).all(|x| !g[0][x]));
    assert!(g[1][9] && g[2][9] && !g[3][9]);
    assert!(!g[1][0]);
    assert_eq!(b.get_color_grid()[0][0], Some(2));
    assert_eq!(b.get_color_grid()[0][9], Some(0));
    assert_eq!(b.get_height(0), 1);
    assert_eq!(b.get_height(9), 3);
    assert_eq!(b.get_height(4), 0);
    assert_heights_match(&b);
}

#[test]
fn no_placement_on_full_board() {
    let b = full_board();
    for t in [PieceType::I, PieceType::O, PieceType::T, PieceType::Z] {
        assert!(b.placements(t).is_empty());
        for r in 0..4 {
            for x in 0..BOARD_WIDTH {
                assert!(b.evaluate(t, x, r).is_none());
            }
        }
    }
}

#[test]
fn ties_go_to_lowest_rotation_then_column() {
    assert_eq!(first_minimum(&vec![5, 3, 3, 7]), Some(1));
    assert_eq!(first_minimum(&vec![2, 2, 2]), Some(0));
    assert_eq!(first_minimum(&vec![]), None);
    let b = Board::new();
    let moves = b.placements(PieceType::T);
    let keys: Vec<i64> = moves.iter().map(|_| 0).collect();
    let best = first_minimum(&keys).unwrap();
    assert_eq!((moves[best].rotation, moves[best].column), (0, 0));
    let keys: Vec<i64> = moves.iter().map(|m| if m.column == 3 { -1 } else { 0 }).collect();
    let best = first_minimum(&keys).unwrap();
    assert_eq!((moves[best].rotation, moves[best].column), (0, 3));
}

#[test]
fn placements_are_ordered_and_complete() {
    let b = Board::new();
    let moves = b.placements(PieceType::L);
    // widths 3, 2, 3, 2 give 8 + 9 + 8 + 9 columns
    assert_eq!(moves.len(), 34);
    for w in moves.windows(2) {
        assert!((w[0].rotation, w[0].column) < (w[1].rotation, w[1].column));
    }
    let i_moves = b.placements(PieceType::I);
    assert_eq!(i_moves.len(), 7 + 10 + 7 + 10);
}

#[test]
fn heights_follow_the_grid_after_commits() {
    let mut b = Board::new();
    let seq = [
        (PieceType::T, 0, 0),
        (PieceType::S, 3, 1),
        (PieceType::I, 6, 0),
        (PieceType::J, 1, 2),
        (PieceType::Z, 4, 0),
        (PieceType::L, 7, 3),
    ];
    for (t, x, r) in seq {
        assert_eq!(b.apply(t, x, r), Ok(()));
        assert_heights_match(&b);
    }
}

#[test]
fn evaluate_leaves_board_unchanged_and_repeats() {
    let b = gap_board();
    let grid = *b.get_grid();
    let heights = b.heights;
    let first = b.evaluate(PieceType::I, 9, 1);
    let second = b.evaluate(PieceType::I, 9, 1);
    assert_eq!(first, second);
    assert_eq!(first.map(|(c, _)| c), Some(1));
    assert_eq!(*b.get_grid(), grid);
    assert_eq!(b.heights, heights);
    assert_eq!(b.get_score(), 0);
}

#[test]
fn clearing_keeps_rows_in_order() {
    let mut b = Board::new();
    // rows 0 and 2 full but for column 9; rows 1 and 3 hold marked cells
    for x in 0..BOARD_WIDTH - 1 {
        fill(&mut b, 0, x);
        fill(&mut b, 2, x);
    }
    fill(&mut b, 1, 0);
    fill(&mut b, 1, 9);
    fill(&mut b, 3, 4);
    b.heights = [3, 3, 3, 3, 4, 3, 3, 3, 3, 2];
    empty(&mut b, 1, 9);
    b.heights[9] = 0;
    assert_eq!(b.apply(PieceType::I, 9, 1), Ok(()));
    assert_eq!(b.get_score(), 300);
    let g = b.get_grid();
    assert!(g[0][0] && g[0][9] && (1..9).all(|x| !g[0][x]));
    assert!(g[1][4] && g[1][9] && !g[1][0]);
    assert!((0..BOARD_WIDTH).all(|x| !g[2][x]));
    assert_heights_match(&b);
}

#[test]
fn score_bonus_by_rows_cleared() {
    let mut b = gap_board();
    empty(&mut b, 1, 0);
    b.heights[0] = 1;
    assert_eq!(b.apply(PieceType::I, 9, 1), Ok(()));
    assert_eq!(b.get_score(), 100);
    let before = b.get_score();
    assert_eq!(b.apply(PieceType::O, 0, 0), Ok(()));
    assert_eq!(b.get_score(), before);
}

#[test]
fn four_rows_score_eight_hundred() {
    let mut b = Board::new();
    for y in 0..4 {
        for x in 0..BOARD_WIDTH - 1 {
            fill(&mut b, y, x);
        }
    }
    for x in 0..BOARD_WIDTH - 1 {
        b.heights[x] = 4;
    }
    assert_eq!(b.apply(PieceType::I, 9, 1), Ok(()));
    assert_eq!(b.get_score(), 800);
    assert_eq!(occupied(&b), 0);
}

#[test]
fn cells_are_conserved() {
    let mut b = gap_board();
    let before = occupied(&b);
    assert_eq!(b.apply(PieceType::I, 9, 1), Ok(()));
    assert_eq!(occupied(&b), before + 4 - BOARD_WIDTH);
    let before = occupied(&b);
    assert_eq!(b.apply(PieceType::T, 3, 2), Ok(()));
    assert_eq!(occupied(&b), before + 4);
}

#[test]
fn out_of_bounds_is_refused() {
    let mut b = Board::new();
    assert_eq!(b.apply(PieceType::I, 7, 0), Err("Piece out of bounds"));
    assert_eq!(b.apply(PieceType::O, 9, 0), Err("Piece out of bounds"));
    assert!(b.evaluate(PieceType::I, 7, 0).is_none());
    assert_eq!(occupied(&b), 0);
}

#[test]
fn collision_is_refused_and_board_kept() {
    let mut b = full_board();
    empty(&mut b, 14, 0);
    b.heights[0] = 14;
    assert_eq!(b.apply(PieceType::O, 0, 0), Err("Piece doesn't fit"));
    assert!(!b.grid[14][0]);
    assert_eq!(b.get_score(), 0);
}

#[test]
fn piece_rests_on_highest_obstruction() {
    let mut b = Board::new();
    assert_eq!(b.apply(PieceType::I, 2, 1), Ok(()));
    // a flat T over columns 1..4 rests on the bar in column 2
    assert_eq!(b.apply(PieceType::T, 1, 0), Ok(()));
    let g = b.get_grid();
    assert!(g[4][1] && g[4][2] && g[4][3] && g[5][2]);
    assert_eq!(b.get_height(1), 5);
    assert_eq!(b.get_height(2), 6);
}

#[test]
fn features_of_square_in_corner() {
    let b = Board::new();
    let (cleared, f) = b.evaluate(PieceType::O, 0, 0).unwrap();
    assert_eq!(cleared, 0);
    assert_eq!(f.landing_height, 1);
    assert_eq!(f.eroded_piece_cells, 0);
    assert_eq!(f.row_transitions, 30);
    assert_eq!(f.column_transitions, 20);
    assert_eq!(f.holes, 0);
    assert_eq!(f.board_wells, 0);
    assert_eq!(f.hole_depth, 0);
    assert_eq!(f.rows_with_holes, 0);
    assert_eq!(f.diversity, 2);
    assert_eq!(f.height_sum, 4);
}

#[test]
fn features_with_holes_and_wells() {
    let mut b = Board::new();
    // column 0 holds a cell at row 2 over two empty cells; column 2 is a well
    fill(&mut b, 2, 0);
    b.heights[0] = 3;
    fill(&mut b, 0, 1);
    fill(&mut b, 1, 1);
    b.heights[1] = 2;
    fill(&mut b, 0, 3);
    fill(&mut b, 1, 3);
    b.heights[3] = 2;
    // drop a vertical bar far away, in column 9
    let (cleared, f) = b.evaluate(PieceType::I, 9, 1).unwrap();
    assert_eq!(cleared, 0);
    assert_eq!(f.landing_height, 3);
    assert_eq!(f.holes, 2);
    assert_eq!(f.hole_depth, 3 + 2);
    assert_eq!(f.rows_with_holes, 2);
    // column 2 sits 2 below its neighbours
    assert_eq!(f.board_wells, 2);
    // heights 3 2 0 2 0 0 0 0 0 4
    assert_eq!(f.diversity, 1 + 2 + 2 + 2 + 4);
    assert_eq!(f.height_sum, 11);
}

#[test]
fn edge_column_well_compares_one_neighbour() {
    let mut b = Board::new();
    fill(&mut b, 0, 1);
    fill(&mut b, 1, 1);
    b.heights[1] = 2;
    let (_, f) = b.evaluate(PieceType::I, 5, 1).unwrap();
    // column 0 sits 2 below column 1
    assert_eq!(f.board_wells, 2);
}

#[test]
fn eroded_cells_count_piece_cells_in_cleared_rows() {
    let b = gap_board();
    let (cleared, f) = b.evaluate(PieceType::I, 9, 1).unwrap();
    assert_eq!(cleared, 1);
    assert_eq!(f.eroded_piece_cells, 1);
    assert_eq!(f.landing_height, 3);
}

#[test]
fn start_row_of_square() {
    let mut b = Board::new();
    assert_eq!(b.apply(PieceType::O, 0, 0), Ok(()));
    assert_eq!(b.get_start_y(PieceType::O, 0, 0), 1);
    assert_eq!(b.get_start_y(PieceType::O, 9, 0), 0);
    assert_eq!(b.get_start_y(PieceType::I, 2, 0), 0);
}

#[test]
fn shapes_have_four_cells_in_their_box() {
    for i in 0..7 {
        let t = PieceType::from_index(i);
        assert_eq!(t.index(), i);
        assert_eq!(PieceType::from_code(t.code()), Some(t));
        for r in 0..4 {
            let p = shape(t, r);
            for &(dy, dx) in p.cells.iter() {
                assert!(dy < p.height && dx < p.width);
            }
            assert_eq!(p.leftmost, 0);
            assert_eq!(p.rightmost, p.width as i32 - 1);
        }
    }
    assert_eq!(PieceType::from_index(9), PieceType::Z);
    assert_eq!(PieceType::from_code('X'), None);
    assert_eq!(shape(PieceType::O, 0).width, 2);
    assert_eq!(shape(PieceType::I, 1).height, 4);
}
