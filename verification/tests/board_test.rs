use shuttlings_cch24::day12::{
    board, place, random_board, reset, Board, BoardValue, COOKIE, EMPTY, MILK, WALL,
};
use shuttlings_cch24::reply::{Reply, ReplyBody};

fn text_of(r: &Reply) -> String {
    match &r.body {
        ReplyBody::Text(t) => t.clone(),
        ReplyBody::Json(t) => t.clone(),
        ReplyBody::Empty => String::new(),
    }
}

fn render(rows: [[char; 4]; 4]) -> String {
    let mut s = String::new();
    for row in rows.iter() {
        s.push(WALL);
        for c in row.iter() {
            s.push(*c);
        }
        s.push(WALL);
        s.push('\n');
    }
    for _ in 0..6 {
        s.push(WALL);
    }
    s.push('\n');
    s
}

#[test]
fn convert_to_char_gives_each_symbol() {
    assert_eq!(BoardValue::Cookie.convert_to_char(), '\u{1F36A}');
    assert_eq!(BoardValue::Milk.convert_to_char(), '\u{1F95B}');
    assert_eq!(BoardValue::Empty.convert_to_char(), '\u{2B1B}');
    assert_eq!(WALL, '\u{2B1C}');
    assert_eq!(BoardValue::default(), BoardValue::Empty);
}

#[test]
fn fresh_board_renders_empty_grid() {
    let b = Board::default();
    let expected = "⬜⬛⬛⬛⬛⬜\n⬜⬛⬛⬛⬛⬜\n⬜⬛⬛⬛⬛⬜\n⬜⬛⬛⬛⬛⬜\n⬜⬜⬜⬜⬜⬜\n";
    assert_eq!(b.build_to_string(), expected);
    assert_eq!(b.get_current_state(), expected);
    let r = board(&b);
    assert_eq!(r.status, 200);
    assert_eq!(text_of(&r), expected);
    assert_eq!(b.build_to_string().chars().count(), 35);
}

#[test]
fn place_rejects_columns_outside_one_to_four() {
    let mut b = Board::default();
    for col in [0u8, 5, 255] {
        let r = place(&mut b, BoardValue::Cookie, col);
        assert_eq!(r.status, 400);
        assert!(matches!(r.body, ReplyBody::Empty));
    }
    assert_eq!(b.get_current_state(), render([[EMPTY; 4]; 4]));
    assert!(b.winner.is_none());
}

#[test]
fn pieces_fall_to_lowest_empty_cell() {
    let mut b = Board::default();
    let r = place(&mut b, BoardValue::Cookie, 2);
    assert_eq!(r.status, 200);
    assert_eq!(b.grid[3][1], BoardValue::Cookie);
    let r = place(&mut b, BoardValue::Milk, 2);
    assert_eq!(r.status, 200);
    assert_eq!(b.grid[2][1], BoardValue::Milk);
    let expected = render([
        [EMPTY, EMPTY, EMPTY, EMPTY],
        [EMPTY, EMPTY, EMPTY, EMPTY],
        [EMPTY, MILK, EMPTY, EMPTY],
        [EMPTY, COOKIE, EMPTY, EMPTY],
    ]);
    assert_eq!(text_of(&r), expected);
    assert!(b.winner.is_none());
}

#[test]
fn vertical_line_wins_and_stops_the_game() {
    let mut b = Board::default();
    for _ in 0..3 {
        let r = place(&mut b, BoardValue::Cookie, 1);
        assert_eq!(r.status, 200);
    }
    let r = place(&mut b, BoardValue::Cookie, 1);
    assert_eq!(r.status, 200);
    assert_eq!(b.winner, Some(BoardValue::Cookie));
    let expected = render([
        [COOKIE, EMPTY, EMPTY, EMPTY],
        [COOKIE, EMPTY, EMPTY, EMPTY],
        [COOKIE, EMPTY, EMPTY, EMPTY],
        [COOKIE, EMPTY, EMPTY, EMPTY],
    ]) + "🍪 wins!\n";
    assert_eq!(text_of(&r), expected);
    let r = place(&mut b, BoardValue::Milk, 2);
    assert_eq!(r.status, 503);
    assert_eq!(text_of(&r), expected);
    assert_eq!(b.grid[3][1], BoardValue::Empty);
}

#[test]
fn horizontal_line_wins() {
    let mut b = Board::default();
    for col in 1..=4u8 {
        place(&mut b, BoardValue::Milk, col);
    }
    assert_eq!(b.winner, Some(BoardValue::Milk));
    assert!(b.get_current_state().ends_with("🥛 wins!\n"));
}

#[test]
fn diagonal_line_wins() {
    let mut b = Board::default();
    // build a diagonal of milk from bottom left to top right
    let moves: [(BoardValue, u8); 10] = [
        (BoardValue::Milk, 1),
        (BoardValue::Cookie, 2),
        (BoardValue::Milk, 2),
        (BoardValue::Cookie, 3),
        (BoardValue::Cookie, 3),
        (BoardValue::Milk, 3),
        (BoardValue::Cookie, 4),
        (BoardValue::Cookie, 4),
        (BoardValue::Cookie, 4),
        (BoardValue::Milk, 4),
    ];
    for (i, (team, col)) in moves.iter().enumerate() {
        let r = place(&mut b, *team, *col);
        assert_eq!(r.status, 200);
        if i < moves.len() - 1 {
            assert!(b.winner.is_none(), "move {}", i);
        }
    }
    assert_eq!(b.winner, Some(BoardValue::Milk));
}

#[test]
fn full_column_is_refused() {
    let mut b = Board::default();
    for team in [BoardValue::Cookie, BoardValue::Milk, BoardValue::Cookie, BoardValue::Milk] {
        assert_eq!(place(&mut b, team, 3).status, 200);
    }
    let before = b.get_current_state();
    let r = place(&mut b, BoardValue::Cookie, 3);
    assert_eq!(r.status, 503);
    assert_eq!(text_of(&r), before);
    assert!(b.winner.is_none());
}

#[test]
fn full_board_without_line_has_no_winner() {
    let mut b = Board::default();
    // columns filled bottom to top; no row, column or diagonal is uniform
    let cols: [[BoardValue; 4]; 4] = [
        [BoardValue::Cookie, BoardValue::Cookie, BoardValue::Milk, BoardValue::Milk],
        [BoardValue::Milk, BoardValue::Milk, BoardValue::Cookie, BoardValue::Cookie],
        [BoardValue::Cookie, BoardValue::Cookie, BoardValue::Milk, BoardValue::Milk],
        [BoardValue::Milk, BoardValue::Milk, BoardValue::Cookie, BoardValue::Cookie],
    ];
    for (c, col) in cols.iter().enumerate() {
        for team in col.iter() {
            let r = place(&mut b, *team, (c + 1) as u8);
            assert_eq!(r.status, 200);
        }
    }
    assert_eq!(b.winner, Some(BoardValue::Empty));
    assert!(b.get_current_state().ends_with("No winner.\n"));
    assert_eq!(place(&mut b, BoardValue::Cookie, 1).status, 503);
}

#[test]
fn reset_clears_the_game() {
    let mut b = Board::default();
    for _ in 0..4 {
        place(&mut b, BoardValue::Cookie, 4);
    }
    assert!(b.winner.is_some());
    let r = reset(&mut b);
    assert_eq!(r.status, 200);
    assert_eq!(text_of(&r), render([[EMPTY; 4]; 4]));
    assert!(b.winner.is_none());
    assert_eq!(place(&mut b, BoardValue::Milk, 4).status, 200);
}

fn owner(cells: [BoardValue; 4]) -> Option<BoardValue> {
    if cells.iter().all(|c| *c == BoardValue::Cookie) {
        Some(BoardValue::Cookie)
    } else if cells.iter().all(|c| *c == BoardValue::Milk) {
        Some(BoardValue::Milk)
    } else {
        None
    }
}

#[test]
fn random_board_fills_every_cell_and_finds_first_line() {
    let mut b = Board::default();
    for _ in 0..20 {
        let r = random_board(&mut b);
        assert_eq!(r.status, 200);
        let g = b.grid;
        assert!(g.iter().all(|row| row.iter().all(|c| *c != BoardValue::Empty)));
        let mut lines: Vec<[BoardValue; 4]> = Vec::new();
        for r in 0..4 {
            lines.push(g[r]);
        }
        for c in 0..4 {
            lines.push([g[0][c], g[1][c], g[2][c], g[3][c]]);
        }
        lines.push([g[0][0], g[1][1], g[2][2], g[3][3]]);
        lines.push([g[3][0], g[2][1], g[1][2], g[0][3]]);
        let expected = lines.iter().find_map(|l| owner(*l)).unwrap_or(BoardValue::Empty);
        assert_eq!(b.winner, Some(expected));
        let text = text_of(&r);
        if expected == BoardValue::Empty {
            assert!(text.ends_with("No winner.\n"));
        } else {
            assert!(text.ends_with(&format!("{} wins!\n", expected.convert_to_char())));
        }
    }
}

#[test]
fn apply_draws_follows_row_order() {
    let mut b = Board::default();
    let mut draws = [false; 16];
    draws[0] = true;
    draws[5] = true;
    draws[10] = true;
    draws[15] = true;
    b.apply_draws(&draws);
    assert_eq!(b.grid[0][0], BoardValue::Cookie);
    assert_eq!(b.grid[0][1], BoardValue::Milk);
    assert_eq!(b.grid[3][3], BoardValue::Cookie);
    assert_eq!(b.winner, Some(BoardValue::Cookie));
    b.apply_draws(&[false; 16]);
    assert_eq!(b.winner, Some(BoardValue::Milk));
    let mut mixed = [false; 16];
    for i in [0usize, 1, 6, 7, 8, 9, 14, 15] {
        mixed[i] = true;
    }
    b.apply_draws(&mixed);
    assert_eq!(b.winner, Some(BoardValue::Empty));
}

#[test]
fn first_move_on_fresh_board_lands_on_bottom_and_keeps_game_open() {
    for col in 1..=4u8 {
        for team in [BoardValue::Cookie, BoardValue::Milk] {
            let mut b = Board::default();
            let r = place(&mut b, team, col);
            assert_eq!(r.status, 200);
            assert_eq!(b.grid[3][(col - 1) as usize], team);
            assert!(b.winner.is_none());
        }
    }
}

#[test]
fn placing_empty_on_fresh_board_ends_without_winner() {
    let mut b = Board::default();
    let r = place(&mut b, BoardValue::Empty, 1);
    assert_eq!(r.status, 200);
    assert_eq!(b.winner, Some(BoardValue::Empty));
    assert!(text_of(&r).ends_with("No winner.\n"));
}

#[test]
fn random_board_after_reset_replays() {
    let mut b = Board::default();
    let first = text_of(&random_board(&mut b));
    let second = text_of(&random_board(&mut b));
    reset(&mut b);
    assert_eq!(text_of(&random_board(&mut b)), first);
    assert_eq!(text_of(&random_board(&mut b)), second);
    let mut fresh = Board::default();
    assert_eq!(text_of(&random_board(&mut fresh)), first);
}

#[test]
fn first_random_board_of_seed_2024() {
    let mut b = Board::default();
    let r = random_board(&mut b);
    let expected = "⬜🍪🍪🍪🍪⬜\n⬜🥛🍪🍪🥛⬜\n⬜🥛🥛🥛🥛⬜\n⬜🍪🥛🍪🥛⬜\n⬜⬜⬜⬜⬜⬜\n🍪 wins!\n";
    assert_eq!(text_of(&r), expected);
}

fn filled_cells(b: &Board) -> usize {
    b.grid.iter().map(|row| row.iter().filter(|c| **c != BoardValue::Empty).count()).sum()
}

fn rests_on_support(b: &Board) -> bool {
    (0..3).all(|r| (0..4).all(|c| b.grid[r][c] == BoardValue::Empty || b.grid[r + 1][c] != BoardValue::Empty))
}

#[test]
fn each_accepted_move_fills_one_cell_and_keeps_gravity() {
    let mut b = Board::default();
    let moves: [(BoardValue, u8); 8] = [
        (BoardValue::Cookie, 2),
        (BoardValue::Milk, 2),
        (BoardValue::Cookie, 3),
        (BoardValue::Milk, 1),
        (BoardValue::Cookie, 2),
        (BoardValue::Milk, 9),
        (BoardValue::Milk, 4),
        (BoardValue::Cookie, 2),
    ];
    for (team, col) in moves {
        let before = filled_cells(&b);
        let r = place(&mut b, team, col);
        let extra = if r.status == 200 { 1 } else { 0 };
        assert_eq!(filled_cells(&b), before + extra);
        assert!(rests_on_support(&b));
    }
    assert_eq!(filled_cells(&b), 7);
}
