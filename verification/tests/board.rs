use minesweeper::board::{center_of, Board, Pos};
use minesweeper::cell::{Cell, CellType, DETONATED, MINE};
use rand::Rng;

fn at(board: &Board, x: usize, y: usize) -> Cell {
    board.cells[y * board.size.x + x]
}

fn go_to(board: &mut Board, x: usize, y: usize) {
    while board.cur.x != x {
        board.cur_right();
    }
    while board.cur.y != y {
        board.cur_down();
    }
}

fn mines_around(board: &Board, x: usize, y: usize) -> u8 {
    let mut n = 0;
    for dy in 0..3usize {
        for dx in 0..3usize {
            if dx == 1 && dy == 1 {
                continue;
            }
            let (nx, ny) = (x + dx, y + dy);
            if nx == 0 || ny == 0 || nx > board.size.x || ny > board.size.y {
                continue;
            }
            if at(board, nx - 1, ny - 1).is_mine() {
                n += 1;
            }
        }
    }
    n
}

fn count_type(board: &Board, kind: CellType) -> usize {
    board.cells.iter().filter(|c| c.cell_type == kind).count()
}

fn count_mines(board: &Board) -> usize {
    board.cells.iter().filter(|c| c.is_mine()).count()
}

fn selected(board: &Board) -> Vec<usize> {
    (0..board.cells.len()).filter(|&i| board.cells[i].sel).collect()
}

/// A 4x3 board with mines at (3, 0) and (0, 2), the cursor at (1, 1).
fn two_mine_board() -> Board {
    let mut board = Board::new(4, 3, 2);
    assert_eq!(board.cur, Pos::new(1, 1));
    assert!(board.place_mine(Pos::new(3, 0)));
    assert!(board.place_mine(Pos::new(0, 2)) == false);
    go_to(&mut board, 2, 0);
    assert!(board.place_mine(Pos::new(0, 2)));
    go_to(&mut board, 1, 1);
    board
}

#[test]
fn new_board_has_nothing_revealed_flagged_or_generated() {
    for (w, h, m) in [(9, 9, 10), (16, 16, 40), (30, 16, 99), (1, 1, 0), (0, 0, 0), (5, 0, 3)] {
        let board = Board::new(w, h, m);
        assert_eq!(board.rev, 0);
        assert_eq!(board.flags, 0);
        assert!(!board.generated);
        assert_eq!(board.mines, m);
        assert_eq!(board.size, Pos::new(w, h));
        assert_eq!(board.cells.len(), w * h);
        assert!(board.cells.iter().all(|c| c.value == 0 && c.cell_type == CellType::Hidden));
    }
}

#[test]
fn new_board_selects_the_centre() {
    let board = Board::new(9, 9, 10);
    assert_eq!(board.cur, Pos::new(4, 4));
    assert_eq!(selected(&board), vec![4 * 9 + 4]);

    let board = Board::new(30, 16, 99);
    assert_eq!(board.cur, Pos::new(14, 7));
    assert_eq!(selected(&board), vec![7 * 30 + 14]);

    let board = Board::new(2, 2, 1);
    assert_eq!(board.cur, Pos::new(0, 0));

    let board = Board::new(0, 0, 0);
    assert_eq!(board.cur, Pos::new(0, 0));
    assert!(board.is_empty());
}

#[test]
fn center_of_halves_the_last_index() {
    assert_eq!(center_of(9, 9), Pos::new(4, 4));
    assert_eq!(center_of(16, 16), Pos::new(7, 7));
    assert_eq!(center_of(30, 16), Pos::new(14, 7));
    assert_eq!(center_of(1, 1), Pos::new(0, 0));
    assert_eq!(center_of(0, 0), Pos::new(0, 0));
    assert_eq!(center_of(0, 5), Pos::new(0, 2));
}

#[test]
fn get_id_is_row_major() {
    let board = Board::new(5, 3, 0);
    assert_eq!(board.get_id(0, 0), 0);
    assert_eq!(board.get_id(4, 0), 4);
    assert_eq!(board.get_id(0, 1), 5);
    assert_eq!(board.get_id(3, 2), 13);
}

#[test]
fn get_neighbors_clips_at_the_edges() {
    let board = Board::new(4, 3, 0);
    let mut corner = board.get_neighbors(Pos::new(0, 0));
    corner.sort_by_key(|p| (p.y, p.x));
    assert_eq!(corner, vec![Pos::new(1, 0), Pos::new(0, 1), Pos::new(1, 1)]);

    let mut edge = board.get_neighbors(Pos::new(3, 1));
    edge.sort_by_key(|p| (p.y, p.x));
    assert_eq!(
        edge,
        vec![Pos::new(2, 0), Pos::new(3, 0), Pos::new(2, 1), Pos::new(2, 2), Pos::new(3, 2)]
    );

    let mut inner = board.get_neighbors(Pos::new(1, 1));
    inner.sort_by_key(|p| (p.y, p.x));
    assert_eq!(
        inner,
        vec![
            Pos::new(0, 0),
            Pos::new(1, 0),
            Pos::new(2, 0),
            Pos::new(0, 1),
            Pos::new(2, 1),
            Pos::new(0, 2),
            Pos::new(1, 2),
            Pos::new(2, 2)
        ]
    );

    let single = Board::new(1, 1, 0);
    assert!(single.get_neighbors(Pos::new(0, 0)).is_empty());
}

#[test]
fn cursor_wraps_on_a_board_of_width_five() {
    let mut board = Board::new(5, 3, 0);
    go_to(&mut board, 0, 1);
    board.cur_left();
    assert_eq!(board.cur, Pos::new(4, 1));
    assert_eq!(selected(&board), vec![1 * 5 + 4]);
    board.cur_right();
    assert_eq!(board.cur, Pos::new(0, 1));
    assert_eq!(selected(&board), vec![1 * 5]);
}

#[test]
fn cursor_wraps_along_the_height() {
    let mut board = Board::new(5, 3, 0);
    go_to(&mut board, 2, 0);
    board.cur_up();
    assert_eq!(board.cur, Pos::new(2, 2));
    assert_eq!(selected(&board), vec![2 * 5 + 2]);
    board.cur_down();
    assert_eq!(board.cur, Pos::new(2, 0));
    assert_eq!(selected(&board), vec![2]);
}

#[test]
fn cursor_moves_one_step_inside_the_board() {
    let mut board = Board::new(5, 5, 0);
    assert_eq!(board.cur, Pos::new(2, 2));
    board.cur_up();
    assert_eq!(board.cur, Pos::new(2, 1));
    board.cur_left();
    assert_eq!(board.cur, Pos::new(1, 1));
    board.cur_down();
    assert_eq!(board.cur, Pos::new(1, 2));
    board.cur_right();
    assert_eq!(board.cur, Pos::new(2, 2));
    assert_eq!(selected(&board), vec![2 * 5 + 2]);
}

#[test]
fn cursor_on_a_single_cell_stays() {
    let mut board = Board::new(1, 1, 0);
    board.cur_up();
    board.cur_down();
    board.cur_left();
    board.cur_right();
    board.center();
    assert_eq!(board.cur, Pos::new(0, 0));
    assert_eq!(selected(&board), vec![0]);
}

#[test]
fn center_brings_the_cursor_back() {
    let mut board = Board::new(9, 9, 10);
    go_to(&mut board, 0, 8);
    board.center();
    assert_eq!(board.cur, Pos::new(4, 4));
    assert_eq!(selected(&board), vec![4 * 9 + 4]);
}

#[test]
fn operations_on_an_empty_board_change_nothing() {
    let mut board = Board::new(0, 0, 3);
    board.cur_up();
    board.cur_down();
    board.cur_left();
    board.cur_right();
    board.center();
    board.flag();
    assert!(board.reveal_at_cursor());
    board.reveal_mines();
    board.reset();
    assert!(board.cells.is_empty());
    assert_eq!(board.rev, 0);
    assert_eq!(board.flags, 0);
    assert!(!board.win());
}

#[test]
fn place_mine_counts_the_mine_on_its_neighbours() {
    let board = two_mine_board();
    assert!(board.generated);
    let values: Vec<u8> = board.cells.iter().map(|c| c.value).collect();
    assert_eq!(values, vec![0, 0, 1, MINE, 1, 1, 1, 1, MINE, 1, 0, 0]);
    assert_eq!(count_mines(&board), 2);
    assert_eq!(board.rev, 0);
    assert_eq!(board.flags, 0);
}

#[test]
fn place_mine_turns_down_what_it_must() {
    let mut board = Board::new(5, 5, 3);
    for y in 1..4 {
        for x in 1..4 {
            assert!(!board.place_mine(Pos::new(x, y)));
        }
    }
    assert!(!board.place_mine(Pos::new(5, 0)));
    assert!(!board.place_mine(Pos::new(0, 5)));
    assert!(board.place_mine(Pos::new(0, 0)));
    assert!(!board.place_mine(Pos::new(0, 0)));
    assert_eq!(count_mines(&board), 1);
    assert_eq!(at(&board, 1, 1).value, 1);
    assert_eq!(at(&board, 1, 0).value, 1);
    assert_eq!(at(&board, 0, 1).value, 1);
    assert_eq!(at(&board, 2, 2).value, 0);
}

#[test]
fn first_reveal_keeps_the_cursor_and_its_neighbours_safe() {
    for (w, h, m) in [(9, 9, 10), (16, 16, 40), (30, 16, 99), (4, 4, 7), (3, 3, 1), (1, 1, 1)] {
        for (cx, cy) in [(0, 0), (w - 1, 0), (0, h - 1), (w - 1, h - 1), (w / 2, h / 2)] {
            let mut board = Board::new(w, h, m);
            go_to(&mut board, cx, cy);
            assert!(board.reveal_at_cursor());
            assert!(board.generated);
            for y in 0..h {
                for x in 0..w {
                    let cell = at(&board, x, y);
                    if x.abs_diff(cx) <= 1 && y.abs_diff(cy) <= 1 {
                        assert!(!cell.is_mine());
                    }
                    if cell.is_mine() {
                        assert_eq!(cell.value, MINE);
                        assert!(!cell.is_visible());
                    } else {
                        assert_eq!(cell.value, mines_around(&board, x, y));
                    }
                }
            }
            assert!(at(&board, cx, cy).is_visible());
            assert_eq!(board.rev, count_type(&board, CellType::Visible));
        }
    }
}

#[test]
fn first_reveal_lays_as_many_mines_as_asked() {
    for _ in 0..20 {
        let mut board = Board::new(9, 9, 10);
        assert!(board.reveal_at_cursor());
        assert_eq!(count_mines(&board), 10);
    }
    let mut board = Board::new(30, 16, 99);
    assert!(board.reveal_at_cursor());
    assert_eq!(count_mines(&board), 99);
}

#[test]
fn first_reveal_lays_no_more_mines_than_fit() {
    let mut board = Board::new(3, 3, 10);
    go_to(&mut board, 0, 0);
    assert!(board.reveal_at_cursor());
    assert_eq!(count_mines(&board), 5);

    let mut board = Board::new(3, 3, 1);
    assert!(board.reveal_at_cursor());
    assert_eq!(count_mines(&board), 0);
    assert_eq!(board.rev, 9);

    let mut board = Board::new(4, 1, 2);
    go_to(&mut board, 0, 0);
    assert!(board.reveal_at_cursor());
    assert!(at(&board, 2, 0).is_mine());
    assert!(at(&board, 3, 0).is_mine());
    assert_eq!(at(&board, 1, 0).value, 1);
}

#[test]
fn mines_fall_on_different_cells_from_game_to_game() {
    let mut seen = std::collections::BTreeSet::new();
    for _ in 0..60 {
        let mut board = Board::new(20, 1, 1);
        assert_eq!(board.cur, Pos::new(9, 0));
        assert!(board.reveal_at_cursor());
        assert_eq!(count_mines(&board), 1);
        let mine = (0..20).find(|&x| at(&board, x, 0).is_mine()).unwrap();
        assert!(mine < 8 || mine > 10);
        seen.insert(mine);
    }
    assert!(seen.len() > 1);
}

#[test]
fn reveal_opens_a_numbered_cell_alone() {
    let mut board = two_mine_board();
    go_to(&mut board, 2, 1);
    assert!(board.reveal_at_cursor());
    assert_eq!(board.rev, 1);
    assert_eq!(count_type(&board, CellType::Visible), 1);
    assert!(at(&board, 2, 1).is_visible());
}

#[test]
fn reveal_cascades_from_a_cell_without_mines_around() {
    let mut board = two_mine_board();
    go_to(&mut board, 0, 0);
    assert!(board.reveal_at_cursor());
    let open: Vec<bool> = board.cells.iter().map(|c| c.is_visible()).collect();
    assert_eq!(
        open,
        vec![
            true, true, true, false, true, true, true, false, false, false, false, false
        ]
    );
    assert_eq!(board.rev, 6);

    go_to(&mut board, 3, 2);
    assert!(board.reveal_at_cursor());
    let open: Vec<bool> = board.cells.iter().map(|c| c.is_visible()).collect();
    assert_eq!(
        open,
        vec![true, true, true, false, true, true, true, true, false, true, true, true]
    );
    assert_eq!(board.rev, 10);
}

#[test]
fn cascade_stops_at_flags() {
    let mut board = two_mine_board();
    go_to(&mut board, 1, 0);
    board.flag();
    go_to(&mut board, 1, 1);
    board.flag();
    go_to(&mut board, 0, 0);
    assert!(board.reveal_at_cursor());
    let open: Vec<bool> = board.cells.iter().map(|c| c.is_visible()).collect();
    assert_eq!(
        open,
        vec![
            true, false, false, false, true, false, false, false, false, false, false, false
        ]
    );
    assert_eq!(board.rev, 2);
    assert_eq!(board.flags, 2);
}

#[test]
fn reveal_on_a_flag_does_nothing() {
    let mut board = two_mine_board();
    go_to(&mut board, 3, 0);
    board.flag();
    let before = board.cells.clone();
    assert!(board.reveal_at_cursor());
    assert_eq!(board.cells, before);
    assert_eq!(board.rev, 0);
}

#[test]
fn reveal_on_a_mine_sets_it_off() {
    let mut board = two_mine_board();
    go_to(&mut board, 3, 0);
    assert!(!board.reveal_at_cursor());
    assert_eq!(at(&board, 3, 0).value, DETONATED);
    assert_eq!(at(&board, 3, 0).cell_type, CellType::Hidden);
    assert_eq!(at(&board, 0, 2).value, MINE);
    assert_eq!(board.rev, 0);
}

#[test]
fn chord_opens_the_unflagged_neighbours() {
    let mut board = two_mine_board();
    go_to(&mut board, 3, 0);
    board.flag();
    go_to(&mut board, 3, 1);
    assert!(board.reveal_at_cursor());
    assert_eq!(board.rev, 1);
    assert!(board.reveal_at_cursor());
    let open: Vec<bool> = board.cells.iter().map(|c| c.is_visible()).collect();
    assert_eq!(
        open,
        vec![
            false, false, true, false, false, true, true, true, false, true, true, true
        ]
    );
    assert_eq!(board.rev, 7);
    assert_eq!(at(&board, 3, 0).cell_type, CellType::Flag);
    assert_eq!(at(&board, 3, 0).value, MINE);
}

#[test]
fn chord_on_an_unflagged_mine_loses_and_still_opens_the_rest() {
    let mut board = two_mine_board();
    go_to(&mut board, 3, 1);
    assert!(board.reveal_at_cursor());
    assert!(!board.reveal_at_cursor());
    assert_eq!(at(&board, 3, 0).value, DETONATED);
    assert!(!at(&board, 3, 0).is_visible());
    for (x, y) in [(2, 0), (1, 1), (2, 1), (3, 1), (1, 2), (2, 2), (3, 2)] {
        assert!(at(&board, x, y).is_visible());
    }
    for (x, y) in [(0, 0), (1, 0), (0, 1), (0, 2)] {
        assert!(!at(&board, x, y).is_visible());
    }
    assert_eq!(board.rev, 7);
}

#[test]
fn second_chord_changes_nothing() {
    let mut board = two_mine_board();
    go_to(&mut board, 0, 0);
    assert!(board.reveal_at_cursor());
    let after_first = (board.cells.clone(), board.rev, board.flags);
    assert!(board.reveal_at_cursor());
    assert_eq!((board.cells.clone(), board.rev, board.flags), after_first);
    assert!(board.reveal_at_cursor());
    assert_eq!((board.cells.clone(), board.rev, board.flags), after_first);

    go_to(&mut board, 2, 1);
    assert!(!board.reveal_at_cursor());
    let after_loss = (board.cells.clone(), board.rev, board.flags);
    assert!(!board.reveal_at_cursor());
    assert_eq!((board.cells.clone(), board.rev, board.flags), after_loss);
}

#[test]
fn reveal_never_lowers_the_count_or_closes_a_cell() {
    let mut board = Board::new(9, 9, 10);
    let mut last = 0;
    for (x, y) in [(4, 4), (0, 0), (8, 8), (4, 4), (0, 8), (8, 0), (4, 4)] {
        go_to(&mut board, x, y);
        let open: Vec<bool> = board.cells.iter().map(|c| c.is_visible()).collect();
        board.reveal_at_cursor();
        assert!(board.rev >= last);
        last = board.rev;
        assert_eq!(board.rev, count_type(&board, CellType::Visible));
        for i in 0..open.len() {
            if open[i] {
                assert!(board.cells[i].is_visible());
            }
        }
    }
}

#[test]
fn flag_twice_returns_the_cell_to_hidden() {
    let mut board = Board::new(9, 9, 10);
    let before = board.cells.clone();
    board.flag();
    assert_eq!(board.flags, 1);
    assert_eq!(at(&board, 4, 4).cell_type, CellType::Flag);
    board.flag();
    assert_eq!(board.flags, 0);
    assert_eq!(at(&board, 4, 4).cell_type, CellType::Hidden);
    assert_eq!(board.cells, before);
}

#[test]
fn flag_has_no_effect_on_an_open_cell() {
    let mut board = two_mine_board();
    go_to(&mut board, 2, 1);
    assert!(board.reveal_at_cursor());
    board.flag();
    assert_eq!(board.flags, 0);
    assert!(at(&board, 2, 1).is_visible());
}

#[test]
fn flags_left_is_mines_minus_flags() {
    let mut board = Board::new(3, 3, 1);
    assert_eq!(board.flags_left(), 1);
    board.flag();
    assert_eq!(board.flags_left(), 0);
    board.cur_left();
    board.flag();
    assert_eq!(board.flags_left(), -1);
    board.cur_up();
    board.flag();
    assert_eq!(board.flags_left(), -2);
    board.flag();
    assert_eq!(board.flags_left(), -1);

    assert_eq!(Board::new(9, 9, 10).flags_left(), 10);
    assert_eq!(Board::new(30, 16, 99).flags_left(), 99);
}

#[test]
fn flags_left_stops_at_the_bounds_of_isize() {
    let board = Board::new(2, 2, usize::MAX);
    assert_eq!(board.flags_left(), isize::MAX);
    let mut board = Board::new(2, 2, isize::MAX as usize);
    assert_eq!(board.flags_left(), isize::MAX);
    board.flag();
    assert_eq!(board.flags_left(), isize::MAX - 1);
}

#[test]
fn win_after_flagging_the_mine_and_opening_the_rest() {
    let mut board = Board::new(3, 3, 1);
    go_to(&mut board, 0, 0);
    assert!(board.place_mine(Pos::new(2, 2)));
    assert!(!board.win());
    go_to(&mut board, 2, 2);
    board.flag();
    assert!(!board.win());
    for (x, y) in [(1, 1), (2, 1), (1, 2), (0, 0), (1, 0), (2, 0), (0, 1), (0, 2)] {
        go_to(&mut board, x, y);
        if !at(&board, x, y).is_visible() {
            assert!(!board.win());
            assert!(board.reveal_at_cursor());
        }
    }
    assert_eq!(board.rev, 8);
    assert_eq!(board.flags, 1);
    assert!(board.win());
}

#[test]
fn no_win_while_a_cell_is_closed_or_a_flag_is_missing() {
    let mut board = two_mine_board();
    go_to(&mut board, 0, 0);
    assert!(board.reveal_at_cursor());
    go_to(&mut board, 3, 2);
    assert!(board.reveal_at_cursor());
    assert_eq!(board.rev, 10);
    assert!(!board.win());
    go_to(&mut board, 3, 0);
    board.flag();
    assert!(!board.win());
    go_to(&mut board, 0, 2);
    board.flag();
    assert!(board.win());
    board.flag();
    assert!(!board.win());
}

#[test]
fn losing_on_a_two_by_two_board_uncovers_the_mine() {
    let mut board = Board::new(2, 2, 1);
    board.cells[3].set(MINE);
    for i in 0..3 {
        board.cells[i].inc();
    }
    board.generated = true;
    board.flag();
    go_to(&mut board, 1, 0);
    assert!(board.reveal_at_cursor());
    go_to(&mut board, 1, 1);
    assert!(!board.reveal_at_cursor());
    board.reveal_mines();
    assert_eq!(at(&board, 1, 1).cell_type, CellType::Visible);
    assert_eq!(at(&board, 1, 1).value, DETONATED);
    assert_eq!(at(&board, 0, 0).cell_type, CellType::WrongFlag);
    assert_eq!(at(&board, 1, 0).cell_type, CellType::Visible);
    assert_eq!(at(&board, 0, 1).cell_type, CellType::Hidden);
    assert_eq!(board.rev, 1);
    assert_eq!(board.flags, 1);
    assert!(!board.win());
}

#[test]
fn reveal_mines_opens_flagged_mines_too() {
    let mut board = two_mine_board();
    go_to(&mut board, 3, 0);
    board.flag();
    go_to(&mut board, 1, 1);
    board.flag();
    go_to(&mut board, 0, 2);
    assert!(!board.reveal_at_cursor());
    board.reveal_mines();
    assert_eq!(at(&board, 3, 0).cell_type, CellType::Visible);
    assert_eq!(at(&board, 3, 0).value, MINE);
    assert_eq!(at(&board, 0, 2).cell_type, CellType::Visible);
    assert_eq!(at(&board, 0, 2).value, DETONATED);
    assert_eq!(at(&board, 1, 1).cell_type, CellType::WrongFlag);
    assert_eq!(count_type(&board, CellType::Hidden), 9);
    assert_eq!(count_type(&board, CellType::Flag), 0);
    assert_eq!(board.flags, 2);
    assert_eq!(board.flags_left(), 0);
}

#[test]
fn reset_restores_the_board() {
    let mut board = Board::new(9, 9, 10);
    assert!(board.reveal_at_cursor());
    go_to(&mut board, 0, 0);
    board.flag();
    go_to(&mut board, 8, 8);
    board.reveal_at_cursor();
    go_to(&mut board, 3, 5);
    board.reset();
    assert_eq!(board.rev, 0);
    assert_eq!(board.flags, 0);
    assert!(!board.generated);
    assert_eq!(board.mines, 10);
    assert_eq!(board.size, Pos::new(9, 9));
    assert_eq!(board.cur, Pos::new(3, 5));
    assert!(board.cells.iter().all(|c| c.value == 0 && c.cell_type == CellType::Hidden));
    assert_eq!(selected(&board), vec![5 * 9 + 3]);

    assert!(board.reveal_at_cursor());
    for y in 4..7 {
        for x in 2..5 {
            assert!(!at(&board, x, y).is_mine());
        }
    }
    assert_eq!(count_mines(&board), 10);
}

#[test]
fn reset_after_a_lost_game() {
    let mut board = two_mine_board();
    go_to(&mut board, 3, 0);
    assert!(!board.reveal_at_cursor());
    board.reveal_mines();
    board.reset();
    assert_eq!(board.rev, 0);
    assert_eq!(board.flags, 0);
    assert!(!board.generated);
    assert!(board.cells.iter().all(|c| c.value == 0 && c.cell_type == CellType::Hidden));
    assert_eq!(selected(&board), vec![3]);
}

#[test]
fn boards_made_by_the_operations_are_valid() {
    let mut board = Board::new(9, 9, 10);
    assert!(board.is_valid());
    assert!(board.is_counted());
    board.flag();
    board.cur_left();
    assert!(board.reveal_at_cursor());
    go_to(&mut board, 0, 8);
    board.reveal_at_cursor();
    board.center();
    assert!(board.is_valid());
    assert!(board.is_counted());
    board.reveal_mines();
    assert!(board.is_valid());
    board.reset();
    assert!(board.is_valid());
    assert!(board.is_counted());

    assert!(Board::new(0, 0, 0).is_valid());
    assert!(Board::new(0, 7, 2).is_valid());
    assert!(two_mine_board().is_valid());
}

#[test]
fn tampering_makes_a_board_invalid() {
    let mut board = two_mine_board();
    board.cells[0].sel = true;
    assert!(!board.is_valid());

    let mut board = two_mine_board();
    board.cells[1].value = 3;
    assert!(!board.is_valid());

    let mut board = two_mine_board();
    board.cells[3].value = 0;
    assert!(!board.is_valid());

    let mut board = two_mine_board();
    board.cur = Pos::new(4, 0);
    assert!(!board.is_valid());

    let mut board = two_mine_board();
    board.cells.pop();
    assert!(!board.is_valid());

    let mut board = two_mine_board();
    board.generated = false;
    assert!(!board.is_valid());

    let mut board = Board::new(3, 3, 1);
    board.cells[0].cell_type = CellType::Visible;
    assert!(!board.is_valid());

    let mut board = Board::new(3, 3, 1);
    board.size = Pos::new(usize::MAX, usize::MAX);
    assert!(!board.is_valid());
}

#[test]
fn counts_are_off_when_they_disagree_with_the_cells() {
    let mut board = two_mine_board();
    board.rev = 1;
    assert!(!board.is_counted());

    let mut board = two_mine_board();
    board.flag();
    board.flags = 0;
    assert!(!board.is_counted());

    let mut board = two_mine_board();
    go_to(&mut board, 3, 0);
    board.flag();
    assert!(board.is_counted());
    board.reveal_mines();
    assert!(!board.is_counted());
}

fn solved(board: &Board) -> bool {
    board.cells.iter().all(|c| if c.is_mine() { c.is_flag() } else { c.is_visible() })
}

#[test]
fn win_means_solved_throughout_random_games() {
    let mut rng = rand::thread_rng();
    let mut wins = 0;
    for _ in 0..300 {
        let mut board = Board::new(5, 4, 3);
        assert!(board.reveal_at_cursor());
        assert_eq!(count_mines(&board), 3);
        for _ in 0..60 {
            assert!(board.is_valid());
            assert!(board.is_counted());
            assert!(board.cells.iter().all(|c| !(c.is_mine() && c.is_visible())));
            assert_eq!(board.win(), solved(&board) && board.flags == board.mines);
            if board.win() {
                wins += 1;
                break;
            }
            let (x, y) = (rng.gen_range(0..5usize), rng.gen_range(0..4usize));
            go_to(&mut board, x, y);
            if at(&board, x, y).is_mine() != at(&board, x, y).is_flag() {
                board.flag();
            } else if !at(&board, x, y).is_mine() && !board.reveal_at_cursor() {
                break;
            }
        }
    }
    assert!(wins > 0);
}

#[test]
fn center_on_a_board_without_cells_only_sets_the_cursor() {
    let mut board = Board::new(0, 5, 0);
    assert_eq!(board.cur, Pos::new(0, 2));
    board.cur = Pos::new(3, 3);
    assert!(board.is_valid());
    board.center();
    assert_eq!(board.cur, Pos::new(0, 2));
    assert!(board.cells.is_empty());
    assert!(board.is_valid());
}
