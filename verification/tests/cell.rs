use minesweeper::cell::{Cell, CellType, DETONATED, MINE};

#[test]
fn new_cell_is_hidden_and_unselected() {
    let cell = Cell::new(3);
    assert_eq!(cell.value, 3);
    assert_eq!(cell.cell_type, CellType::Hidden);
    assert!(!cell.sel);
    assert_eq!(cell.get(), 3);
}

#[test]
fn set_replaces_the_value() {
    let mut cell = Cell::new(0);
    cell.set(7);
    assert_eq!(cell.get(), 7);
    assert_eq!(cell.cell_type, CellType::Hidden);
}

#[test]
fn inc_adds_one_and_saturates() {
    let mut cell = Cell::new(0);
    cell.inc();
    assert_eq!(cell.get(), 1);
    cell.set(254);
    cell.inc();
    assert_eq!(cell.get(), 255);
    cell.inc();
    assert_eq!(cell.get(), 255);
}

#[test]
fn show_opens_unless_flagged() {
    let mut cell = Cell::new(2);
    cell.show();
    assert_eq!(cell.cell_type, CellType::Visible);
    assert!(cell.is_visible());

    let mut flagged = Cell::new(2);
    assert_eq!(flagged.flag(0), 1);
    flagged.show();
    assert_eq!(flagged.cell_type, CellType::Flag);
    assert!(!flagged.is_visible());

    let mut wrong = Cell::new(2);
    wrong.cell_type = CellType::WrongFlag;
    wrong.show();
    assert_eq!(wrong.cell_type, CellType::Visible);
}

#[test]
fn flag_cycles_between_hidden_and_flag() {
    let mut cell = Cell::new(0);
    assert_eq!(cell.flag(4), 5);
    assert!(cell.is_flag());
    assert_eq!(cell.flag(5), 4);
    assert_eq!(cell.cell_type, CellType::Hidden);
    assert!(!cell.is_flag());
}

#[test]
fn flag_leaves_open_cells_alone() {
    let mut cell = Cell::new(1);
    cell.show();
    assert_eq!(cell.flag(4), 4);
    assert_eq!(cell.cell_type, CellType::Visible);

    let mut wrong = Cell::new(1);
    wrong.cell_type = CellType::WrongFlag;
    assert_eq!(wrong.flag(4), 4);
    assert_eq!(wrong.cell_type, CellType::WrongFlag);
}

#[test]
fn sel_flips_the_highlight() {
    let mut cell = Cell::new(0);
    cell.sel();
    assert!(cell.sel);
    cell.sel();
    assert!(!cell.sel);
}

#[test]
fn is_mine_knows_both_mine_values() {
    assert_eq!(MINE, 0xff);
    assert_eq!(DETONATED, 0xfe);
    assert!(Cell::new(0xff).is_mine());
    assert!(Cell::new(0xfe).is_mine());
    assert!(!Cell::new(0xfd).is_mine());
    assert!(!Cell::new(0).is_mine());
    assert!(!Cell::new(8).is_mine());
}
