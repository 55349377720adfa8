use glyphgrid::grid::CharacterGrid;

#[test]
fn grid_sizing() {
    let grid = CharacterGrid::new(20, (800, 400));
    assert_eq!(grid.size(), (80, 20));
}

#[test]
fn grid_sizing_truncates() {
    // 2 * 99 / 20 == 9 columns, 45 / 20 == 2 rows
    let grid = CharacterGrid::new(20, (99, 45));
    assert_eq!(grid.size(), (9, 2));
}

#[test]
fn insert_then_pop_restores_content() {
    let mut grid = CharacterGrid::new(20, (20, 40));
    grid.insert_text("xy");
    let before = grid.glyphs();
    grid.insert_text("ab");
    grid.insert_text("c");
    grid.pop();
    grid.pop();
    grid.pop();
    assert_eq!(grid.glyphs(), before);
}

#[test]
fn balanced_insert_pop_leaves_grid_empty() {
    let mut grid = CharacterGrid::new(20, (20, 40));
    grid.insert_text("hello");
    for _ in 0..5 {
        grid.pop();
    }
    assert_eq!(grid.glyphs().len(), 0);
    // popping an empty grid stays a no-op
    grid.pop();
    assert_eq!(grid.glyphs().len(), 0);
}

#[test]
fn fill_line_pads_to_row_boundary() {
    // columns = 2 * 40 / 20 == 4
    let mut grid = CharacterGrid::new(20, (40, 80));
    grid.insert_text("abc");
    grid.fill_line();
    assert_eq!(grid.glyphs().len(), 4);
    // already aligned: a second fill advances by a whole row
    grid.fill_line();
    assert_eq!(grid.glyphs().len(), 8);
}

#[test]
fn fill_line_on_empty_grid_opens_a_row() {
    let mut grid = CharacterGrid::new(20, (40, 80));
    grid.fill_line();
    assert_eq!(grid.glyphs().len(), 4);
}

#[test]
fn delete_word_removes_trailing_spaces_and_word() {
    let mut grid = CharacterGrid::new(20, (800, 400));
    grid.insert_text("ab cd  ");
    grid.delete_word();
    // "ab " remains: the trailing blanks and "cd" are gone
    assert_eq!(grid.glyphs().len(), 3);
    grid.delete_word();
    assert_eq!(grid.glyphs().len(), 0);
    // never underflows
    grid.delete_word();
    assert_eq!(grid.glyphs().len(), 0);
}

#[test]
fn char_events_drive_the_buffer() {
    let mut grid = CharacterGrid::new(20, (40, 80));
    grid.apply_char_event('h', false);
    grid.apply_char_event('i', false);
    assert_eq!(grid.glyphs().len(), 2);
    // backspace
    grid.apply_char_event('\u{f02a}', false);
    assert_eq!(grid.glyphs().len(), 1);
    // return pads to the next row of 4
    grid.apply_char_event('\n', false);
    assert_eq!(grid.glyphs().len(), 4);
    // control chords other than w do nothing
    grid.apply_char_event('x', true);
    assert_eq!(grid.glyphs().len(), 4);
    // unprintable input is ignored
    grid.apply_char_event('\u{1}', false);
    assert_eq!(grid.glyphs().len(), 4);
    // control-w deletes the trailing blank run
    grid.apply_char_event('w', true);
    assert_eq!(grid.glyphs().len(), 0);
}

#[test]
fn end_to_end_two_cells() {
    // font 20 in a 20 x 40 window: 2 columns, 2 rows
    let mut grid = CharacterGrid::new(20, (20, 40));
    assert_eq!(grid.size(), (2, 2));
    grid.insert_text("AB");
    let glyphs = grid.glyphs();
    assert_eq!(glyphs.len(), 2);

    // cell (0, 0): position 0/80 in both axes, cell size 20/40 x 20/40
    assert_eq!(glyphs[0].pos.x.num, 0);
    assert_eq!(glyphs[0].pos.x.den, 80);
    assert_eq!(glyphs[0].pos.y.num, 0);
    assert_eq!(glyphs[0].pos.y.den, 80);
    assert_eq!(glyphs[0].size.x.num, 20);
    assert_eq!(glyphs[0].size.x.den, 40);
    assert_eq!(glyphs[0].size.y.num, 20);
    assert_eq!(glyphs[0].size.y.den, 40);
    // 'A' is code 65: atlas cell ((65 - 32) % 19, (65 - 32) / 19) == (14, 1)
    assert_eq!(glyphs[0].uv_pos.x.num, 14);
    assert_eq!(glyphs[0].uv_pos.x.den, 19);
    assert_eq!(glyphs[0].uv_pos.y.num, 1);
    assert_eq!(glyphs[0].uv_pos.y.den, 5);
    assert_eq!(glyphs[0].uv_size.x.num, 1);
    assert_eq!(glyphs[0].uv_size.x.den, 19);
    assert_eq!(glyphs[0].uv_size.y.num, 1);
    assert_eq!(glyphs[0].uv_size.y.den, 5);

    // cell (1, 0): half a viewport to the right, atlas cell (15, 1) for 'B'
    assert_eq!(glyphs[1].pos.x.num, 40);
    assert_eq!(glyphs[1].pos.x.den, 80);
    assert_eq!(glyphs[1].pos.y.num, 0);
    assert_eq!(glyphs[1].uv_pos.x.num, 15);
    assert_eq!(glyphs[1].uv_pos.x.den, 19);
    assert_eq!(glyphs[1].uv_pos.y.num, 1);
    assert_eq!(glyphs[1].uv_pos.y.den, 5);
}

#[test]
fn out_of_range_characters_map_to_blank_cell() {
    let mut grid = CharacterGrid::new(20, (20, 40));
    grid.insert_text("\t");
    let glyphs = grid.glyphs();
    assert_eq!(glyphs[0].uv_pos.x.num, 0);
    assert_eq!(glyphs[0].uv_pos.y.num, 0);
}
