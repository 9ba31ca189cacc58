use wordtui::Color;
use wordtui::Grid;
use wordtui::Outcome;
use wordtui::WordleBox;
use wordtui::WordleGrid;

fn type_word(g: &mut WordleGrid, word: &str) {
    for c in word.chars() {
        g.append_char(c);
    }
}

#[test]
fn new_board_is_empty_and_in_progress() {
    let g = WordleGrid::default();
    assert_eq!(g.cursor(), (0, 0));
    assert_eq!(g.outcome(), Outcome::InProgress);
    for r in 0..6 {
        for c in 0..5 {
            assert_eq!(g.grid[r][c].letter, None);
            assert_eq!(g.grid[r][c].color, Color::Blank);
        }
    }
}

#[test]
fn append_fills_cells_in_order() {
    let mut g = WordleGrid::default();
    g.append_char('h');
    g.append_char('i');
    assert_eq!(g.cursor(), (0, 2));
    assert_eq!(g.grid[0][0].letter, Some('h'));
    assert_eq!(g.grid[0][1].letter, Some('i'));
    assert_eq!(g.grid[0][0].color, Color::Blank);
}

#[test]
fn append_lowercases_the_letter() {
    let mut g = WordleGrid::default();
    g.append_char('A');
    assert_eq!(g.grid[0][0].letter, Some('a'));
}

#[test]
fn append_ignores_non_letters() {
    let mut g = WordleGrid::default();
    g.append_char('3');
    g.append_char('!');
    g.append_char(' ');
    assert_eq!(g.cursor(), (0, 0));
    assert_eq!(g.grid[0][0].letter, None);
}

#[test]
fn append_past_a_full_row_is_a_no_op() {
    let mut g = WordleGrid::default();
    for _ in 0..10 {
        g.append_char('a');
    }
    assert_eq!(g.cursor(), (0, 5));
    for c in 0..5 {
        assert_eq!(g.grid[0][c].letter, Some('a'));
    }
    for c in 0..5 {
        assert_eq!(g.grid[1][c].letter, None);
    }
}

#[test]
fn remove_on_an_empty_row_is_a_no_op() {
    let mut g = WordleGrid::default();
    g.remove_char();
    assert_eq!(g.cursor(), (0, 0));
    for r in 0..6 {
        for c in 0..5 {
            assert_eq!(g.grid[r][c].letter, None);
            assert_eq!(g.grid[r][c].color, Color::Blank);
        }
    }
}

#[test]
fn remove_deletes_the_last_letter() {
    let mut g = WordleGrid::default();
    g.append_char('a');
    g.append_char('b');
    g.remove_char();
    assert_eq!(g.cursor(), (0, 1));
    assert_eq!(g.grid[0][0].letter, Some('a'));
    assert_eq!(g.grid[0][1].letter, None);
}

#[test]
fn submit_on_a_non_full_row_is_a_no_op() {
    let mut g = WordleGrid::default();
    type_word(&mut g, "cra");
    g.send_word("crane");
    assert_eq!(g.cursor(), (0, 3));
    assert_eq!(g.outcome(), Outcome::InProgress);
    assert_eq!(g.grid[0][0].letter, Some('c'));
    assert_eq!(g.grid[0][0].color, Color::Blank);
}

#[test]
fn submit_scores_the_row_and_advances() {
    let mut g = WordleGrid::default();
    type_word(&mut g, "adieu");
    g.send_word("crane");
    assert_eq!(g.cursor(), (1, 0));
    assert_eq!(g.outcome(), Outcome::InProgress);
    let expected = [Color::Yellow, Color::Gray, Color::Gray, Color::Yellow, Color::Gray];
    for c in 0..5 {
        assert_eq!(g.grid[0][c].color, expected[c]);
    }
}

#[test]
fn win_scenario() {
    let mut g = WordleGrid::default();
    type_word(&mut g, "adieu");
    g.send_word("crane");
    assert_eq!(g.outcome(), Outcome::InProgress);
    type_word(&mut g, "crane");
    g.send_word("crane");
    assert_eq!(g.outcome(), Outcome::Won);
}

#[test]
fn loss_scenario() {
    let mut g = WordleGrid::default();
    let guesses = ["adieu", "ghost", "pilot", "sworn", "jumbo", "quick"];
    for w in guesses.iter() {
        type_word(&mut g, w);
        g.send_word("crane");
    }
    assert_eq!(g.cursor(), (6, 0));
    assert_eq!(g.outcome(), Outcome::Lost);
}

#[test]
fn moves_after_a_win_are_ignored() {
    let mut g = WordleGrid::default();
    type_word(&mut g, "crane");
    g.send_word("crane");
    assert_eq!(g.outcome(), Outcome::Won);
    g.append_char('x');
    g.remove_char();
    g.send_word("crane");
    assert_eq!(g.cursor(), (1, 0));
    assert_eq!(g.grid[1][0].letter, None);
    assert_eq!(g.outcome(), Outcome::Won);
}

#[test]
fn wordle_box_to_string_reads_a_full_row() {
    let row = [
        WordleBox::new(Some('h'), Color::Blank),
        WordleBox::new(Some('e'), Color::Blank),
        WordleBox::new(Some('l'), Color::Blank),
        WordleBox::new(Some('l'), Color::Blank),
        WordleBox::new(Some('o'), Color::Blank),
    ];
    assert_eq!(WordleBox::to_string(row), "hello");
}

#[test]
fn wordle_box_new_and_default() {
    let b = WordleBox::new(Some('q'), Color::Green);
    assert_eq!(b.letter, Some('q'));
    assert_eq!(b.color, Color::Green);
    let d = WordleBox::default();
    assert_eq!(d.letter, None);
    assert_eq!(d.color, Color::Blank);
}

#[test]
fn color_default_is_blank() {
    assert_eq!(Color::default(), Color::Blank);
}

#[test]
fn grid_widget_default_layout() {
    let grid = Grid::default();
    assert_eq!(grid.cell_size, 1);
    assert_eq!(grid.cols, 5);
    assert_eq!(grid.rows, 6);
}
