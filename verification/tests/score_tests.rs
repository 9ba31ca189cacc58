use wordtui::check_word;
use wordtui::Color;
use wordtui::ScoreError;
use wordtui::WordleBox;

fn colors_of(boxes: &[WordleBox; 5]) -> [Color; 5] {
    [boxes[0].color, boxes[1].color, boxes[2].color, boxes[3].color, boxes[4].color]
}

#[test]
fn score_has_five_verdicts_none_blank() {
    let boxes = check_word("adieu", "crane").unwrap();
    assert_eq!(boxes.len(), 5);
    for b in boxes.iter() {
        assert!(matches!(b.color, Color::Green | Color::Yellow | Color::Gray));
    }
}

#[test]
fn score_ordinary_guess() {
    let boxes = check_word("adieu", "crane").unwrap();
    assert_eq!(
        colors_of(&boxes),
        [Color::Yellow, Color::Gray, Color::Gray, Color::Yellow, Color::Gray]
    );
    assert_eq!(boxes[0].letter, Some('a'));
    assert_eq!(boxes[4].letter, Some('u'));
}

#[test]
fn score_solution_against_itself_is_all_green() {
    let boxes = check_word("crane", "crane").unwrap();
    assert_eq!(
        colors_of(&boxes),
        [Color::Green, Color::Green, Color::Green, Color::Green, Color::Green]
    );
}

#[test]
fn score_is_case_insensitive_in_the_guess() {
    let boxes = check_word("CRANE", "crane").unwrap();
    assert_eq!(
        colors_of(&boxes),
        [Color::Green, Color::Green, Color::Green, Color::Green, Color::Green]
    );
    assert_eq!(boxes[0].letter, Some('c'));
}

#[test]
fn duplicate_letters_stay_within_budget() {
    // "level" holds two l's: the guess repeats l three times, and only
    // two of them may come back Green or Yellow.
    let boxes = check_word("ELLEL", "level").unwrap();
    assert_eq!(
        colors_of(&boxes),
        [Color::Yellow, Color::Yellow, Color::Gray, Color::Green, Color::Green]
    );
    let awarded = boxes
        .iter()
        .filter(|b| b.letter == Some('l') && b.color != Color::Gray)
        .count();
    assert!(awarded <= 2);
}

#[test]
fn short_guess_is_a_length_mismatch() {
    assert_eq!(check_word("abc", "crane").unwrap_err(), ScoreError::LengthMismatch);
}

#[test]
fn long_guess_is_a_length_mismatch() {
    assert_eq!(check_word("cranes", "crane").unwrap_err(), ScoreError::LengthMismatch);
}

#[test]
fn wrong_solution_length_is_a_length_mismatch() {
    assert_eq!(check_word("crane", "cran").unwrap_err(), ScoreError::LengthMismatch);
}
