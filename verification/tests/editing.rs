use fraction_editor::model::{CursorFollow, InputValue, InputValues, ValueCursor};
use fraction_editor::state::ProgramState;

fn leaf(s: &str) -> InputValue {
    InputValue::Value(s.to_string())
}

fn flat(i: usize) -> ValueCursor {
    ValueCursor { index: i, follow: None }
}

fn deep(i: usize, side: CursorFollow, child: ValueCursor) -> ValueCursor {
    ValueCursor { index: i, follow: Some((side, Box::new(child))) }
}

#[test]
fn insert_advances_cursor_and_length() {
    let mut st = ProgramState::new();
    st.add_text("a".to_string());
    assert_eq!(st.lines.len(), 1);
    assert_eq!(st.lines[0].0, vec![leaf("a")]);
    assert_eq!(st.cursor.line, 0);
    assert_eq!(st.cursor.value, flat(1));
    st.add_text("b".to_string());
    assert_eq!(st.lines[0].0, vec![leaf("a"), leaf("b")]);
    assert_eq!(st.cursor.value, flat(2));
}

#[test]
fn consecutive_keystrokes_stay_separate_leaves() {
    let mut st = ProgramState::new();
    st.add_text("1".to_string());
    st.add_text("2".to_string());
    st.add_text("3".to_string());
    assert_eq!(st.lines[0].0.len(), 3);
}

#[test]
fn wrap_at_start_is_noop() {
    let mut st = ProgramState::new();
    st.add_text("/".to_string());
    assert_eq!(st.lines[0].0, Vec::<InputValue>::new());
    assert_eq!(st.cursor.value, flat(0));
}

#[test]
fn wrap_keeps_length_and_descends_into_bottom() {
    let mut st = ProgramState::new();
    st.add_text("x".to_string());
    st.add_text("/".to_string());
    assert_eq!(st.lines[0].0.len(), 1);
    assert_eq!(
        st.lines[0].0[0],
        InputValue::Fraction {
            top: InputValues(vec![leaf("x")]),
            bottom: InputValues(vec![]),
        }
    );
    assert_eq!(st.cursor.value, deep(1, CursorFollow::Bottom, flat(0)));
}

#[test]
fn dissolving_restores_the_leaf() {
    let mut st = ProgramState::new();
    st.add_text("x".to_string());
    st.add_text("/".to_string());
    st.remove_single();
    assert_eq!(st.lines[0].0, vec![leaf("x")]);
    assert_eq!(st.cursor.value, flat(1));
}

#[test]
fn one_over_two_scenario() {
    let mut st = ProgramState::new();
    st.add_text("1".to_string());
    st.add_text("/".to_string());
    st.add_text("2".to_string());
    assert_eq!(st.lines[0].0.len(), 1);
    assert_eq!(
        st.lines[0].0[0],
        InputValue::Fraction {
            top: InputValues(vec![leaf("1")]),
            bottom: InputValues(vec![leaf("2")]),
        }
    );
    assert_eq!(st.cursor.value, deep(1, CursorFollow::Bottom, flat(1)));
}

#[test]
fn deleting_back_out_of_the_fraction() {
    let mut st = ProgramState::new();
    st.add_text("1".to_string());
    st.add_text("/".to_string());
    st.add_text("2".to_string());
    st.remove_single();
    assert_eq!(
        st.lines[0].0[0],
        InputValue::Fraction {
            top: InputValues(vec![leaf("1")]),
            bottom: InputValues(vec![]),
        }
    );
    assert_eq!(st.cursor.value, deep(1, CursorFollow::Bottom, flat(0)));
    st.remove_single();
    assert_eq!(st.lines[0].0, vec![leaf("1")]);
    assert_eq!(st.cursor.value, flat(1));
}

#[test]
fn vertical_rescaling_four_over_two() {
    let top = InputValues(vec![leaf("a"), leaf("b"), leaf("c"), leaf("d")]);
    let bottom = InputValues(vec![leaf("e"), leaf("f")]);
    let line = InputValues(vec![InputValue::Fraction { top, bottom }]);
    let mut cursor = deep(1, CursorFollow::Bottom, flat(1));
    let moved = line.move_up(&mut cursor);
    assert!(moved);
    assert_eq!(cursor, deep(1, CursorFollow::Top, flat(2)));
}

#[test]
fn vertical_move_only_flips_matching_side() {
    let top = InputValues(vec![leaf("a")]);
    let bottom = InputValues(vec![]);
    let line = InputValues(vec![InputValue::Fraction { top, bottom }]);
    let mut cursor = deep(1, CursorFollow::Top, flat(0));
    // moving up from the numerator does nothing at this level
    assert!(!line.move_up(&mut cursor));
    assert_eq!(cursor, deep(1, CursorFollow::Top, flat(0)));
    // moving down flips into the denominator
    assert!(line.move_down(&mut cursor));
    assert_eq!(cursor, deep(1, CursorFollow::Bottom, flat(0)));
}

#[test]
fn newline_splits_at_the_cursor() {
    let mut st = ProgramState::new();
    st.add_text("a".to_string());
    st.add_text("b".to_string());
    st.add_text("c".to_string());
    st.move_left();
    st.new_line();
    assert_eq!(st.lines.len(), 2);
    assert_eq!(st.lines[0].0, vec![leaf("a"), leaf("b")]);
    assert_eq!(st.lines[1].0, vec![leaf("c")]);
    assert_eq!(st.cursor.line, 1);
    assert_eq!(st.cursor.value, flat(0));
}

#[test]
fn newline_inside_a_fraction_is_noop() {
    let mut st = ProgramState::new();
    st.add_text("x".to_string());
    st.add_text("/".to_string());
    st.new_line();
    assert_eq!(st.lines.len(), 1);
    assert_eq!(st.cursor.line, 0);
}

#[test]
fn backspace_at_line_start_merges_lines() {
    let mut st = ProgramState::new();
    st.add_text("a".to_string());
    st.new_line();
    st.add_text("b".to_string());
    st.move_left();
    st.remove_single();
    assert_eq!(st.lines.len(), 1);
    assert_eq!(st.lines[0].0, vec![leaf("a"), leaf("b")]);
    assert_eq!(st.cursor.line, 0);
    assert_eq!(st.cursor.value, flat(1));
}

#[test]
fn backspace_at_document_start_is_noop() {
    let mut st = ProgramState::new();
    st.remove_single();
    assert_eq!(st.lines.len(), 1);
    assert_eq!(st.cursor.value, flat(0));
    st.add_text("a".to_string());
    st.new_line();
    st.move_up();
    st.move_left();
    st.remove_single();
    assert_eq!(st.lines.len(), 2);
    assert_eq!(st.cursor.line, 0);
    assert_eq!(st.cursor.value, flat(0));
}

#[test]
fn delete_forward_at_line_end_merges_next_line() {
    let mut st = ProgramState::new();
    st.add_text("a".to_string());
    st.new_line();
    st.add_text("b".to_string());
    st.move_up();
    st.remove_next_single();
    assert_eq!(st.lines.len(), 1);
    assert_eq!(st.lines[0].0, vec![leaf("a"), leaf("b")]);
    assert_eq!(st.cursor.line, 0);
    assert_eq!(st.cursor.value, flat(1));
}

#[test]
fn delete_forward_removes_next_element() {
    let mut st = ProgramState::new();
    st.add_text("a".to_string());
    st.add_text("b".to_string());
    st.move_left();
    st.move_left();
    st.remove_next_single();
    assert_eq!(st.lines[0].0, vec![leaf("b")]);
    assert_eq!(st.cursor.value, flat(0));
}

#[test]
fn left_then_right_round_trip() {
    let mut st = ProgramState::new();
    st.add_text("a".to_string());
    st.add_text("b".to_string());
    let before = st.cursor.value.clone();
    st.move_left();
    st.move_right();
    assert_eq!(st.cursor.value, before);
    st.move_left();
    let middle = st.cursor.value.clone();
    st.move_right();
    st.move_left();
    assert_eq!(st.cursor.value, middle);
}

#[test]
fn moving_left_enters_numerator_from_the_right() {
    let mut st = ProgramState::new();
    st.add_text("1".to_string());
    st.add_text("/".to_string());
    st.add_text("2".to_string());
    st.move_right();
    assert_eq!(st.cursor.value, flat(1));
    st.move_left();
    assert_eq!(st.cursor.value, deep(1, CursorFollow::Top, flat(1)));
    st.move_right();
    assert_eq!(st.cursor.value, flat(1));
}

#[test]
fn moving_right_enters_numerator_from_the_left() {
    let mut st = ProgramState::new();
    st.add_text("1".to_string());
    st.add_text("/".to_string());
    st.move_up();
    st.move_left();
    st.move_left();
    assert_eq!(st.cursor.value, flat(0));
    st.move_right();
    assert_eq!(st.cursor.value, deep(1, CursorFollow::Top, flat(0)));
}

#[test]
fn vertical_document_moves_truncate_the_index() {
    let mut st = ProgramState::new();
    st.add_text("a".to_string());
    st.add_text("b".to_string());
    st.new_line();
    st.add_text("c".to_string());
    st.move_up();
    assert_eq!(st.cursor.line, 0);
    assert_eq!(st.cursor.value, flat(1));
    st.move_right();
    st.move_down();
    assert_eq!(st.cursor.line, 1);
    assert_eq!(st.cursor.value, flat(1));
}

#[test]
fn nested_fractions_edit_and_flip() {
    let mut st = ProgramState::new();
    st.add_text("1".to_string());
    st.add_text("/".to_string());
    st.add_text("2".to_string());
    st.add_text("/".to_string());
    st.add_text("3".to_string());
    let inner = InputValue::Fraction {
        top: InputValues(vec![leaf("2")]),
        bottom: InputValues(vec![leaf("3")]),
    };
    let outer = InputValue::Fraction {
        top: InputValues(vec![leaf("1")]),
        bottom: InputValues(vec![inner]),
    };
    assert_eq!(st.lines[0].0, vec![outer]);
    assert_eq!(
        st.cursor.value,
        deep(1, CursorFollow::Bottom, deep(1, CursorFollow::Bottom, flat(1)))
    );
    // vertical movement acts at the deepest level only
    st.move_up();
    assert_eq!(
        st.cursor.value,
        deep(1, CursorFollow::Bottom, deep(1, CursorFollow::Top, flat(1)))
    );
    // the innermost side no longer matches, so a further move up stays put
    st.move_up();
    assert_eq!(
        st.cursor.value,
        deep(1, CursorFollow::Bottom, deep(1, CursorFollow::Top, flat(1)))
    );
}

#[test]
fn replace_splices_in_place() {
    let mut line = InputValues(vec![leaf("a"), leaf("b"), leaf("c")]);
    line.replace(1, InputValues(vec![leaf("x"), leaf("y")]));
    assert_eq!(line.0, vec![leaf("a"), leaf("x"), leaf("y"), leaf("c")]);
    let mut shrink = InputValues(vec![leaf("a"), leaf("b")]);
    shrink.replace(0, InputValues(vec![]));
    assert_eq!(shrink.0, vec![leaf("b")]);
}

#[test]
fn sequence_level_insert_and_delete() {
    let mut line = InputValues(vec![leaf("a")]);
    let mut cursor = flat(1);
    line.add_text(&cursor, "b".to_string());
    cursor.added();
    assert_eq!(line.0, vec![leaf("a"), leaf("b")]);
    assert_eq!(cursor, flat(2));
    let request_parent = line.remove_single(&mut cursor);
    assert!(!request_parent);
    assert_eq!(line.0, vec![leaf("a")]);
    assert_eq!(cursor, flat(1));
    line.remove_single(&mut cursor);
    assert_eq!(line.0, Vec::<InputValue>::new());
    assert_eq!(cursor, flat(0));
    // at the start of the outermost sequence the deletion asks the caller
    assert!(line.remove_single(&mut cursor));
}

#[test]
fn is_value_distinguishes_terms() {
    let l = leaf("q");
    assert!(l.is_value());
    let f = InputValue::Fraction {
        top: InputValues(vec![]),
        bottom: InputValues(vec![]),
    };
    assert!(!f.is_value());
    assert_eq!(CursorFollow::Top.opposite(), CursorFollow::Bottom);
    assert_eq!(CursorFollow::Bottom.opposite(), CursorFollow::Top);
}
