use fraction_editor::layout::{RenderRect, RenderResult, RenderValue};
use fraction_editor::state::ProgramState;

#[test]
fn rect_union_contains_both_inputs() {
    let a = RenderRect { x: 0, y: 0, width: 10, height: 10 };
    let b = RenderRect { x: 5, y: 5, width: 10, height: 10 };
    let u = a.combine(b);
    assert_eq!(u, RenderRect { x: 0, y: 0, width: 15, height: 15 });
    assert!(u.x <= a.x && u.y <= a.y && a.x + a.width <= u.x + u.width);
    assert!(u.x <= b.x && u.y <= b.y && b.y + b.height <= u.y + u.height);

    let c = RenderRect { x: -4, y: 7, width: 1, height: 1 };
    let v = a.combine(c);
    assert_eq!(v, RenderRect { x: -4, y: 0, width: 14, height: 10 });
}

#[test]
fn cursor_only_layout_never_grows_the_bounds() {
    let base = RenderResult::empty(RenderRect { x: 0, y: 0, width: 5, height: 5 });
    let caret = RenderResult::new(
        RenderRect { x: 50, y: 50, width: 0, height: 0 },
        RenderValue::Cursor { x: 50, y: 50 },
    );
    let combined = base.combine(caret);
    assert_eq!(combined.rect, RenderRect { x: 0, y: 0, width: 5, height: 5 });
    assert_eq!(combined.render.len(), 1);

    let text = RenderResult::new(
        RenderRect { x: 50, y: 50, width: 1, height: 1 },
        RenderValue::Text { x: 50, y: 50, text: "t".to_string() },
    );
    let grown = RenderResult::empty(RenderRect { x: 0, y: 0, width: 5, height: 5 }).combine(text);
    assert_eq!(grown.rect, RenderRect { x: 0, y: 0, width: 51, height: 51 });
}

#[test]
fn empty_document_renders_one_centred_cursor() {
    let st = ProgramState::new();
    let sizes: Vec<(u32, u32)> = vec![];
    let r = st.render(100, 100, &sizes);
    assert_eq!(r.render, vec![RenderValue::Cursor { x: 50, y: 50 }]);
}

#[test]
fn single_leaf_renders_centred_with_cursor_after_it() {
    let mut st = ProgramState::new();
    st.add_text("a".to_string());
    let sizes: Vec<(u32, u32)> = vec![(10, 20)];
    let r = st.render(100, 100, &sizes);
    assert_eq!(
        r.render,
        vec![
            RenderValue::Text { x: 45, y: 40, text: "a".to_string() },
            RenderValue::Cursor { x: 55, y: 40 },
        ]
    );
    assert_eq!(r.rect, RenderRect { x: 45, y: 40, width: 10, height: 20 });
}

#[test]
fn fraction_renders_stacked_with_divider() {
    let mut st = ProgramState::new();
    st.add_text("1".to_string());
    st.add_text("/".to_string());
    st.add_text("2".to_string());
    let sizes: Vec<(u32, u32)> = vec![(10, 20), (10, 20)];
    let r = st.render(100, 100, &sizes);
    assert_eq!(
        r.render,
        vec![
            RenderValue::Text { x: 45, y: 30, text: "1".to_string() },
            RenderValue::Text { x: 45, y: 50, text: "2".to_string() },
            RenderValue::Cursor { x: 55, y: 50 },
            RenderValue::Line { x: 45, y: 50, width: 10 },
        ]
    );
    assert_eq!(r.rect, RenderRect { x: 45, y: 30, width: 10, height: 40 });
}

#[test]
fn overflow_is_pulled_back_to_the_origin() {
    let mut st = ProgramState::new();
    st.add_text("a".to_string());
    let sizes: Vec<(u32, u32)> = vec![(10, 20)];
    let r = st.render(0, 0, &sizes);
    assert_eq!(r.rect, RenderRect { x: 0, y: 0, width: 10, height: 20 });
    assert_eq!(
        r.render,
        vec![
            RenderValue::Text { x: 0, y: 0, text: "a".to_string() },
            RenderValue::Cursor { x: 10, y: 0 },
        ]
    );
}

#[test]
fn two_lines_stack_downward() {
    let mut st = ProgramState::new();
    st.add_text("a".to_string());
    st.new_line();
    st.add_text("b".to_string());
    let sizes: Vec<(u32, u32)> = vec![(10, 20), (10, 20)];
    let r = st.render(0, 0, &sizes);
    assert_eq!(r.rect, RenderRect { x: 0, y: 0, width: 10, height: 40 });
    assert_eq!(
        r.render,
        vec![
            RenderValue::Text { x: 0, y: 0, text: "a".to_string() },
            RenderValue::Text { x: 0, y: 20, text: "b".to_string() },
            RenderValue::Cursor { x: 10, y: 20 },
        ]
    );
}

#[test]
fn narrower_numerator_is_centred_over_the_denominator() {
    let mut st = ProgramState::new();
    st.add_text("1".to_string());
    st.add_text("/".to_string());
    st.add_text("a".to_string());
    st.add_text("b".to_string());
    let sizes: Vec<(u32, u32)> = vec![(10, 20), (10, 20), (10, 20)];
    let r = st.render(0, 0, &sizes);
    assert_eq!(r.rect, RenderRect { x: 0, y: 0, width: 20, height: 40 });
    assert_eq!(
        r.render,
        vec![
            RenderValue::Text { x: 5, y: 0, text: "1".to_string() },
            RenderValue::Text { x: 0, y: 20, text: "a".to_string() },
            RenderValue::Text { x: 10, y: 20, text: "b".to_string() },
            RenderValue::Cursor { x: 20, y: 20 },
            RenderValue::Line { x: 0, y: 20, width: 20 },
        ]
    );
}

#[test]
fn cursor_marker_shifts_like_its_layout() {
    let mut v = RenderValue::Cursor { x: 1, y: 2 };
    v.shift(10, -1);
    assert_eq!(v, RenderValue::Cursor { x: 11, y: 1 });
    let mut t = RenderValue::Text { x: 0, y: 0, text: "z".to_string() };
    t.shift(-3, 4);
    assert_eq!(t, RenderValue::Text { x: -3, y: 4, text: "z".to_string() });
    let mut l = RenderValue::Line { x: 5, y: 5, width: 7 };
    l.shift(1, 1);
    assert_eq!(l, RenderValue::Line { x: 6, y: 6, width: 7 });
}
