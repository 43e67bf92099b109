use gridview::buffer::Buffer;
use gridview::view::{Size, View, ViewConfig};

fn view_with(text: &str, width: usize, height: usize, cell_width: usize, cell_height: usize) -> View {
    let mut view = View::default();
    view.config = ViewConfig {
        cell_width,
        cell_height,
    };
    view.resize(Size { width, height });
    view.load(Some(text));
    view
}

#[test]
fn two_records_fill_the_grid() {
    let mut view = view_with("a,bb\nccc", 9, 5, 3, 1);
    let frame = view.render().expect("a dirty view with a drawable viewport renders");
    assert_eq!(frame.len(), 5);
    assert_eq!(frame[0], "─────────");
    assert_eq!(frame[1], "│  a│ bb│   ");
    assert_eq!(frame[2], "─────────");
    assert_eq!(frame[3], "│ccc│   │   ");
    assert_eq!(frame[4], "─────────");
}

#[test]
fn empty_table_renders_padding_rows() {
    let mut view = View::default();
    view.config = ViewConfig {
        cell_width: 3,
        cell_height: 1,
    };
    view.resize(Size {
        width: 10,
        height: 3,
    });
    let frame = view.render().expect("a dirty view with a drawable viewport renders");
    assert_eq!(frame[0], "──────────");
    assert_eq!(frame[1], "│   │   │   ");
    assert_eq!(frame[2], "──────────");
}

#[test]
fn zero_width_viewport_renders_nothing() {
    let mut view = view_with("a", 0, 5, 3, 1);
    assert!(view.render().is_none());
    assert!(view.needs_redraw);
}

#[test]
fn zero_height_viewport_renders_nothing() {
    let mut view = view_with("a", 5, 0, 3, 1);
    assert!(view.render().is_none());
    assert!(view.needs_redraw);
}

#[test]
fn second_render_is_a_no_op() {
    let mut view = view_with("a", 6, 3, 3, 1);
    assert!(view.render().is_some());
    assert!(!view.needs_redraw);
    assert!(view.render().is_none());
}

#[test]
fn resize_marks_the_view_dirty_again() {
    let mut view = view_with("a", 6, 3, 3, 1);
    assert!(view.render().is_some());
    view.resize(Size {
        width: 7,
        height: 3,
    });
    assert!(view.needs_redraw);
    assert!(view.render().is_some());
}

#[test]
fn invalidate_marks_the_view_dirty_again() {
    let mut view = view_with("a", 6, 3, 3, 1);
    assert!(view.render().is_some());
    view.invalidate();
    assert!(view.render().is_some());
}

#[test]
fn failed_load_leaves_table_and_flag_untouched() {
    let mut view = view_with("a,b", 6, 3, 3, 1);
    assert!(view.render().is_some());
    let tuples_before = view.buffer.tuples.clone();
    view.load(None);
    assert_eq!(view.buffer.tuples, tuples_before);
    assert!(!view.needs_redraw);
    assert!(view.render().is_none());
}

#[test]
fn successful_load_replaces_table_and_marks_dirty() {
    let mut view = view_with("a", 6, 3, 3, 1);
    assert!(view.render().is_some());
    view.load(Some("z,y"));
    assert!(view.needs_redraw);
    let frame = view.render().expect("a fresh load marks the view dirty");
    assert_eq!(frame[1], "│  z│  y│");
}

#[test]
fn long_field_truncates_to_leading_cell_width_characters() {
    assert_eq!(gridview::view::format_cell("abcdef", 3), "abc");
    assert_eq!(gridview::view::format_cell("abc", 3), "abc");
}

#[test]
fn short_field_is_right_aligned_with_spaces() {
    assert_eq!(gridview::view::format_cell("ab", 4), "  ab");
    assert_eq!(gridview::view::format_cell("", 2), "  ");
}

#[test]
fn every_formatted_cell_has_cell_width_characters() {
    let record = vec![
        String::from("a"),
        String::from("bbbb"),
        String::from("cc"),
    ];
    let cells = gridview::view::build_formatted_tuple(&record, 3);
    assert_eq!(cells, vec!["  a", "bbb", " cc"]);
    for cell in &cells {
        assert_eq!(cell.chars().count(), 3);
    }
}

#[test]
fn separators_fall_on_the_cell_height_period() {
    let mut view = view_with("a\nb\nc\nd", 2, 7, 1, 2);
    let frame = view.render().expect("a dirty view with a drawable viewport renders");
    for (row, line) in frame.iter().enumerate() {
        if row % 3 == 0 {
            assert_eq!(line, "──");
        } else {
            assert!(line.starts_with('│'));
        }
    }
}

#[test]
fn excess_fields_beyond_cell_capacity_are_dropped() {
    let mut view = view_with("aa,bb", 3, 2, 3, 1);
    let frame = view.render().expect("a dirty view with a drawable viewport renders");
    assert_eq!(frame[1], "│ aa│");
}

#[test]
fn separator_line_spans_the_width() {
    assert_eq!(gridview::view::build_cell_separator(4), "────");
    assert_eq!(gridview::view::build_cell_separator(0), " ");
}

#[test]
fn welcome_message_is_centred_behind_a_marker() {
    assert_eq!(gridview::view::build_welcome_message(0), "");
    assert_eq!(gridview::view::build_welcome_message(5), "~");
    assert_eq!(gridview::view::build_welcome_message(32), "~");
    assert_eq!(
        gridview::view::build_welcome_message(33),
        "~gridview editor -- version 0.1.0"
    );
    assert_eq!(
        gridview::view::build_welcome_message(40),
        "~   gridview editor -- version 0.1.0"
    );
}
