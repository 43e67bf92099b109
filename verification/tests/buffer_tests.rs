use gridview::buffer::Buffer;

#[test]
fn empty_text_yields_empty_table() {
    let buffer = Buffer::from_text("");
    assert!(buffer.is_empty());
    assert_eq!(buffer.tuples.len(), 0);
}

#[test]
fn default_table_is_empty() {
    let buffer = Buffer::default();
    assert!(buffer.is_empty());
}

#[test]
fn single_line_splits_on_commas() {
    let buffer = Buffer::from_text("a,bb,ccc");
    assert_eq!(buffer.tuples, vec![vec!["a", "bb", "ccc"]]);
}

#[test]
fn lines_split_on_newline() {
    let buffer = Buffer::from_text("a,b\nc");
    assert_eq!(buffer.tuples, vec![vec!["a", "b"], vec!["c"]]);
}

#[test]
fn trailing_newline_closes_the_last_line() {
    let with_newline = Buffer::from_text("a,b\nc\n");
    let without = Buffer::from_text("a,b\nc");
    assert_eq!(with_newline.tuples, without.tuples);
}

#[test]
fn lone_newline_is_one_empty_field() {
    let buffer = Buffer::from_text("\n");
    assert_eq!(buffer.tuples, vec![vec![""]]);
}

#[test]
fn lone_comma_is_two_empty_fields() {
    let buffer = Buffer::from_text(",");
    assert_eq!(buffer.tuples, vec![vec!["", ""]]);
}

#[test]
fn fields_are_kept_verbatim() {
    let buffer = Buffer::from_text(" a , b");
    assert_eq!(buffer.tuples, vec![vec![" a ", " b"]]);
}

#[test]
fn rows_may_have_differing_field_counts() {
    let buffer = Buffer::from_text("a,b,c\nd\n,");
    assert_eq!(
        buffer.tuples,
        vec![vec!["a", "b", "c"], vec!["d"], vec!["", ""]]
    );
}

#[test]
fn empty_lines_between_records_are_kept() {
    let buffer = Buffer::from_text("a\n\nb");
    assert_eq!(buffer.tuples, vec![vec!["a"], vec![""], vec!["b"]]);
}
