use mdfrier::box_table::table_to_events;
use mdfrier::markdown::TableAlignment;
use mdfrier::pipeline::{MdModifier, MdNode};
use mdfrier::style::{StyledSpan, TermColor, TextModifier};

fn cell(text: &str) -> Vec<MdNode> {
    vec![MdNode::new(text.to_owned(), MdModifier { bits: 0 })]
}

fn text(line: &[StyledSpan]) -> String {
    line.iter().map(|s| s.content.as_str()).collect()
}

#[test]
fn box_table_lines_and_ids() {
    let mut source_id = None;
    let lines = table_to_events(
        &mut source_id,
        80,
        &vec![cell("a"), cell("bb")],
        &vec![vec![cell("c"), cell("d")]],
        &vec![TableAlignment::Left, TableAlignment::Right],
        0,
    );
    let texts: Vec<String> = lines.iter().map(|(_, l)| text(l)).collect();
    assert_eq!(texts, vec!["┌───┬────┐", "│ a │ bb │", "├───┼────┤", "│ c │  d │", "└───┴────┘"]);
    let ids: Vec<usize> = lines.iter().map(|(id, _)| *id).collect();
    assert_eq!(ids, vec![0, 1, 2, 3, 4]);
    assert_eq!(source_id, Some(4));
    let header_cell = &lines[1].1[2];
    assert_eq!(header_cell.content, "a");
    assert_eq!(header_cell.style.fg, Some(TermColor::Indexed(255)));
    assert_eq!(header_cell.style.add_modifier & TextModifier::BOLD, TextModifier::BOLD);
    assert_eq!(lines[0].1[0].style.fg, Some(TermColor::Indexed(240)));
}

#[test]
fn box_table_cuts_wide_cells_and_scales_columns() {
    let mut source_id = Some(9);
    let lines = table_to_events(&mut source_id, 8, &vec![cell("abcdefghij")], &vec![], &vec![], 0);
    let texts: Vec<String> = lines.iter().map(|(_, l)| text(l)).collect();
    assert_eq!(texts, vec!["┌──────┐", "│ abc… │", "├──────┤", "└──────┘"]);
    assert_eq!(lines[0].0, 10);
    assert_eq!(source_id, Some(13));
}

#[test]
fn box_table_inside_blockquote_and_short_rows() {
    let mut source_id = None;
    let lines = table_to_events(
        &mut source_id,
        80,
        &vec![cell("x"), cell("y")],
        &vec![vec![cell("z")]],
        &vec![],
        1,
    );
    let texts: Vec<String> = lines.iter().map(|(_, l)| text(l)).collect();
    assert_eq!(texts[3], "▌ │ z │   │");
    assert_eq!(lines[3].1[0].style.fg, Some(TermColor::Indexed(202)));
}

#[test]
fn box_table_without_columns_has_no_lines() {
    let mut source_id = Some(3);
    let lines = table_to_events(&mut source_id, 80, &vec![], &vec![vec![cell("z")]], &vec![], 0);
    assert!(lines.is_empty());
    assert_eq!(source_id, Some(3));
}
