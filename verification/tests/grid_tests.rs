use rustyls::grid::layout;
use rustyls::grid::transpose;
use rustyls::render::render;
use rustyls::render::single_column_text;
use rustyls::render::stream_text;

fn names(list: &[&str]) -> Vec<String> {
    list.iter().map(|s| s.to_string()).collect()
}

#[test]
fn transpose_fills_columns_top_to_bottom() {
    let cells = transpose(&names(&["a", "b", "c"]), 2, 2);
    assert_eq!(
        cells,
        vec![
            Some("a".to_string()),
            Some("c".to_string()),
            Some("b".to_string()),
            None
        ]
    );
}

#[test]
fn transpose_single_column() {
    let cells = transpose(&names(&["a", "b"]), 1, 2);
    assert_eq!(cells, vec![Some("a".to_string()), Some("b".to_string())]);
}

#[test]
fn scenario_three_names_on_twenty_columns() {
    let list = names(&["alpha", "b", "c"]);
    let plan = layout(&list, Some(20));
    assert_eq!(plan.column_width, 6);
    assert_eq!(plan.num_columns, 2);
    assert_eq!(
        plan.cells,
        vec![
            Some("alpha".to_string()),
            Some("c".to_string()),
            Some("b".to_string()),
            None
        ]
    );
    assert_eq!(render(&plan), "alpha \tc     \nb     \n");
}

#[test]
fn scenario_empty_listing_writes_nothing() {
    let list: Vec<String> = Vec::new();
    let plan = layout(&list, Some(80));
    assert!(plan.cells.is_empty());
    assert_eq!(plan.column_width, 0);
    assert_eq!(render(&plan), "");
    let plan2 = layout(&list, None);
    assert_eq!(render(&plan2), "");
}

#[test]
fn scenario_single_name_without_terminal() {
    let list = names(&["x"]);
    let plan = layout(&list, None);
    assert_eq!(plan.column_width, 2);
    assert_eq!(plan.num_columns, 1);
    assert_eq!(render(&plan), "x \n");
}

#[test]
fn single_character_name_gets_width_two() {
    let plan = layout(&names(&["a"]), Some(80));
    assert_eq!(plan.column_width, 2);
}

#[test]
fn column_width_is_one_more_than_longest_name() {
    let plan = layout(&names(&["ab", "abcd", "a"]), Some(40));
    assert_eq!(plan.column_width, 5);
}

#[test]
fn narrow_terminal_still_gets_one_column() {
    let plan = layout(&names(&["longname"]), Some(3));
    assert_eq!(plan.num_columns, 1);
    assert_eq!(render(&plan), "longname \n");
}

#[test]
fn terminal_exactly_one_column_wide_is_clamped() {
    // 8 / 3 = 2 fit, minus the margin leaves 1
    let plan = layout(&names(&["ab", "cd"]), Some(8));
    assert_eq!(plan.column_width, 3);
    assert_eq!(plan.num_columns, 1);
    assert_eq!(render(&plan), "ab \ncd \n");
}

#[test]
fn render_parse_round_trip_recovers_names() {
    let list = names(&["alpha", "b", "c", "dd", "e"]);
    let plan = layout(&list, Some(30));
    let text = render(&plan);
    let pieces: Vec<String> = text
        .split(['\t', '\n'])
        .map(|p| p.trim_end_matches(' ').to_string())
        .filter(|p| !p.is_empty())
        .collect();
    // the pieces are the occupied cells in row-major order
    let occupied: Vec<String> = plan
        .cells
        .iter()
        .filter_map(|c| c.clone())
        .collect();
    assert_eq!(pieces, occupied);
    // reading the grid column by column gives the original names back
    let w = plan.num_columns;
    let h = plan.cells.len() / w;
    let mut by_columns: Vec<String> = Vec::new();
    for i in 0..w {
        for j in 0..h {
            if let Some(name) = &plan.cells[j * w + i] {
                by_columns.push(name.clone());
            }
        }
    }
    assert_eq!(by_columns, list);
}

#[test]
fn stream_text_joins_with_commas() {
    assert_eq!(stream_text(&names(&["a", "b", "c"])), "a, b, c\n");
}

#[test]
fn stream_text_of_nothing_is_nothing() {
    assert_eq!(stream_text(&Vec::new()), "");
}

#[test]
fn stream_text_single_name() {
    assert_eq!(stream_text(&names(&["solo"])), "solo\n");
}

#[test]
fn single_column_text_one_name_per_line() {
    assert_eq!(single_column_text(&names(&["a", "bc"])), "a\nbc\n");
    assert_eq!(single_column_text(&Vec::new()), "");
}
