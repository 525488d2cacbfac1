use polars_styler::error::StyleError;
use polars_styler::renderer::{cell_id, css_styles, Renderer};
use polars_styler::text_map::TextMap;

fn pairs(p: &[(&str, &str)]) -> TextMap {
    let v: Vec<(String, String)> = p.iter().map(|(a, b)| (a.to_string(), b.to_string())).collect();
    TextMap::from_pairs(&v)
}

#[test]
fn test_init() {
    let column_labels = vec!["col1".to_string(), "col2".to_string()];
    let cell_values = vec![
        vec!["a".to_string(), "b".to_string()],
        vec!["c".to_string(), "d".to_string()],
    ];
    let cell_styles = vec![(
        0,
        0,
        pairs(&[("color", "red"), ("background-color", "yellow")]),
    )];
    let hash = "asdf".to_string();
    let renderer = Renderer {
        column_labels,
        cell_values,
        cell_styles,
        hash,
        classes: vec![],
    };
    println!("{}", renderer.render().unwrap());
}

#[test]
fn test_css_styles_generation() {
    let styles = pairs(&[("color", "red"), ("background-color", "yellow")]);
    let styles_string = css_styles(&styles);
    assert!(styles_string.contains("color: red"));
    assert!(styles_string.contains("background-color: yellow"));
}

#[test]
fn render_writes_exact_markup() {
    let renderer = Renderer {
        column_labels: vec!["col1".to_string(), "col2".to_string()],
        cell_values: vec![
            vec!["a".to_string(), "b".to_string()],
            vec!["c".to_string(), "d".to_string()],
        ],
        cell_styles: vec![(1, 0, pairs(&[("color", "red"), ("font-weight", "bold")]))],
        hash: "asdf".to_string(),
        classes: vec!["wide".to_string()],
    };
    let expected = [
        "<style>\n  #T_asdf_row1_col0 {color: red; font-weight: bold}\n</style>\n",
        "<table class=\"dataframe wide\"><thead><tr><th>col1</th><th>col2</th></tr></thead>",
        "<tbody><tr><td id=\"T_asdf_row0_col0\">a</td><td id=\"T_asdf_row0_col1\">c</td></tr>",
        "<tr><td id=\"T_asdf_row1_col0\">b</td><td id=\"T_asdf_row1_col1\">d</td></tr>",
        "</tbody></table>",
    ]
    .concat();
    assert_eq!(renderer.render().unwrap(), expected);
}

#[test]
fn render_without_rows_closes_the_body() {
    let renderer = Renderer {
        column_labels: vec!["x".to_string()],
        cell_values: vec![vec![]],
        cell_styles: vec![],
        hash: "0".to_string(),
        classes: vec![],
    };
    assert_eq!(
        renderer.render().unwrap(),
        "<style>\n  \n</style>\n<table class=\"dataframe\"><thead><tr><th>x</th></tr></thead><tbody/></table>"
    );
}

#[test]
fn render_refuses_no_columns_and_ragged_columns() {
    let empty = Renderer {
        column_labels: vec![],
        cell_values: vec![],
        cell_styles: vec![],
        hash: "0".to_string(),
        classes: vec![],
    };
    assert_eq!(empty.render(), Err(StyleError::Structure));
    let ragged = Renderer {
        column_labels: vec!["a".to_string(), "b".to_string()],
        cell_values: vec![vec!["1".to_string()], vec![]],
        cell_styles: vec![],
        hash: "0".to_string(),
        classes: vec![],
    };
    assert_eq!(ragged.render(), Err(StyleError::Structure));
}

#[test]
fn cell_ids_carry_hash_row_and_column() {
    assert_eq!(cell_id("1f", 12, 3), "T_1f_row12_col3");
}
