use polars_styler::colors::Color;
use polars_styler::error::StyleError;
use polars_styler::fixed::Fixed;
use polars_styler::normalize::normalize_series;
use polars_styler::styler::{random_hash, Column, Styler, StylerExt, DataTable, Value};
use polars_styler::text_map::TextMap;

fn fixed_of(x: f64) -> Fixed {
    Fixed::from_units((x * 1e9).round() as i64)
}

fn ints(name: &str, v: &[i64]) -> Column {
    Column {
        name: name.to_string(),
        values: v.iter().map(|x| Value::Int(*x)).collect(),
    }
}

fn reals(name: &str, v: &[f64]) -> Column {
    Column {
        name: name.to_string(),
        values: v.iter().map(|x| Value::Float(fixed_of(*x))).collect(),
    }
}

fn words(name: &str, v: &[&str]) -> Column {
    Column {
        name: name.to_string(),
        values: v.iter().map(|x| Value::Text(x.to_string())).collect(),
    }
}

fn sample() -> DataTable {
    DataTable::new(vec![ints("a", &[1, 222, 3]), words("b", &["fooo", "b", "c"])]).unwrap()
}

fn any_styled(s: &Styler) -> bool {
    let t = s.table();
    (0..t.width()).any(|c| (0..t.height()).any(|r| !s.cell_styles(c, r).is_empty()))
}

fn floats(v: &[Fixed]) -> Vec<f64> {
    v.iter().map(|x| x.units as f64 / 1e9).collect()
}

#[test]
fn test_styler() {
    let styler = sample().style();
    let html = styler.render().unwrap();
    println!("{}", html);
    assert!(html.contains("<style>"));
    assert!(html.find("fooo").unwrap() < html.find("222").unwrap());
}

#[test]
fn test_precision() {
    let x = 1.123456789;
    let t = DataTable::new(vec![reals("a", &[x, 2.123456789, 3.123456789])]).unwrap();
    let styler = t.style().set_precision(2).unwrap();
    let html = styler.render().unwrap();
    println!("{}", html);
    assert!(html.contains(format!("{:.2}", x).as_str()));
    assert!(!html.contains(format!("{:.3}", x).as_str()));
}

#[test]
fn test_set_labels_all() {
    let t = DataTable::new(vec![ints("a", &[0])]).unwrap();
    let styler = t.style().set_labels(vec!["Foo".to_string()]);
    let html = styler.render().unwrap();
    assert!(html.contains("Foo"));
}

#[test]
fn test_set_labels_map() {
    let t = DataTable::new(vec![ints("a", &[0])]).unwrap();
    let mapping = TextMap::from_pairs(&vec![("a".to_string(), "Foo".to_string())]);
    let styler = t.style().relabel(&mapping);
    let html = styler.render().unwrap();
    assert!(html.contains("Foo"));
}

#[test]
fn test_apply() {
    let styler = sample().style();
    let styles: Vec<TextMap> = styler
        .table()
        .column(0)
        .values
        .iter()
        .map(|v| {
            if matches!(v, Value::Int(222)) {
                vec![("background-color".to_string(), "red".to_string())]
            } else {
                vec![]
            }
        })
        .map(|v| TextMap::from_pairs(&v))
        .collect();
    let styler = styler.apply("a", &styles).unwrap();
    assert!(any_styled(&styler));
}

#[test]
fn test_background_gradient() {
    let styler = sample().style();
    let derived: Vec<Value> = [1.0f64, 222.0, 3.0]
        .iter()
        .map(|x| Value::Float(fixed_of(x.log2())))
        .collect();
    let styler = styler
        .background_gradient_series("a", &derived, &Color::new(0, 0, 0))
        .unwrap();
    assert!(any_styled(&styler));
}

#[test]
fn test_normalize_series_float() {
    let s = reals("a", &[-1.0, 2.0, 3.0]).values;
    let s = normalize_series(&s, None, None).unwrap();
    assert_eq!(floats(&s), vec![0.0, 0.75, 1.0]);
}

#[test]
fn test_normalize_series_int() {
    let s = ints("a", &[-1, 2, 3]).values;
    let s = normalize_series(&s, None, None).unwrap();
    assert_eq!(floats(&s), vec![0.0, 0.75, 1.0]);
}

#[test]
fn normalize_clamps_before_rescaling() {
    let s = ints("a", &[-10, 0, 5, 10, 20]).values;
    let out = normalize_series(&s, Some(fixed_of(0.0)), Some(fixed_of(10.0))).unwrap();
    assert_eq!(floats(&out), vec![0.0, 0.0, 0.5, 1.0, 1.0]);
}

#[test]
fn normalize_reports_text_and_degenerate_ranges() {
    let text = words("w", &["x", "y"]).values;
    assert_eq!(normalize_series(&text, None, None), Err(StyleError::NotNumeric));
    let flat = ints("a", &[4, 4, 4]).values;
    assert_eq!(normalize_series(&flat, None, None), Err(StyleError::DegenerateInput));
    let clamped_flat = ints("a", &[1, 2, 3]).values;
    assert_eq!(
        normalize_series(&clamped_flat, Some(fixed_of(5.0)), None),
        Err(StyleError::DegenerateInput)
    );
    assert_eq!(normalize_series(&Vec::new(), None, None), Ok(vec![]));
}

#[test]
fn background_gradient_on_constant_column_is_degenerate() {
    let t = DataTable::new(vec![ints("a", &[7, 7, 7])]).unwrap();
    let r = t.style().background_gradient("a", &Color::new(255, 0, 0), None, None);
    assert!(matches!(r, Err(StyleError::DegenerateInput)));
}

#[test]
fn background_gradient_on_text_is_not_numeric() {
    let r = sample()
        .style()
        .background_gradient("b", &Color::new(255, 0, 0), None, None);
    assert!(matches!(r, Err(StyleError::NotNumeric)));
}

#[test]
fn unknown_columns_are_not_found() {
    let s = sample().style();
    assert!(matches!(s.apply("zzz", &vec![]), Err(StyleError::NotFound)));
    let s = sample().style();
    assert!(matches!(
        s.background_gradient("zzz", &Color::new(0, 0, 0), None, None),
        Err(StyleError::NotFound)
    ));
    let s = sample().style();
    assert!(matches!(
        s.background_gradient_series("zzz", &vec![Value::Int(1), Value::Int(2)], &Color::new(0, 0, 0)),
        Err(StyleError::NotFound)
    ));
}

#[test]
fn precision_can_be_set_once() {
    let s = sample().style().set_precision(2).unwrap();
    assert!(matches!(s.set_precision(3), Err(StyleError::Misconfiguration)));
}

#[test]
fn table_classes_can_be_set_once() {
    let s = sample()
        .style()
        .set_table_classes(vec!["x".to_string()])
        .unwrap();
    assert!(matches!(
        s.set_table_classes(vec!["y".to_string()]),
        Err(StyleError::Misconfiguration)
    ));
}

#[test]
fn add_table_classes_appends() {
    let s = sample()
        .style()
        .add_table_classes(vec!["x".to_string()])
        .add_table_classes(vec!["y".to_string(), "z".to_string()]);
    let html = s.render_with_hash("h").unwrap();
    assert!(html.contains("<table class=\"dataframe x y z\">"));
}

#[test]
fn end_to_end_fruit_prices() {
    let t = DataTable::new(vec![
        words("Fruit", &["Apple", "Apple", "Pear"]),
        reals("Price", &[1.23, 2.34, 3.45]),
    ])
    .unwrap();
    let s = t
        .style()
        .background_gradient("Price", &Color::new(255, 0, 0), None, None)
        .unwrap();
    let html = s.render_with_hash("abc").unwrap();
    assert_eq!(html.matches("background-color").count(), 3);
    assert!(html.contains("#T_abc_row0_col1 {background-color: rgba(255, 0, 0, 0)}"));
    assert!(html.contains("#T_abc_row1_col1 {background-color: rgba(255, 0, 0, 0.5)}"));
    assert!(html.contains("#T_abc_row2_col1 {background-color: rgba(255, 0, 0, 1)}"));
    assert!(html.find("Apple").unwrap() < html.find("Pear").unwrap());
    assert!(html.contains("<td id=\"T_abc_row0_col1\">1.23</td>"));
}

#[test]
fn render_of_a_table_without_columns_fails() {
    let t = DataTable::new(vec![]).unwrap();
    assert_eq!(t.style().render(), Err(StyleError::Structure));
}

#[test]
fn precision_two_rounds_the_display_text() {
    let t = DataTable::new(vec![reals("a", &[1.123456789])]).unwrap();
    let html = t.style().set_precision(2).unwrap().render_with_hash("h").unwrap();
    assert!(html.contains(">1.12</td>"));
    assert!(!html.contains("1.123"));
}

#[test]
fn labels_fall_back_to_column_names() {
    let t = DataTable::new(vec![ints("a", &[1]), ints("b", &[2])]).unwrap();
    let s = t
        .style()
        .relabel_column("b", "Bee")
        .set_labels(vec!["Ay".to_string(), "Bee2".to_string(), "extra".to_string()]);
    let html = s.render_with_hash("h").unwrap();
    assert!(html.contains("<th>Ay</th><th>Bee2</th>"));
    assert!(!html.contains("extra"));
    let t = DataTable::new(vec![ints("a", &[1]), ints("b", &[2])]).unwrap();
    let html = t.style().relabel_column("b", "Bee").render_with_hash("h").unwrap();
    assert!(html.contains("<th>a</th><th>Bee</th>"));
}

#[test]
fn apply_merges_and_overwrites_attributes() {
    let s = sample().style();
    let first = vec![TextMap::from_pairs(&vec![
        ("color".to_string(), "red".to_string()),
        ("font-weight".to_string(), "bold".to_string()),
    ])];
    let second = vec![TextMap::from_pairs(&vec![("color".to_string(), "blue".to_string())])];
    let s = s.apply("b", &first).unwrap().apply("b", &second).unwrap();
    let m = s.cell_styles(1, 0);
    assert_eq!(m.len(), 2);
    assert_eq!(m.get("color").unwrap(), "blue");
    assert_eq!(m.key(0), "color");
    assert!(s.cell_styles(1, 1).is_empty());
}

#[test]
fn values_format_naturally() {
    let t = DataTable::new(vec![Column {
        name: "v".to_string(),
        values: vec![
            Value::Int(-42),
            Value::Float(fixed_of(2.0)),
            Value::Float(fixed_of(-0.5)),
            Value::Bool(true),
            Value::Text("<b>x</b>".to_string()),
        ],
    }])
    .unwrap();
    let html = t.style().render_with_hash("h").unwrap();
    assert!(html.contains(">-42</td>"));
    assert!(html.contains(">2</td>"));
    assert!(html.contains(">-0.5</td>"));
    assert!(html.contains(">true</td>"));
    assert!(html.contains("><b>x</b></td>"));
}

#[test]
fn precision_pads_and_rounds() {
    let t = DataTable::new(vec![reals("a", &[2.0, 0.125, 1.5])]).unwrap();
    let html = t.style().set_precision(0).unwrap().render_with_hash("h").unwrap();
    assert!(html.contains(">2</td>"));
    assert!(html.contains(">0</td>"));
    assert!(html.contains(">2</td></tr></tbody>"));
    let t = DataTable::new(vec![reals("a", &[0.125])]).unwrap();
    let html = t.style().set_precision(11).unwrap().render_with_hash("h").unwrap();
    assert!(html.contains(">0.12500000000</td>"));
}

#[test]
fn ragged_tables_are_refused() {
    assert!(DataTable::new(vec![ints("a", &[1, 2]), ints("b", &[1])]).is_none());
}

#[test]
fn random_ids_have_at_most_six_hex_digits() {
    for _ in 0..50 {
        let h = random_hash();
        assert!(!h.is_empty() && h.len() <= 6);
        assert!(h.chars().all(|c| c.is_ascii_hexdigit() && !c.is_ascii_uppercase()));
    }
    let t = DataTable::new(vec![ints("a", &[1])]).unwrap();
    let html = t.style().render().unwrap();
    let start = html.find("id=\"T_").unwrap() + 6;
    let end = html[start..].find("_row").unwrap();
    assert!(end >= 1 && end <= 6);
}

#[test]
fn columns_are_found_by_exact_name() {
    let s = sample().style();
    assert_eq!(s.find_column("a"), Some(0));
    assert_eq!(s.find_column("b"), Some(1));
    assert_eq!(s.find_column("A"), None);
    assert_eq!(s.column_names(), vec!["a".to_string(), "b".to_string()]);
    assert_eq!(s.table().height(), 3);
    assert_eq!(s.table().width(), 2);
}

#[test]
fn gradient_with_bounds_writes_one_declaration_per_row() {
    let t = DataTable::new(vec![ints("n", &[0, 5, 10, 20])]).unwrap();
    let s = t
        .style()
        .background_gradient("n", &Color::new(0, 0, 255), None, Some(fixed_of(10.0)))
        .unwrap();
    assert_eq!(s.cell_styles(0, 0).get("background-color").unwrap(), "rgba(0, 0, 255, 0)");
    assert_eq!(s.cell_styles(0, 1).get("background-color").unwrap(), "rgba(0, 0, 255, 0.5)");
    assert_eq!(s.cell_styles(0, 2).get("background-color").unwrap(), "rgba(0, 0, 255, 1)");
    assert_eq!(s.cell_styles(0, 3).get("background-color").unwrap(), "rgba(0, 0, 255, 1)");
}
