use tkbsv::report::{cell_text, row_fields};

#[test]
fn cell_text_joins_trimmed_pieces() {
    let pieces = vec!["  Từ 30/05/2022 ".to_string(), "\n".to_string(), " đến 05/06/2022:".to_string()];
    assert_eq!(cell_text(&pieces), "Từ 30/05/2022đến 05/06/2022:");
    assert_eq!(cell_text(&Vec::new()), "");
}

#[test]
fn row_fields_picks_columns() {
    let cells: Vec<String> = ["1", "Class", "x", "Times", "Places", "y"].iter().map(|s| s.to_string()).collect();
    assert_eq!(
        row_fields(&cells),
        Some(("Class".to_string(), "Times".to_string(), "Places".to_string()))
    );
    assert_eq!(row_fields(&cells[..4].to_vec()), None);
}
