use self_reposcope::get_language_color::{load_language_colors, ColorMap};

fn entry(language: &str, color: Option<&str>) -> (String, Option<String>) {
    (language.to_string(), color.map(|c| c.to_string()))
}

#[test]
fn a_new_table_knows_no_language() {
    let table = ColorMap::new();
    assert_eq!(table.get("Rust"), None);
    assert_eq!(table.color_of("Rust"), "#cccccc");
}

#[test]
fn a_language_has_the_colour_it_was_given_last() {
    let mut table = ColorMap::new();
    table.insert("Rust".to_string(), "#000000".to_string());
    table.insert("Go".to_string(), "#00ADD8".to_string());
    table.insert("Rust".to_string(), "#dea584".to_string());
    assert_eq!(table.get("Rust"), Some(&"#dea584".to_string()));
    assert_eq!(table.color_of("Rust"), "#dea584");
    assert_eq!(table.color_of("Go"), "#00ADD8");
    assert_eq!(table.color_of("rust"), "#cccccc");
    table.remove("Rust");
    assert_eq!(table.get("Rust"), None);
    assert_eq!(table.color_of("Rust"), "#cccccc");
    table.remove("Rust");
    assert_eq!(table.color_of("Go"), "#00ADD8");
}

#[test]
fn entries_without_colour_are_left_out() {
    let table = load_language_colors(&vec![
        entry("Rust", Some("#dea584")),
        entry("Text", None),
        entry("Go", Some("#00ADD8")),
    ]);
    assert_eq!(table.get("Rust"), Some(&"#dea584".to_string()));
    assert_eq!(table.get("Go"), Some(&"#00ADD8".to_string()));
    assert_eq!(table.get("Text"), None);
    assert_eq!(table.get("C"), None);
    assert_eq!(table.color_of("Text"), "#cccccc");
}

#[test]
fn the_last_entry_of_a_language_decides() {
    let table = load_language_colors(&vec![
        entry("Rust", Some("#111111")),
        entry("Go", None),
        entry("Rust", None),
        entry("Go", Some("#222222")),
        entry("C", Some("#333333")),
        entry("C", Some("#444444")),
    ]);
    assert_eq!(table.get("Rust"), None);
    assert_eq!(table.get("Go"), Some(&"#222222".to_string()));
    assert_eq!(table.get("C"), Some(&"#444444".to_string()));
}

#[test]
fn no_entries_make_an_empty_table() {
    let table = load_language_colors(&Vec::new());
    assert_eq!(table.get(""), None);
    assert_eq!(table.color_of("Anything"), "#cccccc");
}
