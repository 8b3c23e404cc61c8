use self_reposcope::exclusion::{
    eq_ignoring_case, is_excluded, parse_excluded_languages, remove_excluded,
};

fn pair(language: &str, bytes: u64) -> (String, u64) {
    (language.to_string(), bytes)
}

fn names(list: &[&str]) -> Vec<String> {
    list.iter().map(|n| n.to_string()).collect()
}

#[test]
fn a_list_is_cut_at_commas_and_trimmed() {
    assert_eq!(parse_excluded_languages("Rust,Go"), names(&["Rust", "Go"]));
    assert_eq!(parse_excluded_languages(" Rust , Go "), names(&["Rust", "Go"]));
    assert_eq!(parse_excluded_languages("Jupyter Notebook,  C++\t"), names(&["Jupyter Notebook", "C++"]));
    assert_eq!(parse_excluded_languages("HTML"), names(&["HTML"]));
}

#[test]
fn empty_names_are_dropped() {
    assert_eq!(parse_excluded_languages(""), Vec::<String>::new());
    assert_eq!(parse_excluded_languages("   "), Vec::<String>::new());
    assert_eq!(parse_excluded_languages(","), Vec::<String>::new());
    assert_eq!(parse_excluded_languages(",,Rust, ,,Go,"), names(&["Rust", "Go"]));
    assert_eq!(parse_excluded_languages(" , a , "), names(&["a"]));
}

#[test]
fn white_space_is_what_unicode_says() {
    assert_eq!(parse_excluded_languages("\u{3000}Rust\u{a0},\n Go\r\n"), names(&["Rust", "Go"]));
    assert_eq!(parse_excluded_languages("\u{2003}"), Vec::<String>::new());
    // A zero width space is no white space.
    assert_eq!(parse_excluded_languages("\u{200b}"), names(&["\u{200b}"]));
    assert_eq!(parse_excluded_languages("É é,ß"), names(&["É é", "ß"]));
}

#[test]
fn the_same_list_is_read_as_the_standard_library_reads_it() {
    for list in ["a,b", " a ,, b,", "x", "", " , ", "C#, F# ,Objective-C", ",é ,", "a\u{85},\u{1680}b"] {
        let expected: Vec<String> = list
            .split(',')
            .map(|s| s.trim().to_string())
            .filter(|s| !s.is_empty())
            .collect();
        assert_eq!(parse_excluded_languages(list), expected);
    }
}

#[test]
fn the_case_of_ascii_letters_does_not_matter() {
    assert!(eq_ignoring_case("Rust", "rUST"));
    assert!(eq_ignoring_case("", ""));
    assert!(eq_ignoring_case("c++", "C++"));
    assert!(eq_ignoring_case("AZaz", "azAZ"));
    assert!(!eq_ignoring_case("Rust", "Rus"));
    assert!(!eq_ignoring_case("Rust", "Ruby"));
    assert!(!eq_ignoring_case("Go", "Go "));
    // '@' and '`' stand right before 'A' and 'a', '[' and '{' right behind 'Z' and 'z'.
    assert!(!eq_ignoring_case("@", "`"));
    assert!(!eq_ignoring_case("[", "{"));
}

#[test]
fn the_case_of_other_letters_matters() {
    assert!(!eq_ignoring_case("É", "é"));
    assert!(eq_ignoring_case("Éa", "ÉA"));
    assert!(!eq_ignoring_case("K", "\u{212a}"));
}

#[test]
fn a_language_is_excluded_if_the_list_names_it() {
    let excluded = names(&["HTML", "css"]);
    assert!(is_excluded("HTML", &excluded));
    assert!(is_excluded("html", &excluded));
    assert!(is_excluded("CSS", &excluded));
    assert!(!is_excluded("SCSS", &excluded));
    assert!(!is_excluded("", &excluded));
    assert!(!is_excluded("HTML", &Vec::new()));
}

#[test]
fn excluded_languages_leave_a_map() {
    let map = vec![pair("Rust", 10), pair("HTML", 5), pair("Go", 7), pair("html", 1), pair("CSS", 2)];
    assert_eq!(
        remove_excluded(&map, &names(&["html", "Css"])),
        vec![pair("Rust", 10), pair("Go", 7)]
    );
    assert_eq!(remove_excluded(&map, &Vec::new()), map);
    assert_eq!(remove_excluded(&Vec::new(), &names(&["x"])), Vec::<(String, u64)>::new());
}
