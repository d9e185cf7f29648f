use prc_diff::format::{parse_output_format, OutputFormat};
use prc_diff::labels::{label_hash, LabelRegistry};

#[test]
fn hash_of_known_labels() {
    assert_eq!(label_hash(&String::from("a")), 0x01_e8b7be43);
    assert_eq!(label_hash(&String::from("hello")), 0x05_3610a686);
    assert_eq!(label_hash(&String::from("")), 0);
}

#[test]
fn hash_ignores_ascii_case() {
    assert_eq!(label_hash(&String::from("Hello")), label_hash(&String::from("hello")));
}

#[test]
fn unknown_hash_has_no_label() {
    let m = LabelRegistry::new();
    assert_eq!(m.label_of(0x01_e8b7be43), None);
}

#[test]
fn merged_labels_are_found_by_hash() {
    let mut m = LabelRegistry::new();
    m.merge_labels(&vec![String::from("a"), String::from("hello")]);
    assert_eq!(m.label_of(0x01_e8b7be43), Some(String::from("a")));
    assert_eq!(m.label_of(0x05_3610a686), Some(String::from("hello")));
    assert_eq!(m.label_of(0x05_3610a687), None);
}

#[test]
fn later_label_wins() {
    let mut m = LabelRegistry::new();
    m.merge_labels(&vec![String::from("hello")]);
    m.add_label(0x05_3610a686, String::from("greeting"));
    assert_eq!(m.label_of(0x05_3610a686), Some(String::from("greeting")));
    m.merge_labels(&vec![String::from("HELLO")]);
    assert_eq!(m.label_of(0x05_3610a686), Some(String::from("HELLO")));
}

#[test]
fn output_format_names() {
    assert_eq!(parse_output_format("bin"), Some(OutputFormat::Binary));
    assert_eq!(parse_output_format("xml"), Some(OutputFormat::Text));
    assert_eq!(parse_output_format("txt"), None);
    assert_eq!(parse_output_format(""), None);
    assert_eq!(parse_output_format("xmlx"), None);
}

#[test]
fn a_label_moves_to_its_newest_hash() {
    let mut m = LabelRegistry::new();
    m.add_label(1, String::from("x"));
    m.add_label(2, String::from("x"));
    assert_eq!(m.label_of(1), None);
    assert_eq!(m.label_of(2), Some(String::from("x")));
}
