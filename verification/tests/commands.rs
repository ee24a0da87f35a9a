use md_reader::commands::{markdown_extensions, opened_file, try_markdown_extensions};

#[test]
fn extensions_are_read_from_a_json_array() {
    assert_eq!(
        markdown_extensions("[\"md\", \"markdown\", \"md\"]"),
        vec!["md".to_string(), "markdown".to_string(), "md".to_string()]
    );
    assert_eq!(markdown_extensions(" [ ] "), Vec::<String>::new());
    assert_eq!(
        try_markdown_extensions("[\"md\", \"markdown\"]"),
        Some(vec!["md".to_string(), "markdown".to_string()])
    );
}

#[test]
fn malformed_extension_listing_is_rejected() {
    assert_eq!(try_markdown_extensions("md, markdown"), None);
    assert_eq!(try_markdown_extensions("[\"md\", 3]"), None);
    assert_eq!(try_markdown_extensions("{\"md\": true}"), None);
}

#[test]
fn opened_file_is_named_after_its_last_component() {
    let f = opened_file("/home/me/notes/todo.md".to_string(), "- [ ] write".to_string());
    assert_eq!(f.path, "/home/me/notes/todo.md");
    assert_eq!(f.name, "todo.md");
    assert_eq!(f.content, "- [ ] write");
}

#[test]
fn opened_file_without_a_file_name_has_an_empty_name() {
    let f = opened_file("/".to_string(), String::new());
    assert_eq!(f.name, "");
    let f = opened_file("/tmp/..".to_string(), "x".to_string());
    assert_eq!(f.name, "");
}
