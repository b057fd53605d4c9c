use mimesorter::label::sanitize_label;

fn sanitize(s: &str) -> Vec<u8> {
    sanitize_label(&s.as_bytes().to_vec())
}

#[test]
fn trims_trailing_newline_and_replaces_slash() {
    assert_eq!(sanitize("text/plain\n"), b"text_plain".to_vec());
}

#[test]
fn trims_surrounding_whitespace() {
    assert_eq!(sanitize("  application/pdf \t\r\n"), b"application_pdf".to_vec());
}

#[test]
fn label_without_slash_or_whitespace_is_unchanged() {
    assert_eq!(sanitize("inode_directory"), b"inode_directory".to_vec());
}

#[test]
fn replaces_every_slash() {
    assert_eq!(sanitize("a/b/c"), b"a_b_c".to_vec());
}

#[test]
fn empty_input_gives_empty_label() {
    assert_eq!(sanitize(""), b"".to_vec());
}

#[test]
fn whitespace_only_input_gives_empty_label() {
    assert_eq!(sanitize(" \n\t "), b"".to_vec());
}

#[test]
fn inner_whitespace_is_kept() {
    assert_eq!(sanitize(" a b \n"), b"a b".to_vec());
}

#[test]
fn sanitized_label_never_contains_separator() {
    for raw in ["text/html\n", "///", " / / ", "application/x-tar\n", "plain"] {
        let label = sanitize(raw);
        assert!(!label.contains(&b'/'), "label {label:?} from {raw:?} holds a separator");
    }
}

#[test]
fn sanitizing_twice_changes_nothing() {
    for raw in ["text/plain\n", "  a/b ", "inode_directory", "", " \n"] {
        let once = sanitize(raw);
        let twice = sanitize_label(&once);
        assert_eq!(twice, once);
    }
}
