use mimesorter::plan::build_plan;
use mimesorter::plan::should_scan;
use mimesorter::plan::Entry;

fn bytes(s: &str) -> Vec<u8> {
    s.as_bytes().to_vec()
}

fn file(name: &str, outcome: Option<&str>) -> Entry {
    Entry {
        path: bytes(&format!("./{name}")),
        name: bytes(name),
        is_dir: false,
        outcome: outcome.map(bytes),
    }
}

fn dir(name: &str) -> Entry {
    Entry { path: bytes(&format!("./{name}")), name: bytes(name), is_dir: true, outcome: None }
}

#[test]
fn directories_are_not_scanned() {
    assert!(!should_scan(&bytes("music"), true));
    assert!(should_scan(&bytes("music"), false));
}

#[test]
fn excluded_and_dot_names_are_not_scanned() {
    assert!(!should_scan(&bytes(".DS_Store"), false));
    assert!(!should_scan(&bytes("."), false));
    assert!(!should_scan(&bytes(".."), false));
    assert!(should_scan(&bytes("notes.txt"), false));
}

#[test]
fn two_files_of_different_types_form_two_groups() {
    let entries = vec![
        file("a.txt", Some("text/plain\n")),
        file("b.pdf", Some("application/pdf\n")),
    ];
    let (plan, warnings) = build_plan(&entries);
    assert!(warnings.is_empty());
    assert_eq!(plan.groups.len(), 2);
    assert_eq!(plan.groups[0].label, bytes("text_plain"));
    assert_eq!(plan.groups[0].paths, vec![bytes("./a.txt")]);
    assert_eq!(plan.groups[1].label, bytes("application_pdf"));
    assert_eq!(plan.groups[1].paths, vec![bytes("./b.pdf")]);
}

#[test]
fn files_of_one_type_share_a_group_in_first_seen_order() {
    let entries = vec![
        file("one.txt", Some("text/plain\n")),
        file("img.png", Some("image/png\n")),
        file("two.txt", Some("text/plain\n")),
    ];
    let (plan, _) = build_plan(&entries);
    assert_eq!(plan.groups.len(), 2);
    assert_eq!(plan.groups[0].label, bytes("text_plain"));
    assert_eq!(plan.groups[0].paths, vec![bytes("./one.txt"), bytes("./two.txt")]);
    assert_eq!(plan.groups[1].label, bytes("image_png"));
    assert_eq!(plan.groups[1].paths, vec![bytes("./img.png")]);
}

#[test]
fn only_filtered_children_yield_an_empty_plan_without_warnings() {
    let entries = vec![dir(".git"), file(".DS_Store", None)];
    let (plan, warnings) = build_plan(&entries);
    assert!(plan.groups.is_empty());
    assert!(warnings.is_empty());
}

#[test]
fn classifier_failure_warns_and_skips_only_that_entry() {
    let entries = vec![file("corrupt.bin", None), file("ok.txt", Some("text/plain\n"))];
    let (plan, warnings) = build_plan(&entries);
    assert_eq!(warnings, vec![bytes("./corrupt.bin")]);
    assert_eq!(plan.groups.len(), 1);
    assert_eq!(plan.groups[0].label, bytes("text_plain"));
    assert_eq!(plan.groups[0].paths, vec![bytes("./ok.txt")]);
}

#[test]
fn sentinel_labelled_entries_are_not_planned() {
    let entries = vec![
        file("oddball", Some("inode/directory\n")),
        file("plain.txt", Some("text/plain\n")),
    ];
    let (plan, warnings) = build_plan(&entries);
    assert!(warnings.is_empty());
    assert_eq!(plan.groups.len(), 1);
    assert_eq!(plan.groups[0].label, bytes("text_plain"));
}

#[test]
fn excluded_files_are_never_planned_even_with_a_label() {
    let entries = vec![
        file("draft.swp", Some("text/plain\n")),
        file("kept.txt", Some("text/plain\n")),
    ];
    let (plan, _) = build_plan(&entries);
    assert_eq!(plan.groups.len(), 1);
    assert_eq!(plan.groups[0].paths, vec![bytes("./kept.txt")]);
}
