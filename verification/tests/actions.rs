use mimesorter::actions::actions_for;
use mimesorter::actions::base_name;
use mimesorter::actions::dest_path;
use mimesorter::actions::FsAction;
use mimesorter::actions::Mode;
use mimesorter::plan::build_plan;
use mimesorter::plan::Entry;

fn bytes(s: &str) -> Vec<u8> {
    s.as_bytes().to_vec()
}

fn file(name: &str, outcome: &str) -> Entry {
    Entry {
        path: bytes(&format!("./{name}")),
        name: bytes(name),
        is_dir: false,
        outcome: Some(bytes(outcome)),
    }
}

fn dir(name: &str) -> Entry {
    Entry { path: bytes(&format!("./{name}")), name: bytes(name), is_dir: true, outcome: None }
}

#[test]
fn base_name_takes_what_follows_the_last_separator() {
    assert_eq!(base_name(&bytes("./a.txt")), bytes("a.txt"));
    assert_eq!(base_name(&bytes("plain")), bytes("plain"));
    assert_eq!(base_name(&bytes("x/y/z.pdf")), bytes("z.pdf"));
}

#[test]
fn dest_path_joins_label_and_bare_name() {
    assert_eq!(dest_path(&bytes("text_plain"), &bytes("./a.txt")), bytes("text_plain/a.txt"));
    assert_eq!(dest_path(&bytes("image_png"), &bytes("cat.png")), bytes("image_png/cat.png"));
}

#[test]
fn preview_performs_nothing_and_describes_the_whole_plan() {
    let entries = vec![file("a.txt", "text/plain\n"), file("b.pdf", "application/pdf\n")];
    let (plan, _) = build_plan(&entries);
    let (to_perform, to_describe) = actions_for(&plan, Mode::Preview);
    assert!(to_perform.is_empty());
    assert_eq!(to_describe.len(), 4);
    let moves = to_describe
        .iter()
        .filter(|a| matches!(a, FsAction::MoveFile { .. }))
        .count();
    assert_eq!(moves, 2);
}

#[test]
fn execute_lists_a_mkdir_then_the_moves_of_each_group() {
    let entries = vec![file("a.txt", "text/plain\n"), file("b.pdf", "application/pdf\n")];
    let (plan, _) = build_plan(&entries);
    let (to_perform, to_describe) = actions_for(&plan, Mode::Execute);
    assert!(to_describe.is_empty());
    assert_eq!(to_perform.len(), 4);
    match &to_perform[0] {
        FsAction::MakeDir { dir } => assert_eq!(dir, &bytes("text_plain")),
        other => panic!("expected a directory creation, got {other:?}"),
    }
    match &to_perform[1] {
        FsAction::MoveFile { from, to } => {
            assert_eq!(from, &bytes("./a.txt"));
            assert_eq!(to, &bytes("text_plain/a.txt"));
        },
        other => panic!("expected a move, got {other:?}"),
    }
    match &to_perform[2] {
        FsAction::MakeDir { dir } => assert_eq!(dir, &bytes("application_pdf")),
        other => panic!("expected a directory creation, got {other:?}"),
    }
    match &to_perform[3] {
        FsAction::MoveFile { from, to } => {
            assert_eq!(from, &bytes("./b.pdf"));
            assert_eq!(to, &bytes("application_pdf/b.pdf"));
        },
        other => panic!("expected a move, got {other:?}"),
    }
}

#[test]
fn a_scan_of_directories_only_plans_and_performs_nothing() {
    let entries = vec![dir("text_plain"), dir("application_pdf"), dir(".git")];
    let (plan, warnings) = build_plan(&entries);
    assert!(plan.groups.is_empty());
    assert!(warnings.is_empty());
    let (to_perform, _) = actions_for(&plan, Mode::Execute);
    assert!(to_perform.is_empty());
}

#[test]
fn empty_plan_yields_no_actions_in_either_mode() {
    let (plan, _) = build_plan(&Vec::new());
    let (perform_exec, describe_exec) = actions_for(&plan, Mode::Execute);
    let (perform_prev, describe_prev) = actions_for(&plan, Mode::Preview);
    assert!(perform_exec.is_empty());
    assert!(describe_exec.is_empty());
    assert!(perform_prev.is_empty());
    assert!(describe_prev.is_empty());
}
