use mimesorter::pattern::glob_match_bytes;
use mimesorter::pattern::is_excluded;

fn matches(pattern: &str, name: &str) -> bool {
    glob_match_bytes(&pattern.as_bytes().to_vec(), &name.as_bytes().to_vec())
}

fn excluded(name: &str) -> bool {
    is_excluded(&name.as_bytes().to_vec())
}

#[test]
fn star_matches_any_run() {
    assert!(matches("*", ""));
    assert!(matches("*", "anything"));
    assert!(matches("*.swp", ".x.swp"));
    assert!(matches("a*b", "ab"));
    assert!(matches("a*b", "axxxb"));
    assert!(!matches("a*b", "axxx"));
}

#[test]
fn question_mark_matches_one_byte() {
    assert!(matches("a?c", "abc"));
    assert!(!matches("a?c", "ac"));
    assert!(!matches("a?c", "abbc"));
}

#[test]
fn literal_match_ignores_ascii_case() {
    assert!(matches(".DS_Store", ".ds_store"));
    assert!(matches(".ds_store", ".DS_STORE"));
    assert!(!matches(".DS_Store", ".DS_Store2"));
}

#[test]
fn excluded_names_from_the_fixed_list() {
    assert!(excluded(".DS_Store"));
    assert!(excluded(".ds_store"));
    assert!(excluded("._resource"));
    assert!(excluded("Thumbs.db"));
    assert!(excluded("thumbs.db"));
    assert!(excluded("desktop.ini"));
    assert!(excluded("$RECYCLE.BIN"));
    assert!(excluded(".directory"));
    assert!(excluded(".hidden"));
    assert!(excluded(".Trash-1000"));
    assert!(excluded("notes.swp"));
    assert!(excluded("backup~"));
    assert!(excluded(".lock"));
    assert!(excluded(".git"));
    assert!(excluded(".svn"));
    assert!(excluded(".hg"));
    assert!(excluded(".bzr"));
    assert!(excluded(".idea"));
    assert!(excluded(".vscode"));
}

#[test]
fn ordinary_names_are_not_excluded() {
    assert!(!excluded("a.txt"));
    assert!(!excluded("report.pdf"));
    assert!(!excluded("swp"));
    assert!(!excluded("git"));
}

#[test]
fn wildcard_free_patterns_match_only_the_literal_name() {
    assert!(!excluded(".gitignore"));
    assert!(!excluded(".hiddenfile"));
    assert!(!excluded("my.lock"));
    assert!(!excluded(".locks"));
}
