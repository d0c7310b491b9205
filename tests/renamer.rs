use file_renamer::args::{parse_args, ArgError, ValueFlag};
use file_renamer::extension::{eq_ignore_ascii_case, extension, normalize_extension, renamed};
use file_renamer::run::{after_answer, after_scan, answer_is_yes, count_renamed, summary, target_path, targets, Next, Summary};
use file_renamer::scan::{find_files_non_recursive, find_files_recursive, scan, Entry, EntryKind};

fn file(name: &str) -> Entry {
    Entry { name: name.to_string(), kind: EntryKind::File, children: Vec::new() }
}

fn dir(name: &str, children: Vec<Entry>) -> Entry {
    Entry { name: name.to_string(), kind: EntryKind::Directory, children }
}

fn other(name: &str) -> Entry {
    Entry { name: name.to_string(), kind: EntryKind::Other, children: Vec::new() }
}

fn path(parts: &[&str]) -> Vec<String> {
    parts.iter().map(|s| s.to_string()).collect()
}

fn strings(args: &[&str]) -> Vec<String> {
    args.iter().map(|s| s.to_string()).collect()
}

#[test]
fn extension_rules() {
    assert_eq!(extension("a.cpp"), Some("cpp"));
    assert_eq!(extension("a.b.c"), Some("c"));
    assert_eq!(extension("noext"), None);
    assert_eq!(extension(".profile"), None);
    assert_eq!(extension(".."), None);
    assert_eq!(extension("..x"), Some("x"));
    assert_eq!(extension("a."), Some(""));
    assert_eq!(extension("été.ÇPP"), Some("ÇPP"));
}

#[test]
fn matching_ignores_ascii_case_only() {
    assert!(file_renamer::extension::matches("x.cpp", "cpp"));
    assert!(file_renamer::extension::matches("y.CPP", "cpp"));
    assert!(file_renamer::extension::matches("y.cpp", "CpP"));
    assert!(!file_renamer::extension::matches("z.txt", "cpp"));
    assert!(!file_renamer::extension::matches("cpp", "cpp"));
    assert!(!file_renamer::extension::matches(".cpp", "cpp"));
    assert!(!file_renamer::extension::matches("a.cpp", "cp"));
    assert!(!file_renamer::extension::matches("a.é", "É"));
    assert!(eq_ignore_ascii_case("AbC", "aBc"));
    assert!(!eq_ignore_ascii_case("abc", "abcd"));
    assert!(!eq_ignore_ascii_case("a[", "a{"));
}

#[test]
fn name_without_dot_never_matches() {
    for ext in ["cpp", "x", "noext"] {
        assert!(!file_renamer::extension::matches("noext", ext));
    }
}

#[test]
fn renaming_names() {
    assert_eq!(renamed("x.cpp", "txt"), "x.txt");
    assert_eq!(renamed("y.CPP", "txt"), "y.txt");
    assert_eq!(renamed("a.b.cpp", "md"), "a.b.md");
    assert_eq!(renamed("a.cpp", ""), "a");
    assert_eq!(renamed("noext", "md"), "noext.md");
    assert_eq!(renamed(".profile", "md"), ".profile.md");
}

#[test]
fn normalizing_extensions() {
    assert_eq!(normalize_extension(".cpp"), "cpp");
    assert_eq!(normalize_extension("cpp"), "cpp");
    assert_eq!(normalize_extension("..cpp"), ".cpp");
    assert_eq!(normalize_extension("."), "");
    assert_eq!(normalize_extension(""), "");
}

#[test]
fn same_extension_is_idempotent() {
    let once = renamed("x.cpp", "cpp");
    assert_eq!(once, "x.cpp");
    assert_eq!(renamed(&once, "cpp"), once);
    let upper = renamed("y.CPP", "cpp");
    assert_eq!(upper, "y.cpp");
    assert_eq!(renamed(&upper, "cpp"), upper);
}

#[test]
fn round_trip_restores_names() {
    for name in ["x.cpp", "a.b.cpp", ".hidden.cpp"] {
        let there = renamed(name, "txt");
        assert!(file_renamer::extension::matches(&there, "txt"));
        assert_eq!(renamed(&there, "cpp"), name);
    }
}

#[test]
fn scan_flat_directory() {
    let tree = vec![file("x.cpp"), file("y.CPP"), file("z.txt")];
    let found = scan(&tree, "cpp", false);
    assert_eq!(found, vec![path(&["x.cpp"]), path(&["y.CPP"])]);
    let new = targets(&found, "txt");
    assert_eq!(new, vec![path(&["x.txt"]), path(&["y.txt"])]);
    assert_eq!(count_renamed(&vec![true, true]), 2);
    assert_eq!(summary(2), Summary::Many(2));
}

#[test]
fn scan_skips_directories_and_others() {
    let tree = vec![dir("d.cpp", vec![]), other("link.cpp"), file("k.cpp")];
    assert_eq!(scan(&tree, "cpp", false), vec![path(&["k.cpp"])]);
    assert_eq!(scan(&tree, "cpp", true), vec![path(&["k.cpp"])]);
}

#[test]
fn scan_nested_directory() {
    let tree = vec![file("a.txt"), dir("sub", vec![file("w.cpp"), dir("deep", vec![file("v.Cpp")])]), file("b.cpp")];
    let deep = find_files_recursive(&tree, "cpp");
    assert_eq!(deep, vec![path(&["sub", "w.cpp"]), path(&["sub", "deep", "v.Cpp"]), path(&["b.cpp"])]);
    assert_eq!(target_path(&deep[0], "md"), path(&["sub", "w.md"]));
    let flat = find_files_non_recursive(&tree, "cpp");
    assert_eq!(flat, vec![path(&["b.cpp"])]);
}

#[test]
fn recursive_only_finds_nested_file() {
    let tree = vec![dir("sub", vec![file("w.cpp")])];
    let found = scan(&tree, "cpp", true);
    assert_eq!(found, vec![path(&["sub", "w.cpp"])]);
    assert_eq!(targets(&found, "md"), vec![path(&["sub", "w.md"])]);
    assert!(scan(&tree, "cpp", false).is_empty());
}

#[test]
fn nothing_found_ends_without_prompt() {
    let tree = vec![file("z.txt")];
    let found = scan(&tree, "cpp", false);
    assert!(found.is_empty());
    assert_eq!(after_scan(found.len(), false), Next::ReportNone);
    assert_eq!(after_scan(0, true), Next::ReportNone);
    assert!(scan(&Vec::new(), "cpp", true).is_empty());
}

#[test]
fn prompt_unless_skipped() {
    assert_eq!(after_scan(2, false), Next::Prompt);
    assert_eq!(after_scan(2, true), Next::Rename);
}

#[test]
fn answers_to_prompt() {
    assert_eq!(after_answer("y\n"), Next::Rename);
    assert_eq!(after_answer("  Y \r\n"), Next::Rename);
    assert_eq!(after_answer("n\n"), Next::ReportCancelled);
    assert_eq!(after_answer(""), Next::ReportCancelled);
    assert_eq!(after_answer("\n"), Next::ReportCancelled);
    assert_eq!(after_answer("yes\n"), Next::ReportCancelled);
    assert!(answer_is_yes("y"));
    assert!(!answer_is_yes("Y"));
    assert!(!answer_is_yes("yy"));
}

#[test]
fn tally_counts_successes() {
    assert_eq!(count_renamed(&vec![]), 0);
    assert_eq!(count_renamed(&vec![true, false, true, false]), 2);
    assert_eq!(count_renamed(&vec![false, false]), 0);
    assert_eq!(summary(0), Summary::NoneRenamed);
    assert_eq!(summary(1), Summary::One);
    assert_eq!(summary(7), Summary::Many(7));
}

#[test]
fn parse_full_command_line() {
    let o = parse_args(&strings(&["-p", "/tmp/d", "-f", ".cpp", "-t", "txt", "-y", "-r"])).ok().unwrap();
    assert_eq!(o.path, "/tmp/d");
    assert_eq!(o.from, "cpp");
    assert_eq!(o.to, "txt");
    assert!(o.skip_confirmation);
    assert!(o.recursive);
    let o = parse_args(&strings(&["--to", ".md", "--from", "cpp", "--path", "."])).ok().unwrap();
    assert_eq!(o.path, ".");
    assert_eq!(o.from, "cpp");
    assert_eq!(o.to, "md");
    assert!(!o.skip_confirmation);
    assert!(!o.recursive);
}

#[test]
fn parse_errors() {
    assert_eq!(parse_args(&strings(&["-p", "d", "-h"])).err(), Some(ArgError::Help));
    assert_eq!(parse_args(&strings(&["--help", "-x"])).err(), Some(ArgError::Help));
    assert_eq!(parse_args(&strings(&["-p"])).err(), Some(ArgError::MissingValue(ValueFlag::Path)));
    assert_eq!(parse_args(&strings(&["-p", "d", "-f"])).err(), Some(ArgError::MissingValue(ValueFlag::From)));
    assert_eq!(parse_args(&strings(&["-p", "d", "--to"])).err(), Some(ArgError::MissingValue(ValueFlag::To)));
    assert_eq!(parse_args(&strings(&["-p", "d", "-x", "-h"])).err(), Some(ArgError::Unknown(2)));
    assert_eq!(parse_args(&strings(&[])).err(), Some(ArgError::MissingPath));
    assert_eq!(parse_args(&strings(&["-t", "a", "-f", "b"])).err(), Some(ArgError::MissingPath));
    assert_eq!(parse_args(&strings(&["-p", "d", "-t", "a"])).err(), Some(ArgError::MissingFrom));
    assert_eq!(parse_args(&strings(&["-p", "d", "-f", "a"])).err(), Some(ArgError::MissingTo));
}
