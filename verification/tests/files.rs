//! Paths, values from files, and synchronizing directories.

use passhrs::delta::{
    after_compare, apply_delta, compare_contents, direct_action, same_bytes, AfterCompare, Comparison, DeltaStep,
    FileDelta,
};
use passhrs::paths::{
    child_path, expand_path, expand_path_in, file_value, is_absolute_path, normalize_slashes,
    starts_with_drive_letter, value_file, value_source, NamedKind, ValueSource,
};
use passhrs::sync::{
    counterpart_path, creates_root, find_info, is_excluded, parse_sync_options, plan_delete, plan_download,
    plan_upload, relative_path, removes_files, FileAction, FoundFile, PlannedFile,
};
use passhrs::types::RemoteFileInfo;
use passhrs::walk::{reported_info, CopyWalk, DirItem, TreeWalk};

fn strings(list: &[&str]) -> Vec<String> {
    list.iter().map(|s| s.to_string()).collect()
}

#[test]
fn slashes() {
    assert_eq!(normalize_slashes(r"a\b\\c"), "a/b//c");
    assert_eq!(normalize_slashes("a/b"), "a/b");
    assert!(starts_with_drive_letter(r"C:\x") && starts_with_drive_letter("z:/"));
    assert!(!starts_with_drive_letter("C:") && !starts_with_drive_letter("1:/"));
    assert!(!starts_with_drive_letter(r"\\server"));
    assert!(is_absolute_path("/") && is_absolute_path("C:/x") && is_absolute_path(r"c:\x"));
    assert!(!is_absolute_path("") && !is_absolute_path("x/y") && !is_absolute_path("C:x"));
    assert_eq!(child_path("/a//", "b"), "/a/b");
    assert_eq!(child_path("/", "b"), "/b");
    assert_eq!(child_path("a", "b"), "a/b");
}

#[test]
fn home_directories() {
    let home = Some(r"C:\Users\foo".to_string());
    assert_eq!(expand_path_in("~/file", &home), "C:/Users/foo/file");
    assert_eq!(expand_path_in("~", &home), "C:/Users/foo");
    assert_eq!(expand_path_in("~user/x", &home), "~user/x");
    assert_eq!(expand_path_in("~/file", &None), "~/file");
    assert_eq!(expand_path_in(r"a\b", &None), "a/b");
    let real = dirs::home_dir().map(|h| h.display().to_string());
    assert_eq!(expand_path("~/x"), expand_path_in("~/x", &real));
}

#[test]
fn sources_of_values() {
    assert!(matches!(value_source("@/etc/pw"), ValueSource::File(p) if p == "/etc/pw"));
    assert!(matches!(value_source("secret"), ValueSource::Probe));
    assert!(matches!(value_source(""), ValueSource::Literal));
    assert!(matches!(value_source("-"), ValueSource::Literal));
    assert!(matches!(value_source(&"x".repeat(255)), ValueSource::Probe));
    assert!(matches!(value_source(&"x".repeat(256)), ValueSource::Literal));
    assert!(matches!(value_source(&"\u{e9}".repeat(128)), ValueSource::Literal));
    let read = |s: &str, k: NamedKind| value_file(s, k);
    assert_eq!(read("@/etc/pw", NamedKind::Nothing).as_deref(), Some("/etc/pw"));
    assert_eq!(read("/tmp/pw", NamedKind::RegularFile).as_deref(), Some("/tmp/pw"));
    assert_eq!(read("/dev/fd/63", NamedKind::Pipe).as_deref(), Some("/dev/fd/63"));
    assert_eq!(read("secret", NamedKind::Nothing), None);
    assert_eq!(read("/tmp", NamedKind::Other), None);
    assert_eq!(read("-", NamedKind::RegularFile), None);
    assert_eq!(file_value("pw \n\u{a0}"), "pw");
    assert_eq!(file_value(" pw"), " pw");
}

#[test]
fn sync_options() {
    let o = parse_sync_options(&strings(&["delete", "dry_run", "exclude=.git", "exclude=", "zip"]));
    assert!(o.delete && o.dry_run && !o.checksum);
    assert_eq!(o.excludes, strings(&[".git", ""]));
    assert_eq!(o.unknown, strings(&["zip"]));
    let o = parse_sync_options(&strings(&["dry-run", "checksum"]));
    assert!(!o.delete && o.dry_run && o.checksum && o.excludes.is_empty());
    assert!(!removes_files(&o));
    assert!(removes_files(&parse_sync_options(&strings(&["delete"]))));
    assert!(!removes_files(&parse_sync_options(&strings(&["delete", "dry-run"]))));
    assert!(!creates_root(&parse_sync_options(&strings(&["dry-run"]))));
    assert!(creates_root(&parse_sync_options(&[])));
}

#[test]
fn counterparts() {
    assert_eq!(relative_path("/a/b/c", "/a/"), "b/c");
    assert_eq!(relative_path("/x/c", "/a"), "x/c");
    assert_eq!(relative_path("/ab", "/a"), "b");
    assert_eq!(counterpart_path("/a/b/c", "/a/", "/r//"), "/r/b/c");
    assert!(is_excluded("/a/x/.git/y", "/a", &strings(&[".git"])));
    assert!(is_excluded("/a/x.o", "/a", &strings(&["q", ".o"])));
    assert!(is_excluded("/tmp/x", "/tmp", &strings(&["/tmp"])));
    assert!(!is_excluded("/a/x", "/a", &strings(&["z"])));
    assert!(!is_excluded("/a/x", "/a", &[]));
}

fn file(path: &str, size: u64, mtime: u64) -> FoundFile {
    FoundFile { path: path.to_string(), info: RemoteFileInfo { size, mtime } }
}

fn shown(plan: &[PlannedFile]) -> Vec<(&str, &str, FileAction)> {
    plan.iter().map(|p| (p.from.as_str(), p.to.as_str(), p.action)).collect()
}

#[test]
fn uploads() {
    let local = vec![
        file("/l/same", 1, 1),
        file("/l/time", 1, 2),
        file("/l/size", 2, 1),
        file("/l/new", 5, 5),
        file("/l/skip.o", 5, 5),
    ];
    let remote = vec![file("/r/same", 1, 1), file("/r/time", 1, 1), file("/r/size", 1, 1), file("/r/old", 1, 1)];
    let o = parse_sync_options(&strings(&["exclude=.o", "delete"]));
    let plan = plan_upload("/l/", "/r", &local, &remote, &o);
    assert_eq!(
        shown(&plan),
        vec![
            ("/l/same", "/r/same", FileAction::Same),
            ("/l/time", "/r/time", FileAction::Compare),
            ("/l/size", "/r/size", FileAction::Transfer),
            ("/l/new", "/r/new", FileAction::Transfer),
            ("/l/skip.o", "/r/skip.o", FileAction::Excluded),
        ]
    );
    assert_eq!(plan_delete("/l/", "/r", &local, &remote, &o), strings(&["/r/old"]));
    let o = parse_sync_options(&strings(&["dry-run", "checksum"]));
    let plan = plan_upload("/l", "/r/", &local, &remote, &o);
    assert_eq!(plan[0].action, FileAction::Compare);
    assert_eq!(plan[3].action, FileAction::WouldTransfer);
    assert!(plan_delete("/l", "/r", &local, &remote, &o).is_empty());
    assert_eq!(find_info(&remote, "/r/old"), Some(RemoteFileInfo { size: 1, mtime: 1 }));
    assert_eq!(find_info(&remote, "/r/none"), None);
}

#[test]
fn downloads() {
    let remote = vec![file("/r/a", 1, 1), file("/r/b", 1, 2), file("/r/c", 3, 3)];
    let local = vec![file("/l/a", 1, 1), file("/l/b", 1, 1)];
    let plan = plan_download("/r", "/l", &remote, &local);
    assert_eq!(
        shown(&plan),
        vec![
            ("/r/a", "/l/a", FileAction::Same),
            ("/r/b", "/l/b", FileAction::Compare),
            ("/r/c", "/l/c", FileAction::Transfer),
        ]
    );
}

#[test]
fn comparing_contents() {
    let old: Vec<u8> = (0..20_000u32).map(|i| (i * 7 % 251) as u8).collect();
    assert!(matches!(compare_contents(&old, &old), Ok(Comparison::Identical)));
    let mut new = old.clone();
    new[100] ^= 0xff;
    match compare_contents(&new, &old) {
        Ok(Comparison::Patched(out)) => assert_eq!(out, new),
        _ => panic!("a delta pays here"),
    }
    assert!(matches!(compare_contents(b"abc", b"xyz"), Ok(Comparison::Whole)));
}

#[test]
fn applying_a_delta() {
    let basis: Vec<u8> = (0..200u8).collect();
    let delta = |steps: Vec<DeltaStep>, source_size: u64| FileDelta {
        block_size: 4096,
        source_size,
        basis_size: 200,
        steps,
        checksum: [0; 32],
    };
    let local = vec![0u8; 100];
    let d = delta(vec![DeltaStep::Literal(vec![1; 100])], 100);
    assert!(matches!(apply_delta(&local, &basis, &d), Ok(Comparison::Whole)));
    let d = delta(vec![DeltaStep::Copy(0, 100)], 100);
    assert!(apply_delta(&local, &basis, &d).is_err(), "the checksum does not fit");
    let d = delta(vec![DeltaStep::Copy(150, 100)], 100);
    assert!(apply_delta(&local, &basis, &d).is_err(), "the copy goes too far");
}

#[test]
fn after_a_comparison() {
    assert!(matches!(after_compare(Comparison::Identical, false), AfterCompare::Skip));
    assert!(matches!(after_compare(Comparison::Whole, false), AfterCompare::Transfer));
    assert!(matches!(after_compare(Comparison::Whole, true), AfterCompare::WouldTransfer));
    assert!(matches!(after_compare(Comparison::Patched(vec![1]), false), AfterCompare::Write(b) if b == [1]));
    assert!(matches!(after_compare(Comparison::Patched(vec![1]), true), AfterCompare::WouldTransfer));
    assert!(matches!(direct_action(FileAction::Excluded), Some(AfterCompare::Skip)));
    assert!(matches!(direct_action(FileAction::Same), Some(AfterCompare::Skip)));
    assert!(matches!(direct_action(FileAction::Transfer), Some(AfterCompare::Transfer)));
    assert!(matches!(direct_action(FileAction::WouldTransfer), Some(AfterCompare::WouldTransfer)));
    assert!(direct_action(FileAction::Compare).is_none());
}

#[test]
fn listing_a_tree() {
    let item = |name: &str, is_dir: bool, size: u64| DirItem {
        name: name.to_string(),
        is_dir,
        info: RemoteFileInfo { size, mtime: 1 },
    };
    let mut walk = TreeWalk::new("/r/");
    assert_eq!(walk.next_dir().as_deref(), Some("/r/"));
    walk.enter("/r/", &vec![item("a", false, 1), item("d", true, 0), item("e", true, 0)]);
    assert_eq!(walk.next_dir().as_deref(), Some("/r/e"));
    walk.enter("/r/e", &vec![]);
    assert_eq!(walk.next_dir().as_deref(), Some("/r/d"));
    walk.enter("/r/d", &vec![item("b", false, 2)]);
    assert_eq!(walk.next_dir(), None);
    let found: Vec<(&str, u64)> =
        walk.found.iter().map(|f| (f.path.as_str(), f.info.size)).collect();
    assert_eq!(found, vec![("/r/a", 1), ("/r/d/b", 2)]);
    assert_eq!(reported_info(None, None), RemoteFileInfo { size: 0, mtime: 0 });
    assert_eq!(reported_info(Some(5), Some(6)), RemoteFileInfo { size: 5, mtime: 6 });
}

#[test]
fn copying_a_tree() {
    let mut walk = CopyWalk::new("l", "/r/");
    let pair = |a: &str, b: &str| Some((a.to_string(), b.to_string()));
    assert_eq!(walk.next_pair(), pair("l", "/r/"));
    walk.enter("l", "/r/", &strings(&["x", "y"]));
    assert_eq!(walk.next_pair(), pair("l/x", "/r/x"));
    walk.enter("l/x", "/r/x", &strings(&["1", "2"]));
    assert_eq!(walk.next_pair(), pair("l/x/1", "/r/x/1"));
    assert_eq!(walk.next_pair(), pair("l/x/2", "/r/x/2"));
    assert_eq!(walk.next_pair(), pair("l/y", "/r/y"));
    assert_eq!(walk.next_pair(), None);
}

/// Copies what stands at `from` among `files` to `to`; directories are those
/// that files stand in, or that end in a slash.
fn copy_all(
    files: &[(String, &'static str)],
    from: &str,
    to: &str,
) -> (Vec<(String, &'static str)>, Vec<String>) {
    let mut written = Vec::new();
    let mut made = Vec::new();
    let mut walk = CopyWalk::new(from, to);
    while let Some((from, to)) = walk.next_pair() {
        if let Some((_, bytes)) = files.iter().find(|(p, _)| *p == from) {
            written.push((to, *bytes));
            continue;
        }
        let dir = child_path(&from, "");
        let mut names: Vec<String> = Vec::new();
        for (path, _) in files {
            if let Some(rest) = path.strip_prefix(&dir) {
                let name = rest.split('/').next().unwrap().to_string();
                if !name.is_empty() && !names.contains(&name) {
                    names.push(name);
                }
            }
        }
        walk.enter(&from, &to, &names);
        made.push(to);
    }
    (written, made)
}

#[test]
fn a_tree_comes_back() {
    let files: Vec<(String, &'static str)> =
        [("l/a", "1"), ("l/d/b", "2"), ("l/d/e/c", "3"), ("l/empty/", ""), ("l/f", "4"), ("m/x", "5")]
            .iter()
            .map(|(p, b)| (p.to_string(), *b))
            .collect();
    let (mut far, made) = copy_all(&files, "l", "/r/");
    assert_eq!(made, vec!["/r/", "/r/d", "/r/d/e", "/r/empty"]);
    far.push(("/r/empty/".to_string(), ""));
    let (back, made) = copy_all(&far, "/r/", "n");
    assert_eq!(made, vec!["n", "n/d", "n/d/e", "n/empty"]);
    let shown: Vec<(&str, &str)> = back.iter().map(|(p, b)| (p.as_str(), *b)).collect();
    assert_eq!(shown, vec![("n/a", "1"), ("n/d/b", "2"), ("n/d/e/c", "3"), ("n/f", "4")]);
    let (one, made) = copy_all(&files, "l/a", "z");
    assert_eq!(one, vec![("z".to_string(), "1")]);
    assert!(made.is_empty());
}

#[test]
fn bytes_are_compared() {
    assert!(same_bytes(b"ab", b"ab") && !same_bytes(b"ab", b"ac") && !same_bytes(b"a", b"ab"));
}
