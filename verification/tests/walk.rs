use rnamed::digest::compute;
use rnamed::name::target_path;
use rnamed::process_dir;
use rnamed::walk::{DirectoryReadError, Entry, EntryKind, Walker};

fn file(path: &str) -> Entry {
    Entry { path: path.to_string(), kind: EntryKind::File }
}

fn dir(path: &str) -> Entry {
    Entry { path: path.to_string(), kind: EntryKind::Directory }
}

fn other(path: &str) -> Entry {
    Entry { path: path.to_string(), kind: EntryKind::Other }
}

#[test]
fn new_walker_has_nothing_to_list() {
    let mut walker = Walker::new();
    assert_eq!(walker.next_dir(), None);
}

#[test]
fn file_root_is_work_and_schedules_nothing() {
    let mut walker = Walker::new();
    assert!(walker.visit("a.txt", EntryKind::File));
    assert_eq!(walker.next_dir(), None);
}

#[test]
fn other_root_is_passed_over() {
    let mut walker = Walker::new();
    assert!(!walker.visit("socket", EntryKind::Other));
    assert_eq!(walker.next_dir(), None);
}

#[test]
fn tree_is_covered_and_files_stay_in_place() {
    let mut walker = Walker::new();
    assert!(!walker.visit("root", EntryKind::Directory));

    let mut found: Vec<String> = Vec::new();
    while let Some(current) = walker.next_dir() {
        let listing = match current.as_str() {
            "root" => vec![file("root/a.txt"), dir("root/sub")],
            "root/sub" => vec![file("root/sub/b.txt")],
            _ => unreachable!(),
        };
        found.extend(process_dir(&mut walker, &current, Ok(listing)).unwrap());
    }
    assert_eq!(found, vec!["root/a.txt".to_string(), "root/sub/b.txt".to_string()]);

    let digest = compute(b"abc");
    assert!(target_path("root/a.txt", &digest).starts_with("root/"));
    assert!(target_path("root/sub/b.txt", &digest).starts_with("root/sub/"));
    assert!(!target_path("root/a.txt", &digest).starts_with("root/sub/"));
}

#[test]
fn files_come_out_in_listing_order() {
    let mut walker = Walker::new();
    let listing = vec![file("d/2"), other("d/pipe"), file("d/1"), dir("d/x"), file("d/3")];
    let files = process_dir(&mut walker, "d", Ok(listing)).unwrap();
    assert_eq!(files, vec!["d/2".to_string(), "d/1".to_string(), "d/3".to_string()]);
    assert_eq!(walker.next_dir(), Some("d/x".to_string()));
    assert_eq!(walker.next_dir(), None);
}

#[test]
fn empty_directory_gives_nothing() {
    let mut walker = Walker::new();
    assert_eq!(process_dir(&mut walker, "d", Ok(vec![])), Ok(vec![]));
    assert_eq!(walker.next_dir(), None);
}

#[test]
fn last_scheduled_directory_is_listed_first() {
    let mut walker = Walker::new();
    let listing = vec![dir("d/a"), dir("d/b")];
    assert_eq!(process_dir(&mut walker, "d", Ok(listing)), Ok(vec![]));
    assert_eq!(walker.next_dir(), Some("d/b".to_string()));
    let deeper = vec![dir("d/b/c")];
    assert_eq!(process_dir(&mut walker, "d/b", Ok(deeper)), Ok(vec![]));
    assert_eq!(walker.next_dir(), Some("d/b/c".to_string()));
    assert_eq!(walker.next_dir(), Some("d/a".to_string()));
    assert_eq!(walker.next_dir(), None);
}

#[test]
fn unreadable_directory_is_reported_and_its_siblings_are_walked() {
    let mut walker = Walker::new();
    let listing = vec![dir("root/locked"), dir("root/open")];
    assert_eq!(process_dir(&mut walker, "root", Ok(listing)), Ok(vec![]));

    assert_eq!(walker.next_dir(), Some("root/open".to_string()));
    let open = process_dir(&mut walker, "root/open", Ok(vec![file("root/open/f")]));
    assert_eq!(open, Ok(vec!["root/open/f".to_string()]));

    assert_eq!(walker.next_dir(), Some("root/locked".to_string()));
    let locked = process_dir(&mut walker, "root/locked", Err("permission denied".to_string()));
    assert_eq!(
        locked,
        Err(DirectoryReadError {
            dir: "root/locked".to_string(),
            message: "permission denied".to_string(),
        })
    );
    assert_eq!(walker.next_dir(), None);
}

#[test]
fn directory_is_scheduled_once() {
    let mut walker = Walker::new();
    assert!(!walker.visit("root", EntryKind::Directory));
    assert!(!walker.visit("root", EntryKind::Directory));
    assert_eq!(walker.next_dir(), Some("root".to_string()));
    assert_eq!(walker.next_dir(), None);
}

#[test]
fn loop_in_the_tree_is_left_after_one_pass() {
    let mut walker = Walker::new();
    walker.visit("root", EntryKind::Directory);
    let mut listed = 0;
    while let Some(current) = walker.next_dir() {
        listed += 1;
        assert!(listed <= 2);
        let listing = match current.as_str() {
            "root" => vec![dir("root/sub")],
            "root/sub" => vec![dir("root"), dir("root/sub"), file("root/sub/f")],
            _ => unreachable!(),
        };
        process_dir(&mut walker, &current, Ok(listing)).unwrap();
    }
    assert_eq!(listed, 2);
}
