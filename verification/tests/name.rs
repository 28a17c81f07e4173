use rnamed::digest::{compute, Digest};
use rnamed::get_new_name;
use rnamed::name::{extension, resolve, split_path, target_path};

const ABC: &str = "BA7816BF8F01CFEA414140DE5DAE2223B00361A396177A9CB410FF61F20015AD";

fn abcd() -> Digest {
    let mut bytes = [0u8; 32];
    for i in 0..32 {
        bytes[i] = if i % 2 == 0 { 0xab } else { 0xcd };
    }
    Digest { bytes }
}

#[test]
fn extension_is_what_follows_the_last_dot() {
    assert_eq!(extension("report.PDF"), Some("PDF"));
    assert_eq!(extension("archive.tar.gz"), Some("gz"));
    assert_eq!(extension("dir/sub/photo.jpeg"), Some("jpeg"));
}

#[test]
fn name_without_dot_has_no_extension() {
    assert_eq!(extension("README"), None);
    assert_eq!(extension("dir/README"), None);
    assert_eq!(extension(""), None);
}

#[test]
fn hidden_file_has_no_extension() {
    assert_eq!(extension(".gitignore"), None);
    assert_eq!(extension("repo/.gitignore"), None);
}

#[test]
fn hidden_file_with_second_dot_has_an_extension() {
    assert_eq!(extension(".config.toml"), Some("toml"));
    assert_eq!(extension("home/.config.toml"), Some("toml"));
}

#[test]
fn dot_in_directory_is_no_extension() {
    assert_eq!(extension("dir.d/README"), None);
    assert_eq!(extension("v1.2/notes.txt"), Some("txt"));
    assert_eq!(extension("dir.d/"), None);
}

#[test]
fn trailing_dot_is_an_empty_extension() {
    assert_eq!(extension("notes."), Some(""));
}

#[test]
fn extension_counts_characters_not_bytes() {
    assert_eq!(extension("día/ñandú.tXt"), Some("tXt"));
    assert_eq!(extension("día/ñandú.añó"), Some("añó"));
}

#[test]
fn split_path_cuts_behind_the_last_separator() {
    assert_eq!(split_path("root/sub/b.txt"), ("root/sub/", "b.txt"));
    assert_eq!(split_path("b.txt"), ("", "b.txt"));
    assert_eq!(split_path("/b.txt"), ("/", "b.txt"));
    assert_eq!(split_path("root/sub/"), ("root/sub/", ""));
    assert_eq!(split_path(""), ("", ""));
}

#[test]
fn extension_is_kept_as_written() {
    let name = resolve("report.PDF", &abcd());
    assert_eq!(name, format!("{}.PDF", "ABCD".repeat(16)));
}

#[test]
fn file_without_extension_gets_the_digest_alone() {
    let name = resolve("README", &abcd());
    assert_eq!(name, "ABCD".repeat(16));
    assert!(!name.ends_with('.'));
}

#[test]
fn hidden_file_gets_the_digest_alone() {
    assert_eq!(resolve("repo/.gitignore", &abcd()), "ABCD".repeat(16));
}

#[test]
fn name_does_not_depend_on_old_name_or_directory() {
    let digest = compute(b"abc");
    let first = resolve("a/one.txt", &digest);
    let second = resolve("b/c/two.txt", &digest);
    assert_eq!(first, second);
    assert_eq!(first, format!("{}.txt", ABC));
}

#[test]
fn resolve_gives_the_same_name_each_time() {
    let first = resolve("a/one.txt", &compute(b"content"));
    let second = resolve("a/one.txt", &compute(b"content"));
    assert_eq!(first, second);
}

#[test]
fn target_stays_in_the_directory() {
    let digest = compute(b"abc");
    assert_eq!(target_path("root/sub/b.txt", &digest), format!("root/sub/{}.txt", ABC));
    assert_eq!(target_path("root/a.txt", &digest), format!("root/{}.txt", ABC));
    assert_eq!(target_path("a.txt", &digest), format!("{}.txt", ABC));
    assert_eq!(target_path("/a", &digest), format!("/{}", ABC));
}

#[test]
fn target_of_a_target_is_itself() {
    let digest = compute(b"abc");
    for path in ["root/sub/b.txt", "README", ".gitignore", "x/notes.", "día/ñandú.tXt"] {
        let once = target_path(path, &digest);
        let twice = target_path(&once, &digest);
        assert_eq!(once, twice);
    }
}

#[test]
fn get_new_name_hashes_the_content() {
    assert_eq!(get_new_name("dir/a.txt", b"abc"), format!("dir/{}.txt", ABC));
    assert_eq!(get_new_name("dir/a", b"abc"), format!("dir/{}", ABC));
    assert_ne!(get_new_name("dir/a.txt", b"abc"), get_new_name("dir/a.txt", b"abd"));
}

#[test]
fn files_of_one_content_share_a_target() {
    assert_eq!(get_new_name("dir/a.txt", b"same"), get_new_name("dir/b.txt", b"same"));
}
