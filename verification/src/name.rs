//! From a file's path and digest to its new name.

use vstd::prelude::*;
use vstd::string::*;
use vstd::std_specs::iter::IteratorSpec;
use crate::digest::{Digest, compute, hex_upper, lemma_hex_is_injective, sha256};

verus! {

broadcast use vstd::string::group_string_axioms;

/// Where the final component of `path` starts: behind the last `/`, or at
/// the front where there is none.
pub open spec fn name_start(path: Seq<char>) -> int {
    match path.index_of_last('/') {
        Some(i) => i + 1,
        None => 0,
    }
}

/// The directory part of `path`, up to and with its last `/`.
pub open spec fn parent_of(path: Seq<char>) -> Seq<char> {
    path.take(name_start(path))
}

/// The final component of `path`.
pub open spec fn file_name_of(path: Seq<char>) -> Seq<char> {
    path.skip(name_start(path))
}

/// The extension of a file name: what follows its last `.`, unless that
/// `.` is the first character of the name or the name has none.
pub open spec fn name_extension(name: Seq<char>) -> Option<Seq<char>> {
    match name.index_of_last('.') {
        Some(i) => if i > 0 {
            Some(name.skip(i + 1))
        } else {
            None
        },
        None => None,
    }
}

/// The extension of the final component of `path`.
pub open spec fn extension_of(path: Seq<char>) -> Option<Seq<char>> {
    name_extension(file_name_of(path))
}

/// The name for content of the given digest: the digest in upper-case
/// hexadecimal, then `.` and the extension where there is one.
pub open spec fn target_name_of(extension: Option<Seq<char>>, digest: Seq<u8>) -> Seq<char> {
    match extension {
        Some(ext) => hex_upper(digest) + seq!['.'] + ext,
        None => hex_upper(digest),
    }
}

/// The path a file is renamed to: its new name in its old directory.
pub open spec fn target_path_of(path: Seq<char>, digest: Seq<u8>) -> Seq<char> {
    parent_of(path) + target_name_of(extension_of(path), digest)
}

/// `k` is the last position of `needle` in `text` when `needle` stands
/// there and nowhere behind it.
proof fn lemma_last_index_is(text: Seq<char>, needle: char, k: int)
    requires
        0 <= k < text.len(),
        text[k] == needle,
        forall|j: int| k < j < text.len() ==> text[j] != needle,
    ensures
        text.index_of_last(needle) == Some(k),
{
    text.index_of_last_ensures(needle);
    assert(text.contains(needle));
}

/// A text without `needle` has no last position of it.
proof fn lemma_last_index_absent(text: Seq<char>, needle: char)
    requires
        forall|j: int| 0 <= j < text.len() ==> text[j] != needle,
    ensures
        text.index_of_last(needle) is None,
{
    text.index_of_last_ensures(needle);
}

/// The file name of a path holds no `/`.
proof fn lemma_file_name_has_no_separator(path: Seq<char>)
    ensures
        forall|j: int| 0 <= j < file_name_of(path).len() ==> file_name_of(path)[j] != '/',
        0 <= name_start(path) <= path.len(),
{
    path.index_of_last_ensures('/');
}

/// An extension holds neither `/` nor `.` when the name holds no `/`.
proof fn lemma_extension_is_plain(name: Seq<char>)
    requires
        forall|j: int| 0 <= j < name.len() ==> name[j] != '/',
    ensures
        name_extension(name) matches Some(ext) ==> forall|j: int|
            0 <= j < ext.len() ==> ext[j] != '/' && ext[j] != '.',
{
    name.index_of_last_ensures('.');
}

/// The position of the last `needle` in `text`, if it has one.
fn find_last(text: &str, needle: char) -> (found: Option<usize>)
    ensures
        match found {
            Some(i) => text@.index_of_last(needle) == Some(i as int),
            None => text@.index_of_last(needle) is None,
        },
{
    let count = text.unicode_len();
    let mut chars = text.chars();
    let mut found: Option<usize> = None;
    let mut i: usize = 0;
    while i < count
        invariant
            count == text@.len(),
            i <= count,
            chars.obeys_prophetic_iter_laws(),
            chars.remaining() == text@.skip(i as int),
            match found {
                Some(k) => k < i && text@[k as int] == needle && forall|j: int|
                    k < j < i ==> text@[j] != needle,
                None => forall|j: int| 0 <= j < i ==> text@[j] != needle,
            },
        decreases count - i,
    {
        let next = chars.next();
        proof {
            assert(text@.skip(i as int).drop_first() =~= text@.skip(i + 1));
        }
        match next {
            Some(c) => {
                if c == needle {
                    found = Some(i);
                }
            },
            None => {},
        }
        i += 1;
    }
    proof {
        match found {
            Some(k) => lemma_last_index_is(text@, needle, k as int),
            None => lemma_last_index_absent(text@, needle),
        }
    }
    found
}

/// Splits `path` behind its last `/` into directory part and file name.
pub fn split_path(path: &str) -> (parts: (&str, &str))
    ensures
        parts.0@ == parent_of(path@),
        parts.1@ == file_name_of(path@),
{
    let count = path.unicode_len();
    let start = match find_last(path, '/') {
        Some(i) => {
            proof {
                path@.index_of_last_ensures('/');
            }
            i + 1
        },
        None => 0,
    };
    (path.substring_char(0, start), path.substring_char(start, count))
}

/// The extension of a file name, without its `.`.
fn extension_in(name: &str) -> (ext: Option<&str>)
    ensures
        ext.is_some() == name_extension(name@).is_some(),
        ext matches Some(e) ==> Some(e@) == name_extension(name@),
{
    let count = name.unicode_len();
    match find_last(name, '.') {
        Some(i) => {
            proof {
                name@.index_of_last_ensures('.');
            }
            if i > 0 {
                Some(name.substring_char(i + 1, count))
            } else {
                None
            }
        },
        None => None,
    }
}

/// The extension of the file at `path`, without its `.`: what follows the
/// last `.` of the final component. A name that only starts with a `.`
/// has no extension, and neither has a name without one.
pub fn extension(path: &str) -> (ext: Option<&str>)
    ensures
        ext.is_some() == extension_of(path@).is_some(),
        ext matches Some(e) ==> Some(e@) == extension_of(path@),
{
    let (_, name) = split_path(path);
    extension_in(name)
}

/// The new name of a file from its old name and the digest of its content.
fn name_for(name: &str, digest: &Digest) -> (target: String)
    ensures
        target@ == target_name_of(name_extension(name@), digest@),
{
    let mut target = digest.to_hex();
    match extension_in(name) {
        Some(ext) => {
            proof {
                reveal_strlit(".");
                assert("."@ =~= seq!['.']);
            }
            target.append(".");
            target.append(ext);
        },
        None => {},
    }
    target
}

/// The name that the file at `path` gets for content of the given digest.
/// It depends on the digest and on the extension of `path` alone.
pub fn resolve(path: &str, digest: &Digest) -> (name: String)
    ensures
        name@ == target_name_of(extension_of(path@), digest@),
{
    let (_, name) = split_path(path);
    name_for(name, digest)
}

/// The path that the file at `path` is renamed to for content of the given
/// digest: the resolved name in the directory of `path`.
pub fn target_path(path: &str, digest: &Digest) -> (target: String)
    ensures
        target@ == target_path_of(path@, digest@),
{
    let (parent, name) = split_path(path);
    let mut target = parent.to_owned();
    let resolved = name_for(name, digest);
    target.append(resolved.as_str());
    target
}

/// The path that the file at `path` is renamed to, given its content.
pub fn get_new_name(path: &str, content: &[u8]) -> (target: String)
    ensures
        target@ == target_path_of(path@, sha256(content@)),
{
    let digest = compute(content);
    target_path(path, &digest)
}

/// No digit of a hexadecimal rendering is `/` or `.`.
pub proof fn lemma_hex_is_plain(bytes: Seq<u8>)
    ensures
        forall|j: int|
            0 <= j < hex_upper(bytes).len() ==> hex_upper(bytes)[j] != '/' && hex_upper(bytes)[j]
                != '.',
{
    assert forall|j: int| 0 <= j < hex_upper(bytes).len() implies hex_upper(bytes)[j] != '/'
        && hex_upper(bytes)[j] != '.' by {
        let b = bytes[j / 2];
        assert(0 <= b as int / 16 < 16 && 0 <= b as int % 16 < 16);
    }
}

/// A resolved name holds no `/` when the extension holds none.
proof fn lemma_target_name_has_no_separator(extension: Option<Seq<char>>, digest: Seq<u8>)
    requires
        extension matches Some(ext) ==> forall|j: int| 0 <= j < ext.len() ==> ext[j] != '/',
    ensures
        forall|j: int|
            0 <= j < target_name_of(extension, digest).len() ==> target_name_of(
                extension,
                digest,
            )[j] != '/',
{
    lemma_hex_is_plain(digest);
}

/// For a name `text` without `/` in the directory of `path`: the path made
/// of the two splits into that directory and `text`.
proof fn lemma_split_of_sibling(path: Seq<char>, text: Seq<char>)
    requires
        forall|j: int| 0 <= j < text.len() ==> text[j] != '/',
    ensures
        parent_of(parent_of(path) + text) == parent_of(path),
        file_name_of(parent_of(path) + text) == text,
{
    let parent = parent_of(path);
    let sibling = parent + text;
    path.index_of_last_ensures('/');
    match path.index_of_last('/') {
        Some(k) => {
            assert(sibling[k] == '/');
            lemma_last_index_is(sibling, '/', k);
        },
        None => {
            lemma_last_index_absent(sibling, '/');
        },
    }
    assert(sibling.take(name_start(path)) =~= parent);
    assert(sibling.skip(name_start(path)) =~= text);
}

/// The extension of a resolved name is the extension it was made with,
/// for an extension without `.` and a digest that is not empty.
proof fn lemma_extension_of_target_name(extension: Option<Seq<char>>, digest: Seq<u8>)
    requires
        digest.len() > 0,
        extension matches Some(ext) ==> forall|j: int| 0 <= j < ext.len() ==> ext[j] != '.',
    ensures
        name_extension(target_name_of(extension, digest)) == extension,
{
    let hex = hex_upper(digest);
    let name = target_name_of(extension, digest);
    lemma_hex_is_plain(digest);
    match extension {
        Some(ext) => {
            let dot = hex.len() as int;
            assert(name[dot] == '.');
            lemma_last_index_is(name, '.', dot);
            assert(name.skip(dot + 1) =~= ext);
        },
        None => {
            lemma_last_index_absent(name, '.');
        },
    }
}

/// A file stays in its directory: the target path has the directory part
/// of the path it was made from.
pub proof fn lemma_target_keeps_directory(path: Seq<char>, digest: Digest)
    ensures
        parent_of(target_path_of(path, digest@)) == parent_of(path),
        file_name_of(target_path_of(path, digest@)) == target_name_of(
            extension_of(path),
            digest@,
        ),
{
    lemma_file_name_has_no_separator(path);
    lemma_extension_is_plain(file_name_of(path));
    lemma_target_name_has_no_separator(extension_of(path), digest@);
    lemma_split_of_sibling(path, target_name_of(extension_of(path), digest@));
}

/// A file keeps its extension, character for character: the target path
/// has the extension of the path it was made from, or none if that had none.
pub proof fn lemma_target_keeps_extension(path: Seq<char>, digest: Digest)
    ensures
        extension_of(target_path_of(path, digest@)) == extension_of(path),
{
    lemma_target_keeps_directory(path, digest);
    lemma_file_name_has_no_separator(path);
    lemma_extension_is_plain(file_name_of(path));
    lemma_extension_of_target_name(extension_of(path), digest@);
}

/// A file that carries its target name resolves to its own path: to
/// resolve the target path again, with the same digest, changes nothing.
pub proof fn lemma_target_path_is_fixed_point(path: Seq<char>, digest: Digest)
    ensures
        target_path_of(target_path_of(path, digest@), digest@) == target_path_of(path, digest@),
{
    lemma_target_keeps_directory(path, digest);
    lemma_target_keeps_extension(path, digest);
}

/// Two files have one target path only if they are of one directory, one
/// extension and one digest: files that differ in any of these never stand
/// in each other's way.
pub proof fn lemma_shared_target_means_duplicates(
    first: Seq<char>,
    first_digest: Digest,
    second: Seq<char>,
    second_digest: Digest,
)
    requires
        target_path_of(first, first_digest@) == target_path_of(second, second_digest@),
    ensures
        parent_of(first) == parent_of(second),
        extension_of(first) == extension_of(second),
        first_digest@ == second_digest@,
{
    lemma_target_keeps_directory(first, first_digest);
    lemma_target_keeps_directory(second, second_digest);
    lemma_target_keeps_extension(first, first_digest);
    lemma_target_keeps_extension(second, second_digest);
    let first_hex = hex_upper(first_digest@);
    let second_hex = hex_upper(second_digest@);
    let first_name = target_name_of(extension_of(first), first_digest@);
    let second_name = target_name_of(extension_of(second), second_digest@);
    assert(first_name == second_name);
    assert(first_hex.len() == second_hex.len());
    assert(first_name.take(first_hex.len() as int) =~= first_hex);
    assert(second_name.take(second_hex.len() as int) =~= second_hex);
    lemma_hex_is_injective(first_digest@, second_digest@);
}

/// The resolved name is a function of digest and extension alone: two
/// paths with one extension get one name for one digest, whatever their
/// names and directories.
pub proof fn lemma_name_depends_on_digest_and_extension(
    first: Seq<char>,
    second: Seq<char>,
    digest: Seq<u8>,
)
    requires
        extension_of(first) == extension_of(second),
    ensures
        target_name_of(extension_of(first), digest) == target_name_of(
            extension_of(second),
            digest,
        ),
{
}

/// Two files of one directory, one extension and one content have one
/// target path.
pub proof fn lemma_duplicates_share_target(first: Seq<char>, second: Seq<char>, content: Seq<u8>)
    requires
        parent_of(first) == parent_of(second),
        extension_of(first) == extension_of(second),
    ensures
        target_path_of(first, sha256(content)) == target_path_of(second, sha256(content)),
{
}

} // verus!
