use dupefind::export::build_document;
use dupefind::hashing::ContentHasher;
use dupefind::model::ScanOptions;
use dupefind::path::FilePath;
use dupefind::selection::Selection;
use dupefind::text::{decimal_of, hex_text, pad_left, pad_right, same_text, trim, trim_leading};
use dupefind::time::Duration;

fn path(text: &str) -> FilePath {
    FilePath::from_text(text)
}

fn hash_of(pieces: &[&[u8]], limit: Option<u64>) -> ([u8; 32], u64) {
    let mut hasher = match limit {
        Some(limit) => ContentHasher::prefix(limit),
        None => ContentHasher::whole(),
    };
    for piece in pieces {
        hasher.feed(piece);
    }
    hasher.finish()
}

#[test]
fn hashes_are_blake3() {
    let (hash, read) = hash_of(&[b"abc"], None);
    assert_eq!(read, 3);
    assert_eq!(
        hex_text(&hash, 32),
        "6437b3ac38465133ffb63b75273a8db548c558465d79db03fd359c6cd5bd9d85"
    );
    let (empty, read) = hash_of(&[], None);
    assert_eq!(read, 0);
    assert_eq!(
        hex_text(&empty, 32),
        "af1349b9f5f9a1a6a0404dea36dcc9499bcb25c9adc112b7cc9a93cae41f3262"
    );
    assert_eq!(hash, *blake3::hash(b"abc").as_bytes());
}

#[test]
fn where_a_file_is_cut_makes_no_difference() {
    let whole = hash_of(&[b"hello world"], None);
    assert_eq!(whole, hash_of(&[b"hello", b"", b" world"], None));
    assert_eq!(
        hash_of(&[b"hel", b"lo wo", b"rld"], Some(6)),
        hash_of(&[b"hello "], None)
    );
    assert_eq!(hash_of(&[b"hi"], Some(6)).1, 2);
    assert_eq!(hash_of(&[b"hi"], Some(0)), hash_of(&[], None));
}

#[test]
fn a_bounded_hash_stops_asking() {
    let mut hasher = ContentHasher::prefix(4);
    assert!(hasher.wants_more());
    hasher.feed(b"abc");
    assert!(hasher.wants_more());
    hasher.feed(b"def");
    assert!(!hasher.wants_more());
    assert!(ContentHasher::whole().wants_more());
}

#[test]
fn paths_take_apart_into_names() {
    let p = path("/home/me/a.tar.gz");
    assert_eq!(p.file_name(), Some(b"a.tar.gz".to_vec()));
    assert_eq!(p.extension(), Some("gz".to_string()));
    assert_eq!(p.parent(), Some(path("/home/me")));
    assert_eq!(p.top(), path("/"));
    assert_eq!(path("/").parent(), None);
    assert_eq!(path("/").file_name(), None);
    assert_eq!(path("a/..").file_name(), None);
    assert_eq!(path("a").parent(), Some(path("")));
    assert_eq!(path(".bashrc").extension(), None);
    assert_eq!(path("a.").extension(), Some(String::new()));
}

#[test]
fn paths_join_and_nest_by_components() {
    assert_eq!(path("/a").join(&path("b")).display(), "/a/b");
    assert_eq!(path("/a/").join(&path("b")).display(), "/a/b");
    assert_eq!(path("/a").join(&path("/b")).display(), "/b");
    assert!(path("/a/b").starts_with(&path("/a")));
    assert!(!path("/ab").starts_with(&path("/a")));
    assert_eq!(path("//a/./b/"), path("/a/b"));
    assert_ne!(path("./a"), path("a"));
    assert_eq!(
        path("/a/b/c").strip_prefix(&path("/a")).unwrap(),
        path("b/c")
    );
    assert!(path("/a").strip_prefix(&path("/b")).is_none());
}

#[test]
fn path_order_goes_by_components() {
    let order = |a: &str, b: &str| path(a).sort_key() < path(b).sort_key();
    // As bytes, "-" comes before "/".
    assert!(order("a/b", "a-b"));
    assert!(order("a", "a/b"));
    assert!(!order("b", "a/z"));
    assert_eq!(path("a//b").sort_key(), path("a/b/").sort_key());
}

#[test]
fn names_that_are_not_text_are_shown_with_marks() {
    let odd = FilePath::from_bytes(vec![b'a', 0xff, b'b']);
    assert_eq!(odd.display(), "a\u{fffd}b");
    assert_eq!(path("/tmp/é.txt").name_text(), "é.txt");
}

#[test]
fn numbers_and_columns() {
    assert_eq!(decimal_of(0), "0");
    assert_eq!(decimal_of(1_234_567), "1234567");
    assert_eq!(pad_left("7", 3, '0'), "007");
    assert_eq!(pad_right("ab", 4, ' '), "ab  ");
    assert_eq!(pad_right("abcde", 4, ' '), "abcde");
    assert_eq!(trim("\u{2003} a b\t"), "a b");
    let (lower, upper) = ("x".to_string(), "X".to_string());
    assert!(same_text(&lower, &lower) && !same_text(&lower, &upper));
    assert_eq!(trim_leading("..a.", '.'), "a.");
    let mut bytes = [0x9fu8; 32];
    bytes[0] = 0x00;
    assert_eq!(hex_text(&bytes, 3), "009f9f");
}

#[test]
fn a_selection_is_a_set_of_hashes() {
    let mut s = Selection::new();
    assert!(s.is_empty());
    s.insert([2; 32]);
    s.insert([1; 32]);
    s.insert([2; 32]);
    assert_eq!(s.len(), 2);
    assert!(s.contains(&[1; 32]) && !s.contains(&[3; 32]));
    assert!(s.remove(&[1; 32]));
    assert!(!s.remove(&[1; 32]));
    assert_eq!(s.len(), 1);
    s.clear();
    assert!(s.is_empty());
}

#[test]
fn raw_paths_are_standard_base64() {
    let doc = build_document(
        &path("/a/b?c"),
        &ScanOptions::default(),
        Duration::zero(),
        &Vec::new(),
        &Selection::new(),
        0,
    );
    let dupefind::export::RawPath::UnixBytesBase64(raw) = &doc.scan_root.raw;
    assert_eq!(raw, "L2EvYj9j");
}

#[test]
fn going_up_from_parent_to_parent_ends_at_the_top() {
    for text in ["/", "//", "/.", "//./", "/a", "//a/b", "/./a", "a/b", "./a", ".", ""] {
        let mut last = path(text);
        while let Some(parent) = last.parent() {
            last = parent;
        }
        assert_eq!(path(text).top().display(), last.display(), "{text:?}");
    }
    // What names only the root keeps its spelling.
    assert_eq!(path("//").top().display(), "//");
    assert_eq!(path("/.").top().display(), "/.");
    assert_eq!(path("//a").top().display(), "/");
    assert_eq!(path("a").top().display(), "");
}

#[test]
fn a_parent_is_the_path_without_its_last_component() {
    assert_eq!(path("/a//b/./").parent().unwrap().display(), "/a");
    assert_eq!(path("./a/b").parent().unwrap().display(), "./a");
    assert_eq!(path("//a").parent().unwrap().display(), "/");
}

#[test]
fn white_space_is_what_unicode_says() {
    let listed = |n: u32| {
        (0x9..=0xD).contains(&n)
            || [0x20, 0x85, 0xA0, 0x1680, 0x2028, 0x2029, 0x202F, 0x205F, 0x3000].contains(&n)
            || (0x2000..=0x200A).contains(&n)
    };
    for n in 0..=0x10FFFF {
        if let Some(c) = char::from_u32(n) {
            let trimmed = trim(c.to_string().as_str());
            assert_eq!(trimmed.is_empty(), listed(n), "U+{n:04X}");
        }
    }
}

#[test]
fn only_the_start_counts_for_a_head() {
    assert_eq!(
        hash_of(&[b"same start, one end"], Some(10)),
        hash_of(&[b"same start and another"], Some(10))
    );
    assert_ne!(
        hash_of(&[b"same start, one end"], Some(11)),
        hash_of(&[b"same start and another"], Some(11))
    );
}
