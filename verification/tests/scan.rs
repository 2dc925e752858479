use std::collections::BTreeSet;

use dupefind::cache::{CacheLoad, CachedHashes, HashCache};
use dupefind::hashing::{ContentHasher, HEAD_HASH_BYTES};
use dupefind::model::{DupeGroup, Phase, ScanMsg, ScanOptions, ScanState};
use dupefind::path::FilePath;
use dupefind::scan::{
    collapse_hardlinks, contents_from_cache, finalize, finish_contents, finish_heads, finish_walk,
    head_from_cache, is_reparse_point, note_checked, note_contents, note_head, remember_hashes,
    scan_result, visit, walk_roots, Candidate, FullyHashed, WalkItem,
};
use dupefind::time::{Duration, FileTime};
use ignore::gitignore::{Gitignore, GitignoreBuilder};

fn path(text: &str) -> FilePath {
    FilePath::from_text(text)
}

/// A name for some contents; two names may lead to the same file.
struct Node {
    name: String,
    content: Vec<u8>,
    inode: u64,
}

/// A tree of files that exists only here.
struct Tree {
    root: String,
    nodes: Vec<Node>,
    ignored: Gitignore,
    unreadable: Vec<String>,
    reads: u64,
}

impl Tree {
    fn new(root: &str) -> Tree {
        Tree {
            root: root.to_string(),
            nodes: Vec::new(),
            ignored: Gitignore::empty(),
            unreadable: Vec::new(),
            reads: 0,
        }
    }

    fn write(&mut self, name: &str, content: &[u8]) {
        let inode = self.nodes.len() as u64;
        self.nodes.push(Node {
            name: format!("{}/{name}", self.root),
            content: content.to_vec(),
            inode,
        });
    }

    fn hard_link(&mut self, from: &str, to: &str) {
        let from = format!("{}/{from}", self.root);
        let (content, inode) = {
            let node = self.nodes.iter().find(|n| n.name == from).unwrap();
            (node.content.clone(), node.inode)
        };
        self.nodes.push(Node {
            name: format!("{}/{to}", self.root),
            content,
            inode,
        });
    }

    fn ignore(&mut self, line: &str) {
        let mut builder = GitignoreBuilder::new(&self.root);
        builder.add_line(None, line).unwrap();
        self.ignored = builder.build().unwrap();
    }

    fn walk(&self, options: &ScanOptions) -> Vec<WalkItem> {
        let mut items = vec![WalkItem::Directory(path(&self.root))];
        for node in &self.nodes {
            let below = &node.name[self.root.len() + 1..];
            if options.skip_hidden && below.split('/').any(|part| part.starts_with('.')) {
                continue;
            }
            let ignored = self
                .ignored
                .matched_path_or_any_parents(&node.name, false)
                .is_ignore();
            if options.respect_gitignore && ignored {
                continue;
            }
            items.push(WalkItem::File {
                path: path(&node.name),
                size: node.content.len() as u64,
                modified: Some(FileTime::from_secs(1_000)),
            });
        }
        items
    }

    fn read(&mut self, at: &FilePath, limit: Option<u64>) -> Result<([u8; 32], u64), String> {
        let name = at.display();
        if self.unreadable.contains(&name) {
            return Err("permission denied".to_string());
        }
        self.reads += 1;
        let mut hasher = match limit {
            Some(limit) => ContentHasher::prefix(limit),
            None => ContentHasher::whole(),
        };
        let node = self.nodes.iter().find(|n| n.name == name).unwrap();
        for chunk in node.content.chunks(1_000) {
            if hasher.wants_more() {
                hasher.feed(chunk);
            }
        }
        Ok(hasher.finish())
    }

    fn inode(&self, at: &FilePath) -> Option<u64> {
        let name = at.display();
        self.nodes.iter().find(|n| n.name == name).map(|n| n.inode)
    }
}

/// Run a scan to its end and return everything it reported.
fn run(
    tree: &mut Tree,
    options: &ScanOptions,
    state: &mut ScanState,
    cache: &mut HashCache,
) -> Vec<ScanMsg> {
    let at = Duration::zero();
    let now = 50;
    let mut sent = vec![ScanMsg::Phase(Phase::Walking)];
    let mut found: Vec<Candidate> = Vec::new();
    for item in tree.walk(options) {
        if state.is_cancelled() {
            sent.push(ScanMsg::Cancelled);
            return sent;
        }
        sent.extend(visit(options, state, &mut found, item));
    }

    sent.push(ScanMsg::Phase(Phase::Pruning));
    let Some((large, small)) = finish_walk(found, options, cache, state, at, now) else {
        sent.push(ScanMsg::Cancelled);
        return sent;
    };

    sent.push(ScanMsg::Phase(Phase::HeadHashing));
    let mut heads = Vec::new();
    for candidate in large {
        let read = match head_from_cache(state, &candidate) {
            Some(hash) => {
                heads.push(dupefind::scan::Hashed { candidate, hash });
                continue;
            }
            None => tree.read(&candidate.path, Some(HEAD_HASH_BYTES)),
        };
        let (hashed, report) = note_head(state, candidate, read);
        heads.extend(hashed);
        sent.extend(report);
    }
    let Some(candidates) = finish_heads(heads, small, state) else {
        sent.push(ScanMsg::Cancelled);
        return sent;
    };

    sent.push(ScanMsg::Phase(Phase::FullHashing));
    let mut hashed = Vec::new();
    for candidate in candidates {
        if let Some(hashes) = contents_from_cache(state, &candidate) {
            hashed.push(FullyHashed { candidate, hashes });
            continue;
        }
        let read = tree
            .read(&candidate.path, None)
            .and_then(|(full, count)| {
                let (prefix, _) = tree.read(&candidate.path, Some(HEAD_HASH_BYTES))?;
                Ok((CachedHashes { prefix, full }, count))
            });
        let (one, report) = note_contents(state, candidate, read);
        hashed.extend(one);
        sent.extend(report);
    }
    remember_hashes(cache, &hashed, now);
    let Some(buckets) = finish_contents(hashed, state, at) else {
        sent.push(ScanMsg::Cancelled);
        return sent;
    };

    sent.push(ScanMsg::Phase(Phase::Finalizing));
    let mut ids: Vec<Vec<Option<u64>>> = Vec::new();
    for bucket in &buckets {
        let mut row = Vec::new();
        for file in bucket {
            row.push(tree.inode(&file.candidate.path));
            note_checked(state);
        }
        ids.push(row);
    }
    let groups = finalize(buckets, &ids, options);
    sent.push(scan_result(groups, state));
    sent
}

fn scan_sync(tree: &mut Tree, options: ScanOptions) -> Vec<DupeGroup> {
    let mut state = ScanState::default();
    let sent = run(tree, &options, &mut state, &mut HashCache::disabled(0));
    assert_eq!(state.files_checked, state.files_to_check);
    for msg in sent {
        if let ScanMsg::Done(groups) = msg {
            return groups;
        }
    }
    panic!("the scan did not finish");
}

/// Each group rendered as its sorted set of file names, for order-independent
/// comparison.
fn group_names(groups: &[DupeGroup]) -> BTreeSet<BTreeSet<String>> {
    groups
        .iter()
        .map(|g| g.files.iter().map(|f| f.file_name()).collect())
        .collect()
}

fn names(list: &[&str]) -> BTreeSet<String> {
    list.iter().map(|s| s.to_string()).collect()
}

/// A tree with a deliberately known answer, covering every filter and both
/// hashing phases.
fn fixture() -> Tree {
    let mut tree = Tree::new("/tree");

    // Three copies of the same content in different directories.
    let dup = b"the quick brown fox jumps over the lazy dog, repeatedly";
    tree.write("a/one.txt", dup);
    tree.write("b/one_copy.txt", dup);
    tree.write("c/deep/three.txt", dup);

    // Unique content: must never appear in a group.
    tree.write("a/unique.txt", b"nothing else looks like this");

    // Same size, different content: must not be grouped.
    tree.write("samesize1.bin", &[0x01u8; 32]);
    tree.write("samesize2.bin", &[0x02u8; 32]);

    // Empty files: identical to each other, excluded by default.
    tree.write("empty1.txt", b"");
    tree.write("empty2.txt", b"");

    // Hidden copy of the duplicate content, excluded by default.
    tree.write(".hidden_dup.txt", dup);

    // Gitignored copy of the duplicate content, excluded by default.
    tree.write(".gitignore", b"ignored/\n");
    tree.ignore("ignored/");
    tree.write("ignored/dup.txt", dup);

    // Large identical pair: exercises the head-hash phase and survives it.
    let big = vec![0xABu8; 80 * 1024];
    tree.write("big1.bin", &big);
    tree.write("big2.bin", &big);

    // Same size and same first 16 KiB, differing only in the final byte.
    // The head-hash phase cannot separate these; the full hash must.
    let mut head_a = vec![0xCDu8; 80 * 1024];
    let mut head_b = head_a.clone();
    *head_a.last_mut().unwrap() = 0x01;
    *head_b.last_mut().unwrap() = 0x02;
    tree.write("bighead1.bin", &head_a);
    tree.write("bighead2.bin", &head_b);

    tree
}

#[test]
fn finds_exactly_the_planted_duplicates() {
    let groups = scan_sync(&mut fixture(), ScanOptions::default());

    let expected: BTreeSet<BTreeSet<String>> = [
        names(&["one.txt", "one_copy.txt", "three.txt"]),
        names(&["big1.bin", "big2.bin"]),
    ]
    .into_iter()
    .collect();

    assert_eq!(group_names(&groups), expected);
}

#[test]
fn files_sharing_a_head_but_not_a_tail_are_not_duplicates() {
    for head_hash_min in [0, 64 * 1024, 1024 * 1024] {
        let options = ScanOptions {
            head_hash_min,
            ..Default::default()
        };
        let groups = scan_sync(&mut fixture(), options);
        for group in &groups {
            for file in &group.files {
                assert!(
                    !file.file_name().starts_with("bighead"),
                    "bighead files differ in their last byte and must not be grouped"
                );
            }
        }
    }
}

#[test]
fn same_size_different_content_is_not_grouped() {
    let groups = scan_sync(&mut fixture(), ScanOptions::default());
    for group in &groups {
        for file in &group.files {
            assert!(!file.file_name().starts_with("samesize"));
        }
    }
}

#[test]
fn hidden_files_are_included_on_request() {
    let options = ScanOptions {
        skip_hidden: false,
        ..Default::default()
    };
    let groups = scan_sync(&mut fixture(), options);
    let dup_group = groups
        .iter()
        .find(|g| g.files.iter().any(|f| f.file_name() == "one.txt"))
        .expect("the duplicate group should still be found");
    assert!(
        dup_group
            .files
            .iter()
            .any(|f| f.file_name() == ".hidden_dup.txt"),
        "the hidden copy should join the group once hidden files are included"
    );
}

#[test]
fn gitignored_files_are_included_on_request() {
    let options = ScanOptions {
        respect_gitignore: false,
        ..Default::default()
    };
    let groups = scan_sync(&mut fixture(), options);
    let dup_group = groups
        .iter()
        .find(|g| g.files.iter().any(|f| f.file_name() == "one.txt"))
        .expect("the duplicate group should still be found");
    assert!(
        dup_group.files.iter().any(|f| f.file_name() == "dup.txt"),
        "the gitignored copy should join the group once .gitignore is off"
    );
}

#[test]
fn empty_files_group_only_when_included() {
    let options = ScanOptions {
        skip_empty: false,
        ..Default::default()
    };
    let groups = scan_sync(&mut fixture(), options);
    assert!(
        groups.iter().any(|g| g.size == 0 && g.files.len() == 2),
        "the two empty files should form a zero-byte group"
    );
}

#[test]
fn min_size_excludes_small_duplicates() {
    let options = ScanOptions {
        min_size: 64 * 1024,
        ..Default::default()
    };
    let groups = scan_sync(&mut fixture(), options);
    assert_eq!(
        group_names(&groups),
        [names(&["big1.bin", "big2.bin"])].into_iter().collect(),
    );
}

#[test]
fn groups_are_sorted_by_wasted_space() {
    let groups = scan_sync(&mut fixture(), ScanOptions::default());
    let wasted: Vec<u64> = groups.iter().map(DupeGroup::wasted).collect();
    let mut sorted = wasted.clone();
    sorted.sort_unstable_by(|a, b| b.cmp(a));
    assert_eq!(wasted, sorted, "most wasteful group should come first");
}

#[test]
fn an_empty_tree_yields_no_groups() {
    assert!(scan_sync(&mut Tree::new("/tree"), ScanOptions::default()).is_empty());
}

#[test]
fn hardlinks_collapse_to_one_entry() {
    let mut tree = Tree::new("/tree");
    tree.write("original.bin", b"content reachable under two names");
    tree.hard_link("original.bin", "linked.bin");

    // With collapsing on, two names for one inode are not a duplicate pair.
    let groups = scan_sync(&mut tree, ScanOptions::default());
    assert!(
        groups.is_empty(),
        "a hardlink pair frees nothing and must not be reported: {:?}",
        group_names(&groups)
    );

    // With collapsing off, they are reported.
    let options = ScanOptions {
        collapse_hardlinks: false,
        ..Default::default()
    };
    let groups = scan_sync(&mut tree, options);
    assert_eq!(
        group_names(&groups),
        [names(&["linked.bin", "original.bin"])]
            .into_iter()
            .collect()
    );
}

#[test]
fn a_real_duplicate_survives_alongside_a_hardlink() {
    let mut tree = Tree::new("/tree");
    let content = b"three names, two inodes";
    tree.write("a.bin", content);
    tree.hard_link("a.bin", "a_link.bin");
    // A separate inode with the same bytes: a genuine duplicate.
    tree.write("b.bin", content);

    let groups = scan_sync(&mut tree, ScanOptions::default());
    assert_eq!(groups.len(), 1);
    assert_eq!(
        groups[0].files.len(),
        2,
        "the hardlink should collapse but the real copy must remain"
    );
}

#[test]
fn cancellation_stops_the_scan() {
    let mut state = ScanState::default();
    state.request_cancel();
    let sent = run(
        &mut fixture(),
        &ScanOptions::default(),
        &mut state,
        &mut HashCache::disabled(0),
    );
    let cancelled = sent.iter().any(|m| matches!(m, ScanMsg::Cancelled));
    assert!(cancelled, "a pre-cancelled scan should report Cancelled");
}

#[test]
fn the_walk_counts_what_it_meets() {
    let options = ScanOptions {
        min_size: 10,
        exclude_exts: vec!["tmp".to_string()],
        reference_roots: vec![path("/ref")],
        ..Default::default()
    };
    let mut state = ScanState::default();
    let mut found: Vec<Candidate> = Vec::new();
    let file = |name: &str, size: u64| WalkItem::File {
        path: path(name),
        size,
        modified: None,
    };
    let reports: Vec<bool> = [
        WalkItem::Directory(path("/d")),
        WalkItem::Special,
        WalkItem::ReparsePoint,
        file("/d/large", 10),
        file("/d/small", 9),
        file("/d/odd.TMP", 10),
        file("/ref/kept", 10),
        WalkItem::Unreadable("loop".to_string()),
        WalkItem::NoMetadata(path("/d/gone"), "gone".to_string()),
    ]
    .into_iter()
    .map(|item| visit(&options, &mut state, &mut found, item).is_some())
    .collect();
    assert_eq!(
        reports,
        vec![false, false, false, false, false, false, false, true, true]
    );
    assert_eq!((state.dirs_seen, state.files_seen), (1, 4));
    assert_eq!((state.files_skipped, state.errors), (4, 2));
    assert_eq!(state.bytes_seen, 39);
    assert_eq!(state.current_path(), "/d");
    let kept: Vec<(String, bool)> = found
        .iter()
        .map(|c| (c.path.display(), c.protected))
        .collect();
    assert_eq!(
        kept,
        vec![("/d/large".to_string(), false), ("/ref/kept".to_string(), true)]
    );
}

#[test]
fn a_file_that_cannot_be_read_is_reported_and_left_out() {
    let mut tree = Tree::new("/tree");
    for name in ["a", "b", "c"] {
        tree.write(name, b"same bytes");
    }
    tree.unreadable.push("/tree/b".to_string());
    let mut state = ScanState::default();
    let sent = run(
        &mut tree,
        &ScanOptions::default(),
        &mut state,
        &mut HashCache::disabled(0),
    );
    let problems: Vec<String> = sent
        .iter()
        .filter_map(|m| match m {
            ScanMsg::Error(e) => Some(e.display()),
            _ => None,
        })
        .collect();
    assert_eq!(problems, vec!["/tree/b: permission denied"]);
    assert_eq!((state.errors, state.files_hashed), (1, 3));
    let Some(ScanMsg::Done(groups)) = sent.last() else {
        panic!("no result");
    };
    assert_eq!(
        group_names(groups),
        [names(&["a", "c"])].into_iter().collect()
    );
}

#[test]
fn a_second_scan_reads_nothing_that_is_cached() {
    let options = ScanOptions {
        head_hash_min: 64 * 1024,
        ..Default::default()
    };
    let (mut cache, _) = HashCache::open_at(path("/cache"), 0, CacheLoad::Missing);
    let mut tree = fixture();
    let first = run(&mut tree, &options, &mut ScanState::default(), &mut cache);
    let reads = tree.reads;
    assert!(reads > 0);
    assert!(cache.prepare_save(50), "new hashes have to be written back");
    cache.saved();
    let mut state = ScanState::default();
    let second = run(&mut tree, &options, &mut state, &mut cache);
    assert_eq!(tree.reads, reads, "every candidate was known");
    assert_eq!(state.cache_hits, 9);
    assert!(cache.prepare_save(50), "renewed records have to be written back");
    assert_eq!(state.bytes_hashed, 0);
    match (first.last(), second.last()) {
        (Some(ScanMsg::Done(a)), Some(ScanMsg::Done(b))) => {
            assert_eq!(group_names(a), group_names(b));
        }
        _ => panic!("a scan did not finish"),
    }
}

#[test]
fn files_of_a_group_are_listed_by_path_and_references_are_kept() {
    let mut tree = Tree::new("/tree");
    for name in ["z", "a", "m/n"] {
        tree.write(name, b"same bytes");
    }
    let options = ScanOptions {
        reference_roots: vec![path("/tree/m")],
        ..Default::default()
    };
    let groups = scan_sync(&mut tree, options);
    let listed: Vec<(String, bool)> = groups[0]
        .files
        .iter()
        .map(|f| (f.path.display(), f.keep))
        .collect();
    assert_eq!(
        listed,
        vec![
            ("/tree/a".to_string(), true),
            ("/tree/m/n".to_string(), true),
            ("/tree/z".to_string(), false)
        ],
        "the first copy is kept, and every protected one"
    );
}

#[test]
fn references_outside_the_tree_are_walked_once() {
    let options = ScanOptions {
        reference_roots: vec![
            path("/ref/sub"),
            path("/root/in"),
            path("/ref"),
            path("/ref/"),
            path("/other"),
        ],
        ..Default::default()
    };
    let roots: Vec<String> = walk_roots(&path("/root"), &options)
        .iter()
        .map(|p| p.display())
        .collect();
    assert_eq!(roots, vec!["/root", "/ref", "/other"]);
}

#[test]
fn files_that_cannot_be_identified_are_kept() {
    let file = |name: &str| FullyHashed {
        candidate: Candidate {
            path: path(name),
            size: 1,
            modified: None,
            protected: false,
            cached: None,
        },
        hashes: CachedHashes {
            prefix: [0; 32],
            full: [0; 32],
        },
    };
    let kept = collapse_hardlinks(
        vec![file("a"), file("b"), file("c"), file("d"), file("e")],
        &vec![Some(7), None, Some(7), None, Some(8)],
    );
    let left: Vec<String> = kept.iter().map(|f| f.candidate.path.display()).collect();
    assert_eq!(left, vec!["a", "b", "d", "e"]);
}

#[test]
fn reparse_points_are_read_from_the_attributes() {
    assert!(is_reparse_point(0x400 | 0x10));
    assert!(!is_reparse_point(0x10));
}

#[test]
fn a_hardlink_elsewhere_does_not_part_two_duplicates() {
    let mut tree = Tree::new("/tree");
    tree.write("a.bin", b"first contents");
    tree.write("b.bin", b"first contents");
    tree.hard_link("b.bin", "z.bin");
    tree.write("c.bin", b"other contents");
    tree.hard_link("c.bin", "d.bin");
    tree.write("e.bin", b"other contents");

    let groups = scan_sync(&mut tree, ScanOptions::default());
    assert_eq!(
        group_names(&groups),
        [names(&["a.bin", "b.bin"]), names(&["c.bin", "e.bin"])]
            .into_iter()
            .collect()
    );
}

#[test]
fn no_path_is_listed_twice() {
    for collapse_hardlinks in [true, false] {
        let options = ScanOptions {
            collapse_hardlinks,
            skip_hidden: false,
            respect_gitignore: false,
            skip_empty: false,
            ..Default::default()
        };
        let groups = scan_sync(&mut fixture(), options);
        let listed: Vec<String> = groups
            .iter()
            .flat_map(|g| g.files.iter().map(|f| f.path.display()))
            .collect();
        let different: BTreeSet<&String> = listed.iter().collect();
        assert!(listed.len() > 2);
        assert_eq!(different.len(), listed.len());
    }
}
