use clap::{Arg, ArgAction, Command};
use dupefind::cli::Args;
use dupefind::delete::DeleteMode;
use dupefind::model::{ScanOptions, DEFAULT_CACHE_MIN_SIZE, DEFAULT_HEAD_HASH_MIN};
use dupefind::path::FilePath;

fn flag(name: &'static str) -> Arg {
    Arg::new(name).long(name).action(ArgAction::SetTrue)
}

fn command() -> Command {
    let mut command = Command::new("dupefind").arg(Arg::new("directory"));
    for name in [
        "permanent",
        "hidden",
        "no-gitignore",
        "include-empty",
        "no-collapse-hardlinks",
        "one-file-system",
        "follow-links",
        "cache",
        "clear-cache",
    ] {
        command = command.arg(flag(name));
    }
    for name in ["min-size", "head-hash-min", "cache-min-size", "export-dir"] {
        command = command.arg(Arg::new(name).long(name));
    }
    command
        .arg(
            Arg::new("reference")
                .long("reference")
                .action(ArgAction::Append),
        )
        .arg(
            Arg::new("exclude-ext")
                .long("exclude-ext")
                .action(ArgAction::Append)
                .value_delimiter(','),
        )
}

fn parse(args: &[&str]) -> Args {
    let mut argv = vec!["dupefind"];
    argv.extend_from_slice(args);
    let found = command().get_matches_from(argv);
    let number = |name: &str, default: u64| {
        found
            .get_one::<String>(name)
            .map(|text| text.parse().unwrap())
            .unwrap_or(default)
    };
    let path = |name: &str| {
        found
            .get_one::<String>(name)
            .map(|text| FilePath::from_text(text))
    };
    let many = |name: &str| -> Vec<String> {
        found
            .get_many::<String>(name)
            .map(|all| all.cloned().collect())
            .unwrap_or_default()
    };
    Args {
        directory: path("directory"),
        permanent: found.get_flag("permanent"),
        hidden: found.get_flag("hidden"),
        no_gitignore: found.get_flag("no-gitignore"),
        include_empty: found.get_flag("include-empty"),
        no_collapse_hardlinks: found.get_flag("no-collapse-hardlinks"),
        one_file_system: found.get_flag("one-file-system"),
        follow_links: found.get_flag("follow-links"),
        min_size: number("min-size", 0),
        head_hash_min: number("head-hash-min", DEFAULT_HEAD_HASH_MIN),
        cache: found.get_flag("cache"),
        cache_min_size: number("cache-min-size", DEFAULT_CACHE_MIN_SIZE),
        clear_cache: found.get_flag("clear-cache"),
        reference: many("reference")
            .iter()
            .map(|text| FilePath::from_text(text))
            .collect(),
        export_dir: path("export-dir"),
        exclude_ext: many("exclude-ext"),
    }
}

fn opts(args: &[&str]) -> ScanOptions {
    parse(args).scan_options()
}

#[test]
fn no_exclusions_by_default() {
    assert!(opts(&[]).exclude_exts.is_empty());
}

#[test]
fn a_single_extension_is_accepted() {
    assert_eq!(opts(&["--exclude-ext", "dll"]).exclude_exts, vec!["dll"]);
}

#[test]
fn the_flag_repeats_and_also_splits_on_commas() {
    let repeated = opts(&["--exclude-ext", "dll", "--exclude-ext", "exe"]);
    let joined = opts(&["--exclude-ext", "dll,exe"]);
    assert_eq!(repeated.exclude_exts, vec!["dll", "exe"]);
    assert_eq!(repeated.exclude_exts, joined.exclude_exts);
}

#[test]
fn a_leading_dot_and_case_are_forgiven() {
    // ".DLL", "DLL" and "dll" all mean the same thing to a user.
    for spelling in [".DLL", "DLL", "dll", " .dll "] {
        assert_eq!(
            opts(&["--exclude-ext", spelling]).exclude_exts,
            vec!["dll"],
            "for {spelling:?}"
        );
    }
}

#[test]
fn empty_entries_are_dropped() {
    // A trailing comma should not produce an extension that matches nothing.
    assert_eq!(opts(&["--exclude-ext", "dll,"]).exclude_exts, vec!["dll"]);
}

#[test]
fn min_size_and_exclusions_are_independent() {
    let o = opts(&["--min-size", "1024", "--exclude-ext", "dll"]);
    assert_eq!(o.min_size, 1024);
    assert_eq!(o.exclude_exts, vec!["dll"]);
}

#[test]
fn cache_and_reference_flags_reach_scan_options() {
    let o = opts(&[
        "--cache",
        "--cache-min-size",
        "4096",
        "--reference",
        "archive",
        "--reference",
        "backup",
    ]);
    assert!(o.use_cache);
    assert_eq!(o.cache_min_size, 4096);
    assert_eq!(
        o.reference_roots,
        vec![FilePath::from_text("archive"), FilePath::from_text("backup")]
    );
}

#[test]
fn every_flag_reaches_the_options() {
    let o = opts(&[
        "--hidden",
        "--no-gitignore",
        "--include-empty",
        "--no-collapse-hardlinks",
        "--one-file-system",
        "--follow-links",
        "--head-hash-min",
        "7",
    ]);
    assert!(!o.skip_hidden && !o.respect_gitignore && !o.skip_empty);
    assert!(!o.collapse_hardlinks && o.same_file_system && o.follow_links);
    assert_eq!(o.head_hash_min, 7);
    let o = opts(&[]);
    assert!(o.skip_hidden && o.respect_gitignore && o.skip_empty && o.collapse_hardlinks);
    assert_eq!(o.head_hash_min, DEFAULT_HEAD_HASH_MIN);
}

#[test]
fn permanent_deletion_has_to_be_asked_for() {
    assert_eq!(parse(&[]).delete_mode(), DeleteMode::Trash);
    assert_eq!(parse(&["--permanent"]).delete_mode(), DeleteMode::Permanent);
}

#[test]
fn spellings_of_an_extension_exclude_the_same_files() {
    for given in ["dll", ".DLL", "..dLl", " .Dll "] {
        let options = opts(&["--exclude-ext", given]);
        for name in ["/d/a.dll", "/d/a.DLL", "/d/a.b.Dll"] {
            assert!(options.excluded_by_extension(&FilePath::from_text(name)), "{given:?} {name}");
        }
        for name in ["/d/dll", "/d/.dll", "/d/a.dl", "/d/a.", "/d/a.dll/b"] {
            assert!(!options.excluded_by_extension(&FilePath::from_text(name)), "{given:?} {name}");
        }
    }
    // Letters beyond ASCII have a lower case too.
    let options = opts(&["--exclude-ext", "ÉTÉ"]);
    assert_eq!(options.exclude_exts, vec!["été"]);
    assert!(options.excluded_by_extension(&FilePath::from_text("/d/a.Été")));
}
