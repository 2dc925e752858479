//! Command line surface. Every filter here is also toggleable on screen; the
//! flags exist so a repeat scan of a known tree can skip the browser. Parsing
//! the command line itself is done outside.

use crate::delete::DeleteMode;
use crate::model::ScanOptions;
use crate::path::{copied_paths, extension_of, paths_in, FilePath};
use crate::text::{
    all_ascii, ascii_lower, lower_case, only_leading_ones_are_taken_off, texts, trim,
    trim_leading, trimmed, trimmed_step, trimming_takes_off_white_space, white_space,
    without_leading,
};
use vstd::prelude::*;
use vstd::utf8::{decode_utf8, valid_utf8};

verus! {

/// What was given on the command line.
#[derive(Debug)]
pub struct Args {
    /// Directory to scan. Omit to open the directory browser instead.
    pub directory: Option<FilePath>,
    /// Delete permanently instead of moving to the Recycle Bin / Trash.
    pub permanent: bool,
    /// Include hidden files and directories.
    pub hidden: bool,
    /// Do not honour .gitignore / .ignore files.
    pub no_gitignore: bool,
    /// Include empty (0-byte) files, which are all identical to each other.
    pub include_empty: bool,
    /// Report hardlinks to the same file as duplicates of each other.
    pub no_collapse_hardlinks: bool,
    /// Do not descend into other mounted filesystems.
    pub one_file_system: bool,
    /// Follow symbolic links while walking.
    pub follow_links: bool,
    /// Ignore files smaller than this many bytes.
    pub min_size: u64,
    /// Only head hash files larger than this many bytes.
    pub head_hash_min: u64,
    /// Reuse cached hashes when path, size and modification time match.
    pub cache: bool,
    /// Only cache files at least this large.
    pub cache_min_size: u64,
    /// Remove the persistent hash cache and exit.
    pub clear_cache: bool,
    /// Protected directories that take part in matching but never in deletion.
    pub reference: Vec<FilePath>,
    /// Existing directory that receives on-demand exports.
    pub export_dir: Option<FilePath>,
    /// Extensions to leave out, as they were typed.
    pub exclude_ext: Vec<String>,
}

/// One extension as it is matched: lower-case, without blanks around it and
/// without leading dots.
pub open spec fn normalised(ext: Seq<char>) -> Seq<char> {
    lower_case(without_leading(trimmed(ext), '.'))
}

/// All extensions as they are matched; those that come to nothing are dropped.
pub open spec fn all_normalised(exts: Seq<Seq<char>>) -> Seq<Seq<char>>
    decreases exts.len(),
{
    if exts.len() == 0 {
        Seq::empty()
    } else {
        let rest = all_normalised(exts.drop_last());
        if normalised(exts.last()).len() > 0 {
            rest.push(normalised(exts.last()))
        } else {
            rest
        }
    }
}

/// Lower-case, strip any leading dot, and drop blanks, so `.DLL` and `dll`
/// behave the same.
pub fn normalise_exts(raw: &Vec<String>) -> (out: Vec<String>)
    ensures
        texts(out@) == all_normalised(texts(raw@)),
{
    let mut out: Vec<String> = Vec::new();
    let ghost all = texts(raw@);
    let mut i: usize = 0;
    while i < raw.len()
        invariant
            all == texts(raw@),
            i <= raw@.len(),
            texts(out@) =~= all_normalised(all.take(i as int)),
        decreases raw@.len() - i,
    {
        assert(all.take(i + 1).drop_last() =~= all.take(i as int));
        let bare = trim_leading(trim(raw[i].as_str()).as_str(), '.');
        let ext = bare.as_str().to_lowercase();
        if !ext.as_str().is_empty() {
            let ghost before = texts(out@);
            out.push(ext);
            assert(texts(out@) =~= before.push(ext@));
        }
        i += 1;
    }
    assert(all.take(i as int) =~= all);
    out
}

/// Nothing that is matched against is empty.
pub proof fn normalised_exts_are_not_empty(exts: Seq<Seq<char>>)
    ensures
        forall|i: int|
            0 <= i < all_normalised(exts).len() ==> (#[trigger] all_normalised(exts)[i]).len() > 0,
    decreases exts.len(),
{
    if exts.len() > 0 {
        let rest = all_normalised(exts.drop_last());
        let all = all_normalised(exts);
        normalised_exts_are_not_empty(exts.drop_last());
        assert forall|i: int| 0 <= i < all.len() implies (#[trigger] all[i]).len() > 0 by {
            if i < rest.len() {
                assert(all[i] == rest[i]);
            }
        }
    }
}

/// A list of extensions holds a text exactly where that is not empty and one of the
/// given extensions comes to it.
proof fn normal_forms_are_listed(exts: Seq<Seq<char>>, text: Seq<char>)
    ensures
        all_normalised(exts).contains(text) <==> text.len() > 0 && exists|i: int|
            0 <= i < exts.len() && normalised(#[trigger] exts[i]) == text,
    decreases exts.len(),
{
    if exts.len() > 0 {
        let front = exts.drop_last();
        let rest = all_normalised(front);
        let all = all_normalised(exts);
        normal_forms_are_listed(front, text);
        if all.contains(text) {
            let x = choose|x: int| 0 <= x < all.len() && all[x] == text;
            if x < rest.len() {
                assert(rest[x] == text);
                let i = choose|i: int|
                    0 <= i < front.len() && normalised(#[trigger] front[i]) == text;
                assert(exts[i] == front[i]);
            } else {
                assert(normalised(exts[exts.len() - 1]) == text);
            }
        }
        if text.len() > 0 && exists|i: int|
            0 <= i < exts.len() && normalised(#[trigger] exts[i]) == text {
            let i = choose|i: int| 0 <= i < exts.len() && normalised(#[trigger] exts[i]) == text;
            if i < front.len() {
                assert(front[i] == exts[i]);
                let x = choose|x: int| 0 <= x < rest.len() && rest[x] == text;
                assert(all[x] == text);
            } else {
                assert(all[all.len() - 1] == text);
            }
        }
    }
}

/// With the filters that the flags ask for, a path is excluded exactly where its
/// extension in lower case is the normal form of one that was given.
pub proof fn a_path_is_excluded_by_a_given_extension(
    args: Args,
    options: ScanOptions,
    path: Seq<u8>,
)
    requires
        texts(options.exclude_exts@) == all_normalised(texts(args.exclude_ext@)),
    ensures
        options.excludes(path) <==> {
            &&& extension_of(path) is Some
            &&& valid_utf8(extension_of(path)->0)
            &&& lower_case(decode_utf8(extension_of(path)->0)).len() > 0
            &&& exists|i: int|
                0 <= i < args.exclude_ext@.len() && normalised((#[trigger] args.exclude_ext@[i])@)
                    == lower_case(decode_utf8(extension_of(path)->0))
        },
{
    let given = texts(args.exclude_ext@);
    let text = lower_case(decode_utf8(extension_of(path)->0));
    normal_forms_are_listed(given, text);
    if exists|i: int| 0 <= i < given.len() && normalised(#[trigger] given[i]) == text {
        let i = choose|i: int| 0 <= i < given.len() && normalised(#[trigger] given[i]) == text;
        assert(args.exclude_ext@[i]@ == given[i]);
    }
    if exists|i: int|
        0 <= i < args.exclude_ext@.len() && normalised((#[trigger] args.exclude_ext@[i])@)
            == text {
        let i = choose|i: int|
            0 <= i < args.exclude_ext@.len() && normalised((#[trigger] args.exclude_ext@[i])@)
                == text;
        assert(given[i] == args.exclude_ext@[i]@);
    }
}

/// The flags leave out a path whose extension in lower case is the normal form of a given
/// one, and no other.
pub proof fn given_extensions_are_left_out(args: Args, options: ScanOptions, path: Seq<u8>, i: int)
    requires
        args.asks_for(options),
        extension_of(path) is Some,
        valid_utf8(extension_of(path)->0),
        lower_case(decode_utf8(extension_of(path)->0)).len() > 0,
    ensures
        0 <= i < args.exclude_ext@.len() && normalised(args.exclude_ext@[i]@) == lower_case(
            decode_utf8(extension_of(path)->0),
        ) ==> options.excludes(path),
        args.exclude_ext@.len() == 0 ==> !options.excludes(path),
{
    a_path_is_excluded_by_a_given_extension(args, options, path);
}

/// Two ASCII texts that differ in case alone.
pub open spec fn same_but_for_case(a: Seq<char>, b: Seq<char>) -> bool {
    all_ascii(a) && all_ascii(b) && lower_case(a) == lower_case(b)
}

proof fn case_is_told_by_letters(a: Seq<char>, b: Seq<char>)
    requires
        same_but_for_case(a, b),
    ensures
        a.len() == b.len(),
        forall|i: int|
            0 <= i < a.len() ==> ascii_lower(#[trigger] a[i]) == ascii_lower(#[trigger] b[i]),
{
    assert(lower_case(a).len() == a.len() && lower_case(b).len() == b.len());
    assert forall|i: int| 0 <= i < a.len() implies ascii_lower(#[trigger] a[i]) == ascii_lower(
        #[trigger] b[i],
    ) by {
        assert(lower_case(a)[i] == lower_case(b)[i]);
    }
}

/// The same stretch of two texts that differ in case alone.
proof fn case_stays_in_parts(a: Seq<char>, b: Seq<char>, from: int, to: int)
    requires
        same_but_for_case(a, b),
        0 <= from <= to <= a.len(),
    ensures
        same_but_for_case(a.subrange(from, to), b.subrange(from, to)),
{
    case_is_told_by_letters(a, b);
    let x = a.subrange(from, to);
    let y = b.subrange(from, to);
    assert forall|i: int| 0 <= i < x.len() implies (#[trigger] x[i] as int) < 0x80 by {
        assert(x[i] == a[from + i]);
    }
    assert forall|i: int| 0 <= i < y.len() implies (#[trigger] y[i] as int) < 0x80 by {
        assert(y[i] == b[from + i]);
    }
    assert forall|i: int| 0 <= i < x.len() implies ascii_lower(#[trigger] x[i]) == ascii_lower(
        #[trigger] y[i],
    ) by {
        assert(x[i] == a[from + i] && y[i] == b[from + i]);
    }
    assert(lower_case(x) =~= lower_case(y));
}

proof fn case_stays_in_trimmed(a: Seq<char>, b: Seq<char>)
    requires
        same_but_for_case(a, b),
    ensures
        same_but_for_case(trimmed(a), trimmed(b)),
    decreases a.len(),
{
    case_is_told_by_letters(a, b);
    trimmed_step(a);
    trimmed_step(b);
    let n = a.len() as int;
    if n > 0 {
        assert(ascii_lower(a[0]) == ascii_lower(b[0]));
        assert(ascii_lower(a[n - 1]) == ascii_lower(b[n - 1]));
        if white_space(a[0]) {
            case_stays_in_parts(a, b, 1, n);
            case_stays_in_trimmed(a.drop_first(), b.drop_first());
        } else if white_space(a.last()) {
            case_stays_in_parts(a, b, 0, n - 1);
            case_stays_in_trimmed(a.drop_last(), b.drop_last());
        }
    }
}

proof fn case_stays_behind_dots(a: Seq<char>, b: Seq<char>)
    requires
        same_but_for_case(a, b),
    ensures
        same_but_for_case(without_leading(a, '.'), without_leading(b, '.')),
    decreases a.len(),
{
    case_is_told_by_letters(a, b);
    if a.len() > 0 {
        assert(ascii_lower(a[0]) == ascii_lower(b[0]));
        if a[0] == '.' {
            case_stays_in_parts(a, b, 1, a.len() as int);
            case_stays_behind_dots(a.drop_first(), b.drop_first());
        }
    }
}

/// Extensions that differ in case alone are matched alike.
pub proof fn case_does_not_count(a: Seq<char>, b: Seq<char>)
    requires
        same_but_for_case(a, b),
    ensures
        normalised(a) == normalised(b),
{
    case_stays_in_trimmed(a, b);
    case_stays_behind_dots(trimmed(a), trimmed(b));
}

/// An extension is matched alike with a dot in front and without.
pub proof fn a_leading_dot_does_not_count(ext: Seq<char>)
    requires
        trimmed(ext) == ext,
    ensures
        normalised(seq!['.'] + ext) == normalised(ext),
{
    let dotted = seq!['.'] + ext;
    trimmed_is_no_longer(ext.drop_last());
    trimmed_step(ext);
    trimmed_step(dotted);
    if ext.len() > 0 {
        trimmed_is_no_longer(ext.drop_first());
        assert(dotted.last() == ext.last());
    }
    assert(trimmed(dotted) == dotted);
    assert(dotted.drop_first() =~= ext);
}

/// Trimming makes no text longer.
proof fn trimmed_is_no_longer(text: Seq<char>)
    ensures
        trimmed(text).len() <= text.len(),
    decreases text.len(),
{
    trimmed_step(text);
    if text.len() > 0 {
        trimmed_is_no_longer(text.drop_first());
        trimmed_is_no_longer(text.drop_last());
    }
}

impl Args {
    /// These are the filters that the flags ask for.
    pub open spec fn asks_for(self, o: ScanOptions) -> bool {
        &&& o.skip_hidden == !self.hidden
        &&& o.respect_gitignore == !self.no_gitignore
        &&& o.skip_empty == !self.include_empty
        &&& o.collapse_hardlinks == !self.no_collapse_hardlinks
        &&& o.same_file_system == self.one_file_system
        &&& o.follow_links == self.follow_links
        &&& o.min_size == self.min_size
        &&& o.head_hash_min == self.head_hash_min
        &&& o.use_cache == self.cache
        &&& o.cache_min_size == self.cache_min_size
        &&& paths_in(o.reference_roots@) == paths_in(self.reference@)
        &&& texts(o.exclude_exts@) == all_normalised(texts(self.exclude_ext@))
    }

    /// Where the flags say that deleted files go.
    pub open spec fn mode_asked(self) -> DeleteMode {
        if self.permanent {
            DeleteMode::Permanent
        } else {
            DeleteMode::Trash
        }
    }

    /// The filters that the flags ask for.
    pub fn scan_options(&self) -> (o: ScanOptions)
        ensures
            self.asks_for(o),
    {
        ScanOptions {
            skip_hidden: !self.hidden,
            respect_gitignore: !self.no_gitignore,
            skip_empty: !self.include_empty,
            collapse_hardlinks: !self.no_collapse_hardlinks,
            same_file_system: self.one_file_system,
            follow_links: self.follow_links,
            min_size: self.min_size,
            head_hash_min: self.head_hash_min,
            use_cache: self.cache,
            cache_min_size: self.cache_min_size,
            reference_roots: copied_paths(&self.reference),
            exclude_exts: normalise_exts(&self.exclude_ext),
        }
    }

    /// Where deleted files go.
    pub fn delete_mode(&self) -> (m: DeleteMode)
        ensures
            m == self.mode_asked(),
    {
        if self.permanent {
            DeleteMode::Permanent
        } else {
            DeleteMode::Trash
        }
    }
}

/// Each flag sets the one filter it names: what is left out by default is taken in, and the
/// other way round; numbers and directories are taken as they are given.
pub proof fn flags_set_the_filters_they_name(args: Args, options: ScanOptions, r: int)
    requires
        args.asks_for(options),
    ensures
        args.hidden <==> !options.skip_hidden,
        args.no_gitignore <==> !options.respect_gitignore,
        args.include_empty <==> !options.skip_empty,
        args.no_collapse_hardlinks <==> !options.collapse_hardlinks,
        args.one_file_system <==> options.same_file_system,
        args.follow_links <==> options.follow_links,
        args.cache <==> options.use_cache,
        options.min_size == args.min_size,
        options.head_hash_min == args.head_hash_min,
        options.cache_min_size == args.cache_min_size,
        options.reference_roots@.len() == args.reference@.len(),
        0 <= r < args.reference@.len() ==> options.reference_roots@[r]@ == args.reference@[r]@,
{
    let a = paths_in(options.reference_roots@);
    let b = paths_in(args.reference@);
    assert(a.len() == options.reference_roots@.len() && b.len() == args.reference@.len());
    if 0 <= r < args.reference@.len() {
        assert(a[r] == b[r]);
    }
}

/// Files are deleted for good only where that is asked for.
pub proof fn deletion_is_recoverable_by_default(args: Args)
    ensures
        args.permanent ==> args.mode_asked() == DeleteMode::Permanent,
        !args.permanent ==> args.mode_asked() == DeleteMode::Trash,
{
}

/// An extension that is given is matched in lower case, without the blanks around it and
/// without the dots in front: it is the part from `r.0` to `r.1` of what was given.
pub proof fn an_extension_is_matched_without_blanks_and_dots(ext: Seq<char>) -> (r: (int, int))
    ensures
        0 <= r.0 <= r.1 <= ext.len(),
        normalised(ext) == lower_case(ext.subrange(r.0, r.1)),
        forall|i: int|
            0 <= i < r.0 ==> white_space(#[trigger] ext[i]) || ext[i] == '.',
        forall|i: int| r.1 <= i < ext.len() ==> white_space(#[trigger] ext[i]),
        r.0 < r.1 ==> ext[r.0] != '.' && !white_space(ext[r.1 - 1]),
{
    let (a, b) = trimming_takes_off_white_space(ext);
    let bare = trimmed(ext);
    let k = only_leading_ones_are_taken_off(bare, '.');
    assert(bare.skip(k) =~= ext.subrange(a + k, b));
    assert forall|i: int| 0 <= i < a + k implies white_space(#[trigger] ext[i]) || ext[i] == '.' by {
        if i >= a {
            assert(bare[i - a] == ext[i]);
        }
    }
    if a + k < b {
        assert(bare[k] == ext[a + k]);
    }
    (a + k, b)
}

} // verus!
