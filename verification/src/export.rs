//! On-demand JSON and human-readable exports of the reviewed result state.
//!
//! What an export says and where it may go is decided here; serialising and
//! writing it is done outside.

pub mod laws;

use crate::model::{
    files_in, fit, marked_in, marked_is_part, reclaimable_in, reclaimable_is_part, totals_grow,
    wasted_is_part, DupeGroup, FileEntry, ScanOptions,
};
use crate::path::{joined, lists_path, is_listed, name_of, FilePath};
use crate::selection::Selection;
use crate::text::{
    copied_texts, decimal, decimal_of, decimal_text, displayed, hex, hex_text, lossy_text,
    pad_right, padded_right, text_from, texts, upper_case,
};
use crate::time::{Duration, FileTime};
use vstd::prelude::*;

verus! {

/// The layout of an export.
pub const SCHEMA_VERSION: u32 = 1;

/// What came of an export: where each file is, or why it is not there.
#[derive(Debug)]
pub struct ExportOutcome {
    pub json: Result<FilePath, String>,
    pub text: Result<FilePath, String>,
}

/// Everything an export says.
#[derive(Debug)]
pub struct ExportDocument {
    pub schema_version: u32,
    pub generated_at_unix_ms: u64,
    pub scan_root: ExportPath,
    pub reference_roots: Vec<ExportPath>,
    pub elapsed_ms: u64,
    pub filters: ExportFilters,
    pub totals: ExportTotals,
    pub groups: Vec<ExportGroup>,
}

/// The filters of the scan.
#[derive(Debug)]
pub struct ExportFilters {
    pub include_hidden: bool,
    pub respect_gitignore: bool,
    pub include_empty: bool,
    pub collapse_hardlinks: bool,
    pub one_file_system: bool,
    pub follow_links: bool,
    pub min_size: u64,
    pub head_hash_min: u64,
    pub cache_enabled: bool,
    pub cache_min_size: u64,
    pub excluded_extensions: Vec<String>,
}

/// Counts over all groups.
#[derive(Debug)]
pub struct ExportTotals {
    pub groups: usize,
    pub files: usize,
    pub marked: usize,
    pub reclaimable_bytes: u64,
}

/// One group.
#[derive(Debug)]
pub struct ExportGroup {
    pub hash: String,
    pub size: u64,
    pub wasted_bytes: u64,
    pub reclaimable_bytes: u64,
    pub selected: bool,
    pub skipped: bool,
    pub files: Vec<ExportFile>,
}

/// One file of a group.
#[derive(Debug)]
pub struct ExportFile {
    pub path: ExportPath,
    pub size: u64,
    pub modified_unix_ms: Option<u64>,
    pub protected: bool,
    pub disposition: &'static str,
}

/// A path for reading, and the same path without loss.
#[derive(Debug)]
pub struct ExportPath {
    pub display: String,
    pub raw: RawPath,
}

/// A path without loss.
#[derive(Debug)]
pub enum RawPath {
    /// The bytes of the path in Base64.
    UnixBytesBase64(String),
}

/// What the `STANDARD` engine of the `base64` crate makes of bytes.
pub uninterp spec fn base64_text(bytes: Seq<u8>) -> Seq<char>;

/// `base64::Engine::encode` of the `STANDARD` engine: its text depends on the
/// bytes alone, and no other bytes have the same text, so that it can be decoded. A
/// slice is never so long that the length of its text overflows.
#[verifier::external_body]
fn base64_of(bytes: &[u8]) -> (s: String)
    ensures
        s@ == base64_text(bytes@),
        forall|other: Seq<u8>| #[trigger] base64_text(other) == s@ ==> other == bytes@,
{
    base64::Engine::encode(&base64::engine::general_purpose::STANDARD, bytes)
}

/// Whole milliseconds since the epoch, at most `u64::MAX`, for a time that is not
/// before it.
pub open spec fn unix_ms(time: FileTime) -> Option<u64> {
    if time.at() < 0 {
        None
    } else if time.at() / 1_000_000 <= u64::MAX {
        Some((time.at() / 1_000_000) as u64)
    } else {
        Some(u64::MAX)
    }
}

/// Whole milliseconds since the epoch, for a time that is not before it.
pub fn system_time_ms(time: FileTime) -> (n: Option<u64>)
    ensures
        n == unix_ms(time),
{
    let nanos: i128 = time.unix_nanos();
    if nanos < 0 {
        return None;
    }
    let millis: i128 = nanos / 1_000_000;
    if millis <= u64::MAX as i128 {
        Some(millis as u64)
    } else {
        Some(u64::MAX)
    }
}

/// Milliseconds since the epoch, or 0 before it.
pub fn now_ms(now: FileTime) -> (n: u64)
    ensures
        n == match unix_ms(now) {
            Some(ms) => ms,
            None => 0,
        },
{
    match system_time_ms(now) {
        Some(ms) => ms,
        None => 0,
    }
}

/// What happens to a file: it is protected, kept or deleted.
pub open spec fn disposition(file: FileEntry) -> Seq<char> {
    if file.protected {
        "protected"@
    } else if file.keep {
        "keep"@
    } else {
        "delete"@
    }
}

impl ExportPath {
    /// This path, for reading and without loss.
    pub open spec fn shows(self, path: Seq<u8>) -> bool {
        &&& self.display@ == displayed(path)
        &&& self.raw matches RawPath::UnixBytesBase64(s) && s@ == base64_text(path)
        &&& self.is_raw_of_only(path)
    }

    /// No other path has this raw form.
    pub open spec fn is_raw_of_only(self, path: Seq<u8>) -> bool {
        forall|other: Seq<u8>|
            self.raw->UnixBytesBase64_0@ == #[trigger] base64_text(other) ==> other == path
    }
}

impl ExportFile {
    /// This file of a group.
    pub open spec fn shows(self, file: FileEntry) -> bool {
        &&& self.path.shows(file.path@)
        &&& self.size == file.size
        &&& self.modified_unix_ms == match file.modified {
            Some(t) => unix_ms(t),
            None => None,
        }
        &&& self.protected == file.protected
        &&& self.disposition@ == disposition(file)
    }
}

impl ExportGroup {
    /// This group, which is or is not selected.
    pub open spec fn shows(self, group: DupeGroup, selected: Set<[u8; 32]>) -> bool {
        &&& self.hash@ == hex(group.hash@)
        &&& self.size == group.size
        &&& self.wasted_bytes == group.wasted_bytes()
        &&& self.reclaimable_bytes == group.reclaimable_bytes()
        &&& self.selected == selected.contains(group.hash)
        &&& self.skipped == group.skipped
        &&& self.files@.len() == group.files@.len()
        &&& forall|i: int|
            0 <= i < self.files@.len() ==> (#[trigger] self.files@[i]).shows(group.files@[i])
    }
}

impl ExportFilters {
    /// These filters.
    pub open spec fn shows(self, options: ScanOptions) -> bool {
        &&& self.include_hidden == !options.skip_hidden
        &&& self.respect_gitignore == options.respect_gitignore
        &&& self.include_empty == !options.skip_empty
        &&& self.collapse_hardlinks == options.collapse_hardlinks
        &&& self.one_file_system == options.same_file_system
        &&& self.follow_links == options.follow_links
        &&& self.min_size == options.min_size
        &&& self.head_hash_min == options.head_hash_min
        &&& self.cache_enabled == options.use_cache
        &&& self.cache_min_size == options.cache_min_size
        &&& texts(self.excluded_extensions@) == texts(options.exclude_exts@)
    }
}

impl ExportTotals {
    /// The counts over these groups.
    pub open spec fn shows(self, groups: Seq<DupeGroup>) -> bool {
        &&& self.groups == groups.len()
        &&& self.files == files_in(groups)
        &&& self.marked == marked_in(groups)
        &&& self.reclaimable_bytes == reclaimable_in(groups)
    }
}

impl ExportDocument {
    /// The reviewed state of a scan.
    pub open spec fn shows(
        self,
        scan_root: Seq<u8>,
        options: ScanOptions,
        elapsed: Duration,
        groups: Seq<DupeGroup>,
        selected: Set<[u8; 32]>,
        generated_at: u64,
    ) -> bool {
        &&& self.schema_version == SCHEMA_VERSION
        &&& self.generated_at_unix_ms == generated_at
        &&& self.scan_root.shows(scan_root)
        &&& self.reference_roots@.len() == options.reference_roots@.len()
        &&& forall|i: int|
            0 <= i < self.reference_roots@.len() ==> (#[trigger] self.reference_roots@[i]).shows(
                options.reference_roots@[i]@,
            )
        &&& self.elapsed_ms == if elapsed.total_millis() <= u64::MAX {
            elapsed.total_millis()
        } else {
            u64::MAX as int
        }
        &&& self.filters.shows(options)
        &&& self.totals.shows(groups)
        &&& self.groups@.len() == groups.len()
        &&& forall|i: int|
            0 <= i < self.groups@.len() ==> (#[trigger] self.groups@[i]).shows(
                groups[i],
                selected,
            )
    }
}

/// A path for reading, and the same path without loss.
pub fn export_path(path: &FilePath) -> (e: ExportPath)
    ensures
        e.shows(path@),
{
    ExportPath {
        display: path.display(),
        raw: RawPath::UnixBytesBase64(base64_of(path.raw.as_slice())),
    }
}

/// An exported path is lossless: it stands for one path only, whatever it displays.
pub proof fn raw_paths_are_lossless(e: ExportPath, a: Seq<u8>, b: Seq<u8>)
    requires
        e.shows(a),
        e.shows(b),
    ensures
        a == b,
{
    assert(base64_text(b) == base64_text(a));
}

fn export_file(file: &FileEntry) -> (e: ExportFile)
    ensures
        e.shows(*file),
{
    ExportFile {
        path: export_path(&file.path),
        size: file.size,
        modified_unix_ms: match file.modified {
            Some(t) => system_time_ms(t),
            None => None,
        },
        protected: file.protected,
        disposition: if file.protected {
            "protected"
        } else if file.keep {
            "keep"
        } else {
            "delete"
        },
    }
}

fn export_group(group: &DupeGroup, selected: &Selection) -> (e: ExportGroup)
    requires
        group.wf(),
        selected.wf(),
    ensures
        e.shows(*group, selected@),
{
    let mut files: Vec<ExportFile> = Vec::new();
    while files.len() < group.files.len()
        invariant
            files@.len() <= group.files@.len(),
            forall|i: int| 0 <= i < files@.len() ==> (#[trigger] files@[i]).shows(group.files@[i]),
        decreases group.files@.len() - files@.len(),
    {
        let file = export_file(&group.files[files.len()]);
        files.push(file);
    }
    assert(group.hash@.take(32) =~= group.hash@);
    proof {
        wasted_is_part(*group);
        reclaimable_is_part(*group);
    }
    ExportGroup {
        hash: hex_text(&group.hash, 32),
        size: group.size,
        wasted_bytes: group.wasted(),
        reclaimable_bytes: group.reclaimable(),
        selected: selected.contains(&group.hash),
        skipped: group.skipped,
        files,
    }
}

fn export_totals(groups: &Vec<DupeGroup>) -> (t: ExportTotals)
    requires
        fit(groups@),
    ensures
        t.shows(groups@),
{
    let mut files: usize = 0;
    let mut marked: usize = 0;
    let mut reclaimable: u64 = 0;
    let mut g: usize = 0;
    while g < groups.len()
        invariant
            fit(groups@),
            g <= groups@.len(),
            files == files_in(groups@.take(g as int)),
            marked == marked_in(groups@.take(g as int)),
            reclaimable == reclaimable_in(groups@.take(g as int)),
        decreases groups@.len() - g,
    {
        proof {
            assert(groups@.take(g + 1).drop_last() =~= groups@.take(g as int));
            totals_grow(groups@, g + 1);
            marked_is_part(groups@.take(g + 1));
            assert(groups@[g as int].wf());
        }
        files += groups[g].files.len();
        marked += groups[g].marked();
        reclaimable += groups[g].reclaimable();
        g += 1;
    }
    assert(groups@.take(g as int) =~= groups@);
    ExportTotals { groups: groups.len(), files, marked, reclaimable_bytes: reclaimable }
}

/// The reviewed state of a scan: options, exact hashes, timestamps, reference
/// status, marks, selection, and every path without loss.
pub fn build_document(
    scan_root: &FilePath,
    options: &ScanOptions,
    elapsed: Duration,
    groups: &Vec<DupeGroup>,
    selected: &Selection,
    generated_at: u64,
) -> (doc: ExportDocument)
    requires
        fit(groups@),
        selected.wf(),
    ensures
        doc.shows(scan_root@, *options, elapsed, groups@, selected@, generated_at),
{
    let mut export_groups: Vec<ExportGroup> = Vec::new();
    while export_groups.len() < groups.len()
        invariant
            fit(groups@),
            selected.wf(),
            export_groups@.len() <= groups@.len(),
            forall|i: int|
                0 <= i < export_groups@.len() ==> (#[trigger] export_groups@[i]).shows(
                    groups@[i],
                    selected@,
                ),
        decreases groups@.len() - export_groups@.len(),
    {
        let at: usize = export_groups.len();
        assert(groups@[at as int].wf());
        let group = export_group(&groups[at], selected);
        export_groups.push(group);
    }
    let mut reference_roots: Vec<ExportPath> = Vec::new();
    while reference_roots.len() < options.reference_roots.len()
        invariant
            reference_roots@.len() <= options.reference_roots@.len(),
            forall|i: int|
                0 <= i < reference_roots@.len() ==> (#[trigger] reference_roots@[i]).shows(
                    options.reference_roots@[i]@,
                ),
        decreases options.reference_roots@.len() - reference_roots@.len(),
    {
        let path = export_path(&options.reference_roots[reference_roots.len()]);
        reference_roots.push(path);
    }
    ExportDocument {
        schema_version: SCHEMA_VERSION,
        generated_at_unix_ms: generated_at,
        scan_root: export_path(scan_root),
        reference_roots,
        elapsed_ms: elapsed.capped_millis(),
        filters: ExportFilters {
            include_hidden: !options.skip_hidden,
            respect_gitignore: options.respect_gitignore,
            include_empty: !options.skip_empty,
            collapse_hardlinks: options.collapse_hardlinks,
            one_file_system: options.same_file_system,
            follow_links: options.follow_links,
            min_size: options.min_size,
            head_hash_min: options.head_hash_min,
            cache_enabled: options.use_cache,
            cache_min_size: options.cache_min_size,
            excluded_extensions: copied_texts(&options.exclude_exts),
        },
        totals: export_totals(groups),
        groups: export_groups,
    }
}

/// The lines before the first group.
pub open spec fn heading_text(doc: ExportDocument) -> Seq<char> {
    "dupefind results\nroot: "@ + doc.scan_root.display@ + "\ngroups: "@ + decimal(
        doc.totals.groups as nat,
    ) + "\nfiles: "@ + decimal(doc.totals.files as nat) + "\nmarked: "@ + decimal(
        doc.totals.marked as nat,
    ) + "\nreclaimable bytes: "@ + decimal(doc.totals.reclaimable_bytes as nat) + "\n\n"@
}

/// The line of a file.
pub open spec fn file_line(file: ExportFile) -> Seq<char> {
    "  ["@ + padded_right(upper_case(file.disposition@), 9, ' ') + "] "@ + file.path.display@
        + "\n"@
}

/// The lines of files.
pub open spec fn file_lines(files: Seq<ExportFile>) -> Seq<char>
    decreases files.len(),
{
    if files.len() == 0 {
        Seq::empty()
    } else {
        file_lines(files.drop_last()) + file_line(files.last())
    }
}

/// The line above the files of a group.
pub open spec fn group_line(number: nat, group: ExportGroup) -> Seq<char> {
    "group "@ + decimal(number) + ": size="@ + decimal(group.size as nat) + " hash="@ + group.hash@
        + " wasted="@ + decimal(group.wasted_bytes as nat) + " reclaimable="@ + decimal(
        group.reclaimable_bytes as nat,
    ) + (if group.selected {
        " selected"@
    } else {
        ""@
    }) + (if group.skipped {
        " skipped"@
    } else {
        ""@
    }) + "\n"@
}

/// The lines of a group, followed by an empty line.
pub open spec fn group_block(number: nat, group: ExportGroup) -> Seq<char> {
    group_line(number, group) + file_lines(group.files@) + "\n"@
}

/// The lines of groups.
pub open spec fn group_lines(groups: Seq<ExportGroup>) -> Seq<char>
    decreases groups.len(),
{
    if groups.len() == 0 {
        Seq::empty()
    } else {
        group_lines(groups.drop_last()) + group_block(groups.len(), groups.last())
    }
}

fn file_line_text(file: &ExportFile) -> (s: String)
    ensures
        s@ == file_line(*file),
{
    let mut s = text_from("  [");
    let word = file.disposition.to_uppercase();
    s.append(pad_right(word.as_str(), 9, ' ').as_str());
    s.append("] ");
    s.append(file.path.display.as_str());
    s.append("\n");
    s
}

fn group_line_text(number: usize, group: &ExportGroup) -> (s: String)
    ensures
        s@ == group_line(number as nat, *group),
{
    let mut s = text_from("group ");
    s.append(decimal_of(number).as_str());
    s.append(": size=");
    s.append(decimal_text(group.size).as_str());
    s.append(" hash=");
    s.append(group.hash.as_str());
    s.append(" wasted=");
    s.append(decimal_text(group.wasted_bytes).as_str());
    s.append(" reclaimable=");
    s.append(decimal_text(group.reclaimable_bytes).as_str());
    if group.selected {
        s.append(" selected");
    } else {
        s.append("");
    }
    if group.skipped {
        s.append(" skipped");
    } else {
        s.append("");
    }
    s.append("\n");
    s
}

fn group_block_text(number: usize, group: &ExportGroup) -> (block: String)
    ensures
        block@ == group_block(number as nat, *group),
{
    let mut block = group_line_text(number, group);
    let ghost title = block@;
    let mut f: usize = 0;
    while f < group.files.len()
        invariant
            f <= group.files@.len(),
            block@ =~= title + file_lines(group.files@.take(f as int)),
        decreases group.files@.len() - f,
    {
        assert(group.files@.take(f + 1).drop_last() =~= group.files@.take(f as int));
        block.append(file_line_text(&group.files[f]).as_str());
        f += 1;
    }
    assert(group.files@.take(f as int) =~= group.files@);
    block.append("\n");
    block
}

/// What the export for people says: the totals, and then every group with its files.
pub open spec fn report_text(doc: ExportDocument) -> Seq<char> {
    heading_text(doc) + group_lines(doc.groups@)
}

/// The export for people.
pub fn build_text(doc: &ExportDocument) -> (s: String)
    ensures
        s@ == report_text(*doc),
{
    let mut s = text_from("dupefind results\nroot: ");
    s.append(doc.scan_root.display.as_str());
    s.append("\ngroups: ");
    s.append(decimal_of(doc.totals.groups).as_str());
    s.append("\nfiles: ");
    s.append(decimal_of(doc.totals.files).as_str());
    s.append("\nmarked: ");
    s.append(decimal_of(doc.totals.marked).as_str());
    s.append("\nreclaimable bytes: ");
    s.append(decimal_text(doc.totals.reclaimable_bytes).as_str());
    s.append("\n\n");
    let ghost head = s@;
    let mut g: usize = 0;
    while g < doc.groups.len()
        invariant
            g <= doc.groups@.len(),
            s@ =~= head + group_lines(doc.groups@.take(g as int)),
        decreases doc.groups@.len() - g,
    {
        let group = &doc.groups[g];
        s.append(group_block_text(g + 1, group).as_str());
        proof {
            let more = doc.groups@.take(g + 1);
            assert(more.drop_last() =~= doc.groups@.take(g as int));
            assert(more.last() == *group);
        }
        g += 1;
    }
    assert(doc.groups@.take(g as int) =~= doc.groups@);
    s
}

/// The name of an export without its extension; later ones of the same second
/// are numbered.
pub open spec fn stem(timestamp: nat, suffix: nat) -> Seq<char> {
    if suffix == 0 {
        "dupefind-results-"@ + decimal(timestamp)
    } else {
        "dupefind-results-"@ + decimal(timestamp) + "-"@ + decimal(suffix)
    }
}

/// The path of an export in a directory.
pub open spec fn export_file_path(
    directory: Seq<u8>,
    timestamp: nat,
    suffix: nat,
    extension: Seq<char>,
) -> Seq<u8> {
    joined(directory, vstd::utf8::encode_utf8(stem(timestamp, suffix) + extension))
}

/// One of the two files of this export is there already.
pub open spec fn is_taken(
    directory: Seq<u8>,
    timestamp: nat,
    suffix: nat,
    present: Seq<FilePath>,
) -> bool {
    ||| lists_path(present, export_file_path(directory, timestamp, suffix, ".json"@))
    ||| lists_path(present, export_file_path(directory, timestamp, suffix, ".txt"@))
}

fn export_file_at(directory: &FilePath, timestamp: u64, suffix: u32, extension: &str) -> (p:
    FilePath)
    ensures
        p@ == export_file_path(directory@, timestamp as nat, suffix as nat, extension@),
{
    let mut name = text_from("dupefind-results-");
    name.append(decimal_text(timestamp).as_str());
    if suffix != 0 {
        name.append("-");
        name.append(decimal_text(suffix as u64).as_str());
    }
    name.append(extension);
    directory.join(&FilePath::from_text(name.as_str()))
}

/// The first numbering of which neither file is present, or that there is none.
pub open spec fn is_next_pair(
    directory: Seq<u8>,
    timestamp: nat,
    present: Seq<FilePath>,
    r: Option<(FilePath, FilePath)>,
) -> bool {
    match r {
        Some((json, text)) => {
            &&& !lists_path(present, json@)
            &&& !lists_path(present, text@)
            &&& exists|suffix: u32|
                #![trigger is_taken(directory, timestamp, suffix as nat, present)]
                {
                    &&& !is_taken(directory, timestamp, suffix as nat, present)
                    &&& forall|before: u32|
                        before < suffix ==> #[trigger] is_taken(
                            directory,
                            timestamp,
                            before as nat,
                            present,
                        )
                    &&& json@ == export_file_path(directory, timestamp, suffix as nat, ".json"@)
                    &&& text@ == export_file_path(directory, timestamp, suffix as nat, ".txt"@)
                }
        },
        None => forall|suffix: u32| #[trigger]
            is_taken(directory, timestamp, suffix as nat, present),
    }
}

/// Where the next export goes: the first numbering of which neither file is
/// present, so that no earlier export is overwritten. `None` once all numbers are
/// used up.
pub fn available_paths(directory: &FilePath, timestamp: u64, present: &Vec<FilePath>) -> (r: Option<
    (FilePath, FilePath),
>)
    ensures
        is_next_pair(directory@, timestamp as nat, present@, r),
{
    let mut suffix: u32 = 0;
    loop
        invariant
            forall|before: u32|
                before < suffix ==> #[trigger] is_taken(
                    directory@,
                    timestamp as nat,
                    before as nat,
                    present@,
                ),
        decreases u32::MAX - suffix,
    {
        let json = export_file_at(directory, timestamp, suffix, ".json");
        let text = export_file_at(directory, timestamp, suffix, ".txt");
        if !is_listed(present, &json) && !is_listed(present, &text) {
            assert(!is_taken(directory@, timestamp as nat, suffix as nat, present@));
            return Some((json, text));
        }
        assert(is_taken(directory@, timestamp as nat, suffix as nat, present@));
        if suffix == u32::MAX {
            return None;
        }
        suffix += 1;
    }
}

/// The file name of a path for display, or nothing without one.
pub open spec fn bare_name(path: Seq<u8>) -> Seq<char> {
    match name_of(path) {
        Some(name) => displayed(name),
        None => displayed(Seq::empty()),
    }
}

fn bare_name_of(path: &FilePath) -> (s: String)
    ensures
        s@ == bare_name(path@),
{
    match path.file_name() {
        Some(name) => lossy_text(name.as_slice()),
        None => {
            let none: Vec<u8> = Vec::new();
            assert(none@ =~= Seq::<u8>::empty());
            lossy_text(none.as_slice())
        },
    }
}

/// The line that tells what came of an export.
pub open spec fn outcome_text(outcome: ExportOutcome) -> Seq<char> {
    match (outcome.json, outcome.text) {
        (Ok(json), Ok(text)) => "Exported "@ + bare_name(json@) + " and "@ + bare_name(text@),
        (Ok(path), Err(err)) => "Exported "@ + bare_name(path@) + "; text export failed: "@ + err@,
        (Err(err), Ok(path)) => "JSON export failed: "@ + err@ + "; exported "@ + bare_name(path@),
        (Err(json), Err(text)) => "Export failed: JSON: "@ + json@ + "; text: "@ + text@,
    }
}

/// The line that tells what came of an export.
pub fn outcome_line(outcome: &ExportOutcome) -> (s: String)
    ensures
        s@ == outcome_text(*outcome),
{
    let mut s;
    match &outcome.json {
        Ok(json) => {
            s = text_from("Exported ");
            s.append(bare_name_of(json).as_str());
            match &outcome.text {
                Ok(text) => {
                    s.append(" and ");
                    s.append(bare_name_of(text).as_str());
                },
                Err(err) => {
                    s.append("; text export failed: ");
                    s.append(err.as_str());
                },
            }
        },
        Err(err) => match &outcome.text {
            Ok(path) => {
                s = text_from("JSON export failed: ");
                s.append(err.as_str());
                s.append("; exported ");
                s.append(bare_name_of(path).as_str());
            },
            Err(text) => {
                s = text_from("Export failed: JSON: ");
                s.append(err.as_str());
                s.append("; text: ");
                s.append(text.as_str());
            },
        },
    }
    s
}

} // verus!
