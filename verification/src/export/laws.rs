//! What an export says of the groups it is made of.

use super::{
    base64_text, export_file_path, file_line, file_lines, group_lines, is_next_pair, is_taken,
    outcome_text, report_text, ExportDocument, ExportFile, ExportOutcome, RawPath,
};
use crate::model::{DupeGroup, FileEntry, ScanOptions};
use crate::path::{components, joined, lists_path, FilePath};
use crate::text::{ascii_upper, decimal, displayed, hex, upper_case};
use crate::time::Duration;
use vstd::prelude::*;

verus! {

/// Every file is exported with its own path, size, protection and what happens to it, in
/// the place it has in its group.
pub proof fn every_file_is_exported(
    doc: ExportDocument,
    scan_root: Seq<u8>,
    options: ScanOptions,
    elapsed: Duration,
    groups: Seq<DupeGroup>,
    selected: Set<[u8; 32]>,
    generated_at: u64,
    g: int,
    f: int,
)
    requires
        doc.shows(scan_root, options, elapsed, groups, selected, generated_at),
        0 <= g < groups.len(),
        0 <= f < groups[g].files@.len(),
    ensures
        doc.groups@.len() == groups.len(),
        doc.groups@[g].files@.len() == groups[g].files@.len(),
        ({
            let told = doc.groups@[g].files@[f];
            let file = groups[g].files@[f];
            &&& told.path.display@ == displayed(file.path@)
            &&& told.path.raw == RawPath::UnixBytesBase64(told.path.raw->UnixBytesBase64_0)
            &&& told.path.raw->UnixBytesBase64_0@ == base64_text(file.path@)
            &&& told.size == file.size
            &&& told.protected == file.protected
            &&& file.protected ==> told.disposition@ == "protected"@
            &&& !file.protected && file.keep ==> told.disposition@ == "keep"@
            &&& !file.protected && !file.keep ==> told.disposition@ == "delete"@
        }),
{
    assert(doc.groups@[g].shows(groups[g], selected));
    assert(doc.groups@[g].files@[f].shows(groups[g].files@[f]));
}

/// Every file is exported with its time, in whole milliseconds since the epoch; a file
/// without a time, or with one before the epoch, has none.
pub proof fn every_time_is_exported(
    doc: ExportDocument,
    scan_root: Seq<u8>,
    options: ScanOptions,
    elapsed: Duration,
    groups: Seq<DupeGroup>,
    selected: Set<[u8; 32]>,
    generated_at: u64,
    g: int,
    f: int,
)
    requires
        doc.shows(scan_root, options, elapsed, groups, selected, generated_at),
        0 <= g < groups.len(),
        0 <= f < groups[g].files@.len(),
    ensures
        doc.groups@.len() == groups.len(),
        doc.groups@[g].files@.len() == groups[g].files@.len(),
        ({
            let told = doc.groups@[g].files@[f].modified_unix_ms;
            let time = groups[g].files@[f].modified;
            let nanos = time->0.secs * 1_000_000_000 + time->0.nanos;
            &&& time is None ==> told is None
            &&& time is Some && nanos < 0 ==> told is None
            &&& time is Some && 0 <= nanos < (u64::MAX + 1) * 1_000_000 ==> told is Some && told->0
                * 1_000_000 <= nanos < (told->0 + 1) * 1_000_000
            &&& time is Some && nanos >= (u64::MAX + 1) * 1_000_000 ==> told == Some(u64::MAX)
        }),
{
    assert(doc.groups@[g].shows(groups[g], selected));
    assert(doc.groups@[g].files@[f].shows(groups[g].files@[f]));
}

/// How many files have a property is how many are left when the others are taken out.
pub proof fn counting_is_filtering(files: Seq<FileEntry>, p: spec_fn(FileEntry) -> bool)
    ensures
        crate::model::how_many(files, p) == files.filter(p).len(),
    decreases files.len(),
{
    reveal(Seq::filter);
    if files.len() > 0 {
        counting_is_filtering(files.drop_last(), p);
    }
}

/// Every group is exported with its digest, its size, what it wastes beyond one copy, what
/// its marks would free, and whether it is selected and skipped.
pub proof fn every_group_is_exported(
    doc: ExportDocument,
    scan_root: Seq<u8>,
    options: ScanOptions,
    elapsed: Duration,
    groups: Seq<DupeGroup>,
    selected: Set<[u8; 32]>,
    generated_at: u64,
    g: int,
)
    requires
        doc.shows(scan_root, options, elapsed, groups, selected, generated_at),
        0 <= g < groups.len(),
        groups[g].files@.len() > 0,
    ensures
        ({
            let told = doc.groups@[g];
            let group = groups[g];
            let marked = group.files@.filter(|e: FileEntry| !e.keep && !e.protected).len();
            &&& told.hash@ == hex(group.hash@)
            &&& told.size == group.size
            &&& told.wasted_bytes == group.size * (group.files@.len() - 1)
            &&& told.reclaimable_bytes == if group.skipped {
                0
            } else {
                group.size * marked
            }
            &&& told.selected == selected.contains(group.hash)
            &&& told.skipped == group.skipped
        }),
{
    let group = groups[g];
    assert(doc.groups@[g].shows(group, selected));
    let p = |e: FileEntry| e.doomed();
    let q = |e: FileEntry| !e.keep && !e.protected;
    assert(p =~= q);
    counting_is_filtering(group.files@, p);
    assert(group.size * 0 == 0) by (nonlinear_arith);
}

/// The document itself: its layout, when it was made, the scanned tree and the reference
/// directories, how long the scan took, and under which filters.
pub proof fn the_scan_is_exported(
    doc: ExportDocument,
    scan_root: Seq<u8>,
    options: ScanOptions,
    elapsed: Duration,
    groups: Seq<DupeGroup>,
    selected: Set<[u8; 32]>,
    generated_at: u64,
    r: int,
)
    requires
        doc.shows(scan_root, options, elapsed, groups, selected, generated_at),
    ensures
        doc.schema_version == 1,
        doc.generated_at_unix_ms == generated_at,
        doc.scan_root.display@ == displayed(scan_root),
        doc.scan_root.raw->UnixBytesBase64_0@ == base64_text(scan_root),
        doc.reference_roots@.len() == options.reference_roots@.len(),
        0 <= r < options.reference_roots@.len() ==> {
            &&& doc.reference_roots@[r].display@ == displayed(options.reference_roots@[r]@)
            &&& doc.reference_roots@[r].raw->UnixBytesBase64_0@ == base64_text(
                options.reference_roots@[r]@,
            )
        },
        elapsed.secs < 1_000_000_000_000 ==> doc.elapsed_ms == elapsed.secs * 1000
            + elapsed.nanos as int / 1_000_000,
        doc.filters.include_hidden != options.skip_hidden,
        doc.filters.respect_gitignore == options.respect_gitignore,
        doc.filters.include_empty != options.skip_empty,
        doc.filters.collapse_hardlinks == options.collapse_hardlinks,
        doc.filters.one_file_system == options.same_file_system,
        doc.filters.follow_links == options.follow_links,
        doc.filters.min_size == options.min_size,
        doc.filters.head_hash_min == options.head_hash_min,
        doc.filters.cache_enabled == options.use_cache,
        doc.filters.cache_min_size == options.cache_min_size,
        doc.filters.excluded_extensions@.len() == options.exclude_exts@.len(),
        forall|i: int|
            0 <= i < options.exclude_exts@.len()
                ==> (#[trigger] doc.filters.excluded_extensions@[i])@ == options.exclude_exts@[i]@,
{
    let told = crate::text::texts(doc.filters.excluded_extensions@);
    let asked = crate::text::texts(options.exclude_exts@);
    assert(told == asked);
    assert(told.len() == doc.filters.excluded_extensions@.len());
    assert forall|i: int| 0 <= i < options.exclude_exts@.len() implies (
    #[trigger] doc.filters.excluded_extensions@[i])@ == options.exclude_exts@[i]@ by {
        assert(told[i] == asked[i]);
    }
    if 0 <= r < options.reference_roots@.len() {
        assert(doc.reference_roots@[r].shows(options.reference_roots@[r]@));
    }
}

/// A sequence of numbers added up.
pub open spec fn sum_of(numbers: Seq<int>) -> int
    decreases numbers.len(),
{
    if numbers.len() == 0 {
        0
    } else {
        sum_of(numbers.drop_last()) + numbers.last()
    }
}

/// The totals are those of the exported groups: their number, the number of their files,
/// the files that are marked, and the bytes that would be freed.
pub proof fn totals_are_exported(
    doc: ExportDocument,
    scan_root: Seq<u8>,
    options: ScanOptions,
    elapsed: Duration,
    groups: Seq<DupeGroup>,
    selected: Set<[u8; 32]>,
    generated_at: u64,
)
    requires
        doc.shows(scan_root, options, elapsed, groups, selected, generated_at),
    ensures
        doc.totals.groups == groups.len(),
        doc.totals.files == sum_of(groups.map_values(|g: DupeGroup| g.files@.len() as int)),
        doc.totals.marked == sum_of(
            groups.map_values(
                |g: DupeGroup|
                    if g.skipped {
                        0int
                    } else {
                        g.files@.filter(|e: FileEntry| !e.keep && !e.protected).len() as int
                    },
            ),
        ),
        doc.totals.reclaimable_bytes == sum_of(
            groups.map_values(
                |g: DupeGroup|
                    if g.skipped {
                        0int
                    } else {
                        g.size * g.files@.filter(|e: FileEntry| !e.keep && !e.protected).len()
                    },
            ),
        ),
{
    totals_are_sums(groups);
}

proof fn totals_are_sums(groups: Seq<DupeGroup>)
    ensures
        crate::model::files_in(groups) == sum_of(
            groups.map_values(|g: DupeGroup| g.files@.len() as int),
        ),
        crate::model::marked_in(groups) == sum_of(
            groups.map_values(
                |g: DupeGroup|
                    if g.skipped {
                        0int
                    } else {
                        g.files@.filter(|e: FileEntry| !e.keep && !e.protected).len() as int
                    },
            ),
        ),
        crate::model::reclaimable_in(groups) == sum_of(
            groups.map_values(
                |g: DupeGroup|
                    if g.skipped {
                        0int
                    } else {
                        g.size * g.files@.filter(|e: FileEntry| !e.keep && !e.protected).len()
                    },
            ),
        ),
    decreases groups.len(),
{
    let a = |g: DupeGroup| g.files@.len() as int;
    let b = |g: DupeGroup|
        if g.skipped {
            0int
        } else {
            g.files@.filter(|e: FileEntry| !e.keep && !e.protected).len() as int
        };
    let c = |g: DupeGroup|
        if g.skipped {
            0int
        } else {
            g.size * g.files@.filter(|e: FileEntry| !e.keep && !e.protected).len()
        };
    if groups.len() > 0 {
        let rest = groups.drop_last();
        let last = groups.last();
        totals_are_sums(rest);
        assert(groups.map_values(a).drop_last() =~= rest.map_values(a));
        assert(groups.map_values(b).drop_last() =~= rest.map_values(b));
        assert(groups.map_values(c).drop_last() =~= rest.map_values(c));
        let p = |e: FileEntry| e.doomed();
        let q = |e: FileEntry| !e.keep && !e.protected;
        assert(p =~= q);
        counting_is_filtering(last.files@, p);
        assert(last.size * 0 == 0) by (nonlinear_arith);
        assert(b(last) == last.marked_files());
        assert(c(last) == last.reclaimable_bytes());
    }
}

/// The report for people starts with the tree and the totals, each on a line of its own.
pub proof fn a_report_starts_with_the_totals(doc: ExportDocument)
    requires
        doc.groups@.len() == 0,
    ensures
        report_text(doc) == "dupefind results\nroot: "@ + doc.scan_root.display@ + "\ngroups: "@
            + decimal(doc.totals.groups as nat) + "\nfiles: "@ + decimal(doc.totals.files as nat)
            + "\nmarked: "@ + decimal(doc.totals.marked as nat) + "\nreclaimable bytes: "@
            + decimal(doc.totals.reclaimable_bytes as nat) + "\n\n"@,
{
    assert(group_lines(doc.groups@) =~= Seq::empty());
    assert(report_text(doc) =~= super::heading_text(doc));
}

/// One more group adds its number, its figures and its files at the end of the report, and
/// changes nothing before that.
pub proof fn a_report_lists_every_group(doc: ExportDocument, more: ExportDocument)
    requires
        more.groups@.len() == doc.groups@.len() + 1,
        more.groups@.drop_last() == doc.groups@,
        more.scan_root == doc.scan_root,
        more.totals == doc.totals,
    ensures
        ({
            let group = more.groups@.last();
            report_text(more) == report_text(doc) + ("group "@ + decimal(more.groups@.len())
                + ": size="@ + decimal(group.size as nat) + " hash="@ + group.hash@ + " wasted="@
                + decimal(group.wasted_bytes as nat) + " reclaimable="@ + decimal(
                group.reclaimable_bytes as nat,
            ) + (if group.selected {
                " selected"@
            } else {
                ""@
            }) + (if group.skipped {
                " skipped"@
            } else {
                ""@
            }) + "\n"@ + file_lines(group.files@) + "\n"@)
        }),
{
    let group = more.groups@.last();
    assert(super::heading_text(more) == super::heading_text(doc));
    assert(report_text(more) =~= report_text(doc) + super::group_block(
        more.groups@.len(),
        group,
    ));
}

/// Every file of a group has a line of its own in the report, with what happens to it in
/// capitals and nine columns, and its path.
pub proof fn a_report_lists_every_file(files: Seq<ExportFile>, file: ExportFile)
    ensures
        file_lines(Seq::empty()) == Seq::<char>::empty(),
        file_lines(files.push(file)) == file_lines(files) + file_line(file),
        file.disposition@ == "keep"@ ==> file_line(file) == "  [KEEP     ] "@
            + file.path.display@ + "\n"@,
        file.disposition@ == "delete"@ ==> file_line(file) == "  [DELETE   ] "@
            + file.path.display@ + "\n"@,
        file.disposition@ == "protected"@ ==> file_line(file) == "  [PROTECTED] "@
            + file.path.display@ + "\n"@,
{
    assert(files.push(file).drop_last() =~= files);
    reveal_strlit("keep");
    reveal_strlit("delete");
    reveal_strlit("protected");
    reveal_strlit("  [");
    reveal_strlit("] ");
    reveal_strlit("  [KEEP     ] ");
    reveal_strlit("  [DELETE   ] ");
    reveal_strlit("  [PROTECTED] ");
    let word = upper_case(file.disposition@);
    if file.disposition@ == "keep"@ || file.disposition@ == "delete"@ || file.disposition@
        == "protected"@ {
        assert(crate::text::all_ascii(file.disposition@));
        assert(word =~= file.disposition@.map_values(|c: char| ascii_upper(c)));
        let front = "  ["@ + crate::text::padded_right(word, 9, ' ') + "] "@;
        if file.disposition@ == "keep"@ {
            assert(front =~= "  [KEEP     ] "@);
        } else if file.disposition@ == "delete"@ {
            assert(front =~= "  [DELETE   ] "@);
        } else {
            assert(front =~= "  [PROTECTED] "@);
        }
    }
}

/// No earlier export is overwritten: neither of the two files is there yet, under any
/// spelling of its path.
pub proof fn no_export_is_overwritten(
    directory: Seq<u8>,
    timestamp: nat,
    present: Seq<FilePath>,
    json: FilePath,
    text: FilePath,
    p: int,
)
    requires
        is_next_pair(directory, timestamp, present, Some((json, text))),
        0 <= p < present.len(),
    ensures
        components(present[p]@) != components(json@),
        components(present[p]@) != components(text@),
{
    assert(!lists_path(present, json@) && !lists_path(present, text@));
    assert(present[p] == present[p]);
}

/// Where nothing of the kind is there, an export is named after its time alone.
pub proof fn an_export_is_named_after_its_time(
    directory: Seq<u8>,
    timestamp: nat,
    present: Seq<FilePath>,
    json: FilePath,
    text: FilePath,
)
    requires
        is_next_pair(directory, timestamp, present, Some((json, text))),
        present.len() == 0,
    ensures
        json@ == joined(
            directory,
            vstd::utf8::encode_utf8("dupefind-results-"@ + decimal(timestamp) + ".json"@),
        ),
        text@ == joined(
            directory,
            vstd::utf8::encode_utf8("dupefind-results-"@ + decimal(timestamp) + ".txt"@),
        ),
{
    assert(!is_taken(directory, timestamp, 0u32 as nat, present));
    let suffix = choose|suffix: u32|
        #![trigger is_taken(directory, timestamp, suffix as nat, present)]
        {
            &&& !is_taken(directory, timestamp, suffix as nat, present)
            &&& forall|before: u32|
                before < suffix ==> #[trigger] is_taken(
                    directory,
                    timestamp,
                    before as nat,
                    present,
                )
            &&& json@ == export_file_path(directory, timestamp, suffix as nat, ".json"@)
            &&& text@ == export_file_path(directory, timestamp, suffix as nat, ".txt"@)
        };
    assert(suffix == 0);
}

/// Later exports of the same time are numbered, and an export is only refused where all
/// numbers are used up.
pub proof fn exports_are_numbered(
    directory: Seq<u8>,
    timestamp: nat,
    suffix: nat,
    extension: Seq<char>,
    present: Seq<FilePath>,
    r: Option<(FilePath, FilePath)>,
)
    requires
        suffix > 0,
        is_next_pair(directory, timestamp, present, r),
    ensures
        export_file_path(directory, timestamp, suffix, extension) == joined(
            directory,
            vstd::utf8::encode_utf8(
                "dupefind-results-"@ + decimal(timestamp) + "-"@ + decimal(suffix) + extension,
            ),
        ),
        present.len() == 0 ==> r is Some,
{
    if present.len() == 0 && r is None {
        assert(is_taken(directory, timestamp, 0u32 as nat, present));
    }
}

/// The line on an export names each file that was written and gives the reason for each
/// that was not.
pub proof fn an_outcome_tells_of_both_files(outcome: ExportOutcome)
    ensures
        outcome.json is Ok && outcome.text is Ok ==> outcome_text(outcome) == "Exported "@
            + super::bare_name(outcome.json->Ok_0@) + " and "@ + super::bare_name(
            outcome.text->Ok_0@,
        ),
        outcome.json is Ok && outcome.text is Err ==> outcome_text(outcome) == "Exported "@
            + super::bare_name(outcome.json->Ok_0@) + "; text export failed: "@
            + outcome.text->Err_0@,
        outcome.json is Err && outcome.text is Ok ==> outcome_text(outcome)
            == "JSON export failed: "@ + outcome.json->Err_0@ + "; exported "@ + super::bare_name(
            outcome.text->Ok_0@,
        ),
        outcome.json is Err && outcome.text is Err ==> outcome_text(outcome)
            == "Export failed: JSON: "@ + outcome.json->Err_0@ + "; text: "@
            + outcome.text->Err_0@,
{
}

} // verus!
