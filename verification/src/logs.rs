//! The archive of log files.

use vstd::prelude::*;
use vstd::string::*;

use crate::text::{digits_value, is_digit};

verus! {

/// How the time stands in an archive's name: the date, a hyphen, the time of day, digits only.
pub const STAMP_PATTERN: &'static str = "%Y%m%d-%H%M%S";

/// The number that the two digits from place `i` on write.
pub open spec fn two_digits(s: Seq<char>, i: int) -> nat {
    digits_value(s.subrange(i, i + 2))
}

/// Whether `s` writes a time so: the year in four digits, or in five or six behind a plus sign,
/// and two digits each for the month, the day, the hour, the minute and the second, with a hyphen
/// before the hour. The second may be a leap second, and the year is none before 1969.
pub open spec fn is_stamp(s: Seq<char>) -> bool {
    let n = s.len() as int;
    &&& (is_digit(s[0]) && n == 15) || (s[0] == '+' && 17 <= n <= 18)
    &&& s[n - 7] == '-'
    &&& forall|i: int| 1 <= i < n && i != n - 7 ==> is_digit(#[trigger] s[i])
    &&& n == 15 ==> digits_value(s.take(4)) >= 1969
    &&& n > 15 ==> s[1] != '0'
    &&& 1 <= two_digits(s, n - 11) <= 12
    &&& 1 <= two_digits(s, n - 9) <= 31
    &&& two_digits(s, n - 6) <= 23
    &&& two_digits(s, n - 4) <= 59
    &&& two_digits(s, n - 2) <= 60
}

/// `Local::now` of `chrono`, written by `DateTime::format` as `pattern` says. Claimed is that
/// the text is a time of that form: which one depends on the clock and on the time zone. It
/// panics where the clock stands before 1970, or where the machine's time zone is set to an offset
/// of a day or more. Only the one pattern is asked for: others may be none, and writing by such a
/// one panics.
#[verifier::external_body]
fn local_time(pattern: &str) -> (r: String)
    requires
        pattern@ == STAMP_PATTERN@,
    ensures
        is_stamp(r@),
{
    chrono::Local::now().format(pattern).to_string()
}

/// The name of an archive that was made at the time `stamp`.
pub open spec fn archive_name(stamp: Seq<char>) -> Seq<char> {
    "runde-logs-"@ + stamp + ".zip"@
}

/// The name of an archive that was made at the time `stamp`.
pub fn log_archive_name(stamp: &str) -> (r: String)
    ensures
        r@ == archive_name(stamp@),
{
    "runde-logs-".to_owned().concat(stamp).concat(".zip")
}

/// The name of an archive that is made now.
pub fn log_archive_name_now() -> (r: String)
    ensures
        exists|stamp: Seq<char>| is_stamp(stamp) && r@ == #[trigger] archive_name(stamp),
{
    let stamp = local_time(STAMP_PATTERN);
    log_archive_name(stamp.as_str())
}

/// The name of an archive is a plain file name: it leads into no other directory.
pub proof fn law_archive_name_is_plain(stamp: Seq<char>)
    requires
        is_stamp(stamp),
    ensures
        !archive_name(stamp).contains('/'),
        !archive_name(stamp).contains('\\'),
{
    reveal_strlit("runde-logs-");
    reveal_strlit(".zip");
    let front = "runde-logs-"@;
    let name = archive_name(stamp);
    assert forall|i: int| 0 <= i < name.len() implies #[trigger] name[i] != '/' && name[i]
        != '\\' by {
        if front.len() <= i < front.len() + stamp.len() {
            let c = stamp[i - front.len()];
            assert(name[i] == c);
            assert(is_digit(c) || c == '+' || c == '-');
        }
    }
}

/// An entry of the directory of log files.
pub struct LogEntry {
    pub name: String,
    pub is_file: bool,
}

/// What the export asks for.
#[derive(Clone, Copy, Debug, PartialEq, Eq, Structural)]
pub enum ExportAction {
    /// The next entry of the directory.
    NextEntry,
    /// Add the file that the last entry names to the archive, with what it holds.
    AddFile,
    /// Complete the archive.
    Finish,
    /// End: the archive is complete.
    Done,
    /// End with the error that was met.
    Fail,
}

/// What came of it.
pub enum ExportEvent {
    /// This is the next entry.
    Entry(LogEntry),
    /// There are no more entries.
    NoMoreEntries,
    /// The file is in the archive.
    FileAdded,
    /// The archive is complete.
    Finished,
    /// What was asked for failed.
    Failed,
}

/// What the export asks for after an event. Entries that are no files are passed over.
pub open spec fn export_action(event: ExportEvent) -> ExportAction {
    match event {
        ExportEvent::Entry(entry) => if entry.is_file {
            ExportAction::AddFile
        } else {
            ExportAction::NextEntry
        },
        ExportEvent::NoMoreEntries => ExportAction::Finish,
        ExportEvent::FileAdded => ExportAction::NextEntry,
        ExportEvent::Finished => ExportAction::Done,
        ExportEvent::Failed => ExportAction::Fail,
    }
}

/// Decides what the export asks for after an event. It starts with the first entry.
pub fn export_step(event: &ExportEvent) -> (r: ExportAction)
    ensures
        r == export_action(*event),
{
    match event {
        ExportEvent::Entry(entry) => if entry.is_file {
            ExportAction::AddFile
        } else {
            ExportAction::NextEntry
        },
        ExportEvent::NoMoreEntries => ExportAction::Finish,
        ExportEvent::FileAdded => ExportAction::NextEntry,
        ExportEvent::Finished => ExportAction::Done,
        ExportEvent::Failed => ExportAction::Fail,
    }
}

/// The entries that go into an archive: those that are files, in their order.
pub open spec fn archived(entries: Seq<LogEntry>) -> Seq<LogEntry>
    decreases entries.len(),
{
    if entries.len() == 0 {
        Seq::empty()
    } else if entries[0].is_file {
        seq![entries[0]] + archived(entries.drop_first())
    } else {
        archived(entries.drop_first())
    }
}

/// Where an export stands that runs against a directory.
pub struct Export {
    /// The entries that are still to come.
    pub entries: Seq<LogEntry>,
    /// The last entry that came.
    pub current: Option<LogEntry>,
    /// What the archive holds.
    pub archive: Seq<LogEntry>,
    /// What the export asks for.
    pub action: ExportAction,
}

/// The export at its start.
pub open spec fn start(entries: Seq<LogEntry>) -> Export {
    Export { entries, current: None, archive: Seq::empty(), action: ExportAction::NextEntry }
}

/// One step of an export in which nothing fails.
pub open spec fn step(export: Export) -> Export {
    match export.action {
        ExportAction::NextEntry => if export.entries.len() == 0 {
            Export { action: export_action(ExportEvent::NoMoreEntries), ..export }
        } else {
            Export {
                entries: export.entries.drop_first(),
                current: Some(export.entries[0]),
                action: export_action(ExportEvent::Entry(export.entries[0])),
                ..export
            }
        },
        ExportAction::AddFile => Export {
            archive: export.archive.push(export.current->0),
            action: export_action(ExportEvent::FileAdded),
            ..export
        },
        ExportAction::Finish => Export { action: export_action(ExportEvent::Finished), ..export },
        _ => export,
    }
}

/// `n` steps of an export.
pub open spec fn steps(export: Export, n: nat) -> Export
    decreases n,
{
    if n == 0 {
        export
    } else {
        steps(step(export), (n - 1) as nat)
    }
}

/// Where nothing fails, the export ends, and the archive holds the files of the directory, each
/// once and in their order, and nothing else.
pub proof fn law_archive_holds_the_files(entries: Seq<LogEntry>)
    ensures
        exists|n: nat|
            {
                &&& (#[trigger] steps(start(entries), n)).action == ExportAction::Done
                &&& steps(start(entries), n).archive == archived(entries)
            },
{
    let n = lemma_export(start(entries));
    assert(Seq::<LogEntry>::empty() + archived(entries) =~= archived(entries));
    assert(steps(start(entries), n).action == ExportAction::Done);
}

/// An export that asks for an entry adds the files among those to come, and ends.
proof fn lemma_export(export: Export) -> (n: nat)
    requires
        export.action == ExportAction::NextEntry,
    ensures
        steps(export, n).action == ExportAction::Done,
        steps(export, n).archive == export.archive + archived(export.entries),
    decreases export.entries.len(),
{
    reveal_with_fuel(steps, 3);
    if export.entries.len() == 0 {
        assert(export.archive + archived(export.entries) =~= export.archive);
        2
    } else if export.entries[0].is_file {
        let next = step(step(export));
        let n = lemma_export(next);
        assert(next.archive + archived(next.entries) =~= export.archive + archived(
            export.entries,
        ));
        assert(steps(export, n + 2) == steps(next, n));
        n + 2
    } else {
        let n = lemma_export(step(export));
        assert(steps(export, n + 1) == steps(step(export), n));
        n + 1
    }
}

/// Where nothing fails, the archive holds those entries of the directory that are files, whatever
/// their names.
pub proof fn law_archive_holds_every_file(entries: Seq<LogEntry>)
    ensures
        exists|n: nat|
            {
                &&& (#[trigger] steps(start(entries), n)).action == ExportAction::Done
                &&& steps(start(entries), n).archive == entries.filter(|e: LogEntry| e.is_file)
            },
{
    law_archive_holds_the_files(entries);
    lemma_archived(entries, |e: LogEntry| e.is_file);
    let n = choose|n: nat|
        {
            &&& (#[trigger] steps(start(entries), n)).action == ExportAction::Done
            &&& steps(start(entries), n).archive == archived(entries)
        };
    assert(steps(start(entries), n).action == ExportAction::Done);
}

/// What is archived is what passes the test for files.
proof fn lemma_archived(entries: Seq<LogEntry>, keep: spec_fn(LogEntry) -> bool)
    requires
        forall|e: LogEntry| #[trigger] keep(e) <==> e.is_file,
    ensures
        archived(entries) == entries.filter(keep),
    decreases entries.len(),
{
    reveal(Seq::filter);
    if entries.len() > 0 {
        let init = entries.drop_last();
        let last = entries.last();
        lemma_archived(init, keep);
        lemma_archived_last(entries);
        assert(keep(last) <==> last.is_file);
    } else {
        assert(archived(entries) =~= entries.filter(keep));
    }
}

/// What is archived ends with the last entry where that is a file.
proof fn lemma_archived_last(entries: Seq<LogEntry>)
    requires
        entries.len() > 0,
    ensures
        archived(entries) == (if entries.last().is_file {
            archived(entries.drop_last()).push(entries.last())
        } else {
            archived(entries.drop_last())
        }),
    decreases entries.len(),
{
    let rest = entries.drop_first();
    if entries.len() == 1 {
        assert(archived(rest) =~= Seq::<LogEntry>::empty());
        assert(archived(entries.drop_last()) =~= Seq::<LogEntry>::empty());
        assert(archived(entries) =~= (if entries.last().is_file {
            archived(entries.drop_last()).push(entries.last())
        } else {
            archived(entries.drop_last())
        }));
    } else {
        lemma_archived_last(rest);
        assert(rest.drop_last() =~= entries.drop_last().drop_first());
        assert(rest.last() == entries.last());
        assert(archived(entries) =~= (if entries.last().is_file {
            archived(entries.drop_last()).push(entries.last())
        } else {
            archived(entries.drop_last())
        }));
    }
}

/// The export adds exactly the entries that are files, completes the archive exactly when there are
/// no more, is done exactly when that worked, and fails exactly when anything did.
pub proof fn law_export_order(event: ExportEvent)
    ensures
        export_action(event) == ExportAction::AddFile <==> event is Entry && event->0.is_file,
        export_action(event) == ExportAction::NextEntry <==> event is FileAdded || (event is Entry
            && !event->0.is_file),
        export_action(event) == ExportAction::Finish <==> event is NoMoreEntries,
        export_action(event) == ExportAction::Done <==> event is Finished,
        export_action(event) == ExportAction::Fail <==> event is Failed,
{
}

/// The name of an archive is its time in full, between what every archive's name starts with and
/// what it ends with.
pub proof fn law_archive_name_tells_the_time(stamp: Seq<char>)
    ensures
        archive_name(stamp).len() == 11 + stamp.len() + 4,
        archive_name(stamp).take(11) == "runde-logs-"@,
        archive_name(stamp).subrange(11, 11 + stamp.len() as int) == stamp,
        archive_name(stamp).skip(11 + stamp.len() as int) == ".zip"@,
{
    reveal_strlit("runde-logs-");
    reveal_strlit(".zip");
    assert(archive_name(stamp).take(11) =~= "runde-logs-"@);
    assert(archive_name(stamp).subrange(11, 11 + stamp.len() as int) =~= stamp);
    assert(archive_name(stamp).skip(11 + stamp.len() as int) =~= ".zip"@);
}

} // verus!
