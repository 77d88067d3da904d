//! The journal of managed windows, from which a later instance uncloaks
//! the windows of one that died.

use crate::state::{first_index, lemma_first_index, lemma_first_index_is, lemma_first_index_none};
use crate::text::{
    a_line_end_separates_lines, chars_of, digit, lemma_pieces_hold_no_separator,
    lemma_signed_decimal_reads_back, lemma_trimmed_is_identity, lines, lines_of, parse_signed,
    pieces, push_signed, signed_decimal, signed_of, text_without_a_line_end_is_one_line, trim,
    trimmed, without_return,
};
use std::path::PathBuf;
use vstd::prelude::*;
use vstd::string::StrSliceExecFns;
use vstd::string::StringExecFns;

verus! {

/// Name of the journal file within the config directory.
pub const JOURNAL_FILE_NAME: &'static str = "cloaked-windows.txt";

/// The config directory within the home directory.
pub const HOME_CONFIG_DIR: &'static str = ".glzr/glazewm";

/// `std::path::PathBuf`, which is only carried along: nothing is claimed of
/// what a path holds.
#[verifier::external_type_specification]
#[verifier::external_body]
pub struct ExPathBuf(std::path::PathBuf);

/// Records the windows this instance manages so a later instance can
/// uncloak them if this one dies without cleaning up.
///
/// Cloaking survives process death, so a hard kill of both the window
/// manager and its watcher would otherwise leave windows permanently
/// hidden. The journal is the only way a later instance can tell a window
/// cloaked by a dead instance apart from one parked on another virtual
/// desktop or a suspended app.
#[derive(Debug)]
pub struct CloakJournal {
    /// Path of the journal file, or `None` if no config directory could be
    /// resolved.
    path: Option<PathBuf>,
    /// Entries most recently written, used to skip redundant writes.
    last: Vec<(isize, String)>,
    /// Number of times the journal file has actually been rewritten.
    writes: usize,
}

/// What a [`CloakJournal`] holds.
#[verifier::ext_equal]
pub struct Journal {
    pub path: Option<PathBuf>,
    pub last: Seq<(isize, Seq<char>)>,
    pub writes: int,
}

/// The handle and the process name of each entry.
pub open spec fn entries_view(entries: Seq<(isize, String)>) -> Seq<(isize, Seq<char>)> {
    entries.map_values(|entry: (isize, String)| (entry.0, entry.1@))
}

impl View for CloakJournal {
    type V = Journal;

    closed spec fn view(&self) -> Journal {
        Journal { path: self.path, last: entries_view(self.last@), writes: self.writes as int }
    }
}

/// New contents for the journal file, still to be written.
#[derive(Debug)]
pub struct JournalWrite {
    /// What the file is to hold.
    pub contents: String,
    /// The entries that the contents record.
    pub entries: Vec<(isize, String)>,
}

/// One line of the journal: the handle, a tab and the process name.
pub open spec fn entry_line(entry: (isize, Seq<char>)) -> Seq<char> {
    signed_decimal(entry.0 as int).push('\t') + entry.1
}

/// The journal of `entries`: one line each.
pub open spec fn serialized(entries: Seq<(isize, Seq<char>)>) -> Seq<char>
    decreases entries.len(),
{
    if entries.len() == 0 {
        Seq::empty()
    } else {
        (serialized(entries.drop_last()) + entry_line(entries.last())).push('\n')
    }
}

/// The tabs.
pub open spec fn is_tab() -> spec_fn(char) -> bool {
    |c: char| c == '\t'
}

/// The entry that a line records: a handle, a tab and a process name. The
/// handle may have white space around it, and the process name is not
/// empty.
pub open spec fn line_entry(line: Seq<char>) -> Option<(isize, Seq<char>)> {
    match first_index(line, is_tab()) {
        Some(tab) => {
            let name = line.skip(tab + 1);
            match signed_of(trimmed(line.take(tab))) {
                Some(handle) => if isize::MIN <= handle <= isize::MAX && name.len() > 0 {
                    Some((handle as isize, name))
                } else {
                    None
                },
                None => None,
            }
        },
        None => None,
    }
}

/// The entries that `lines` record, passing over those that record none.
pub open spec fn line_entries(lines: Seq<Seq<char>>) -> Seq<(isize, Seq<char>)>
    decreases lines.len(),
{
    if lines.len() == 0 {
        Seq::empty()
    } else {
        let before = line_entries(lines.drop_last());
        match line_entry(lines.last()) {
            Some(entry) => before.push(entry),
            None => before,
        }
    }
}

/// The entries that a journal records.
pub open spec fn parsed_entries(contents: Seq<char>) -> Seq<(isize, Seq<char>)> {
    line_entries(lines_of(contents))
}

/// The contents that recording `entries` asks to be written: none when the
/// entries are those last written, or there is no journal file.
pub open spec fn record_write(
    journal: Journal,
    entries: Seq<(isize, Seq<char>)>,
) -> Option<Seq<char>> {
    if entries == journal.last || journal.path is None {
        None
    } else {
        Some(serialized(entries))
    }
}

/// The journal once `entries` were handed in: without a journal file they
/// count as written.
pub open spec fn record_after(journal: Journal, entries: Seq<(isize, Seq<char>)>) -> Journal {
    if journal.path is None {
        Journal { last: entries, ..journal }
    } else {
        journal
    }
}

/// The journal once `entries` were written.
pub open spec fn written_after(journal: Journal, entries: Seq<(isize, Seq<char>)>) -> Journal {
    Journal { last: entries, writes: journal.writes + 1, ..journal }
}

/// Whether two lists hold the same entries.
fn same_entries(left: &Vec<(isize, String)>, right: &Vec<(isize, String)>) -> (same: bool)
    ensures
        same == (entries_view(left@) == entries_view(right@)),
{
    let ghost a = entries_view(left@);
    let ghost b = entries_view(right@);
    if left.len() != right.len() {
        assert(a.len() != b.len());
        return false;
    }
    let mut i: usize = 0;
    while i < left.len()
        invariant
            i <= left.len(),
            left.len() == right.len(),
            a == entries_view(left@),
            b == entries_view(right@),
            forall|k: int| 0 <= k < i ==> a[k] == b[k],
        decreases left.len() - i,
    {
        assert(a[i as int] == (left@[i as int].0, left@[i as int].1@));
        assert(b[i as int] == (right@[i as int].0, right@[i as int].1@));
        if left[i].0 != right[i].0 || left[i].1 != right[i].1 {
            return false;
        }
        i += 1;
    }
    assert(a =~= b);
    true
}

impl CloakJournal {
    /// Creates a journal at the resolved path of the journal file, if one
    /// could be resolved.
    #[must_use]
    pub fn new(path: Option<PathBuf>) -> (journal: CloakJournal)
        ensures
            journal@ == (Journal { path, last: Seq::empty(), writes: 0 }),
    {
        let journal = CloakJournal { path, last: Vec::new(), writes: 0 };
        assert(entries_view(journal.last@) =~= Seq::empty());
        journal
    }

    /// Creates a journal at an explicit path.
    pub fn at(path: PathBuf) -> (journal: CloakJournal)
        ensures
            journal@ == (Journal { path: Some(path), last: Seq::empty(), writes: 0 }),
    {
        CloakJournal::new(Some(path))
    }

    /// Path of the journal file.
    pub fn path(&self) -> (path: Option<&PathBuf>)
        ensures
            match path {
                Some(path) => self@.path == Some(*path),
                None => self@.path is None,
            },
    {
        match &self.path {
            Some(path) => Some(path),
            None => None,
        }
    }

    /// Asks for the journal to be rewritten when the managed set changed.
    /// Cheap no-op when unchanged. A write that succeeds is reported to
    /// [`CloakJournal::written`]; one that fails leaves the journal as it
    /// is, so that the same set is tried again.
    pub fn record(&mut self, entries: Vec<(isize, String)>) -> (write: Option<JournalWrite>)
        ensures
            match write {
                Some(write) => {
                    &&& record_write(old(self)@, entries_view(entries@)) == Some(write.contents@)
                    &&& write.entries == entries
                },
                None => record_write(old(self)@, entries_view(entries@)) is None,
            },
            final(self)@ == record_after(old(self)@, entries_view(entries@)),
    {
        if same_entries(&entries, &self.last) {
            return None;
        }
        if self.path.is_none() {
            self.last = entries;
            return None;
        }
        let contents: String = serialize_entries(&entries);
        Some(JournalWrite { contents, entries })
    }

    /// Records that the journal file was rewritten.
    pub fn written(&mut self, write: JournalWrite)
        requires
            old(self)@.writes < usize::MAX,
        ensures
            final(self)@ == written_after(old(self)@, entries_view(write.entries@)),
    {
        self.last = write.entries;
        self.writes += 1;
    }

    /// Starts to uncloak every journalled window that is still cloaked and
    /// still belongs to the recorded process, after which the journal is
    /// deleted. `contents` is `None` if there is no journal to be read, in
    /// which case there is nothing to do.
    pub fn recover(contents: Option<&str>) -> (recovery: Recovery)
        ensures
            recovery@ == (Recovering {
                entries: match contents {
                    Some(contents) => parsed_entries(contents@),
                    None => Seq::empty(),
                },
                settled: 0,
                stage: UncloakStage::CheckValid,
                recovered: 0,
                found: contents is Some,
            }),
            recovery@.well_formed(),
    {
        let found: bool = contents.is_some();
        let entries: Vec<(isize, String)> = match contents {
            Some(contents) => parse_entries(contents),
            None => Vec::new(),
        };
        if contents.is_none() {
            assert(entries_view(entries@) =~= Seq::empty());
        }
        Recovery { entries, settled: 0, stage: UncloakStage::CheckValid, recovered: 0, found }
    }

    /// Number of times the journal file has been rewritten.
    pub fn writes(&self) -> (writes: usize)
        ensures
            writes == self@.writes,
    {
        self.writes
    }
}

/// The directory that holds the journal: beside the config file where that
/// was named, else the config directory within the home directory.
pub fn journal_dir(beside_config: Option<PathBuf>, within_home: Option<PathBuf>) -> (dir: Option<
    PathBuf,
>)
    ensures
        dir == if beside_config is Some {
            beside_config
        } else {
            within_home
        },
{
    match beside_config {
        Some(dir) => Some(dir),
        None => within_home,
    }
}

/// Serializes entries as one `<handle><TAB><process name>` line each.
///
/// Handles are written as decimal integers.
pub fn serialize_entries(entries: &[(isize, String)]) -> (contents: String)
    ensures
        contents@ == serialized(entries_view(entries@)),
{
    let ghost all = entries_view(entries@);
    let mut contents: String = String::new();
    let mut i: usize = 0;
    assert(all.take(0) =~= Seq::empty());
    while i < entries.len()
        invariant
            i <= entries.len(),
            all == entries_view(entries@),
            contents@ == serialized(all.take(i as int)),
        decreases entries.len() - i,
    {
        let ghost before = contents@;
        proof {
            reveal_strlit("\t");
            reveal_strlit("\n");
            assert(all.take(i + 1).drop_last() =~= all.take(i as int));
            assert(all[i as int] == (entries@[i as int].0, entries@[i as int].1@));
        }
        push_signed(&mut contents, entries[i].0);
        contents.append("\t");
        contents.append(entries[i].1.as_str());
        contents.append("\n");
        assert(contents@ =~= (before + entry_line(all[i as int])).push('\n'));
        i += 1;
    }
    assert(all.take(i as int) =~= all);
    contents
}

/// The entry that a line records.
fn parse_line(line: &str) -> (entry: Option<(isize, String)>)
    ensures
        match entry {
            Some(entry) => line_entry(line@) == Some((entry.0, entry.1@)),
            None => line_entry(line@) is None,
        },
{
    let chars: Vec<char> = chars_of(line);
    let mut tab: usize = 0;
    while tab < chars.len() && chars[tab] != '\t'
        invariant
            tab <= chars.len(),
            chars@ == line@,
            forall|k: int| 0 <= k < tab ==> !is_tab()(#[trigger] line@[k]),
        decreases chars.len() - tab,
    {
        tab += 1;
    }
    if tab == chars.len() {
        proof {
            lemma_first_index_none(line@, is_tab());
        }
        return None;
    }
    proof {
        lemma_first_index_is(line@, is_tab(), tab as int);
    }
    let handle: &str = line.substring_char(0, tab);
    let name: &str = line.substring_char(tab + 1, chars.len());
    proof {
        assert(handle@ =~= line@.take(tab as int));
        assert(name@ =~= line@.skip(tab + 1));
    }
    match parse_signed(trim(handle)) {
        Some(handle) => if name.is_empty() {
            None
        } else {
            Some((handle, name.to_owned()))
        },
        None => None,
    }
}

/// Parses journal contents, skipping malformed lines.
pub fn parse_entries(contents: &str) -> (entries: Vec<(isize, String)>)
    ensures
        entries_view(entries@) == parsed_entries(contents@),
{
    let all: Vec<&str> = lines(contents);
    let ghost views = all@.map_values(|line: &str| line@);
    let mut entries: Vec<(isize, String)> = Vec::new();
    let mut i: usize = 0;
    proof {
        assert(views.take(0) =~= Seq::<Seq<char>>::empty());
        assert(entries_view(entries@) =~= Seq::empty());
    }
    while i < all.len()
        invariant
            i <= all.len(),
            views == all@.map_values(|line: &str| line@),
            entries_view(entries@) == line_entries(views.take(i as int)),
        decreases all.len() - i,
    {
        let ghost before = entries_view(entries@);
        proof {
            assert(views.take(i + 1).drop_last() =~= views.take(i as int));
            assert(views[i as int] == all@[i as int]@);
        }
        if let Some(entry) = parse_line(all[i]) {
            entries.push(entry);
            assert(entries_view(entries@) =~= before.push((entry.0, entry.1@)));
        }
        i += 1;
    }
    assert(views.take(i as int) =~= views);
    entries
}

/// What has to be known or done next about a journalled window.
#[derive(Clone, Copy, Debug, PartialEq, Eq, Structural)]
pub enum UncloakStage {
    /// Whether its handle is still valid.
    CheckValid,
    /// Whether it is still cloaked.
    CheckCloaked,
    /// Which process it belongs to.
    CheckProcess,
    /// It is the same window: uncloak it.
    Uncloak,
    /// Settled, with whether it was uncloaked.
    Done(bool),
}

/// What the platform had to say about a window.
#[derive(Debug)]
pub enum UncloakReply {
    /// Whether its handle is valid.
    Valid(bool),
    /// Whether it is cloaked, or `None` if that could not be told.
    Cloaked(Option<bool>),
    /// The name of its process, or `None` if that could not be told.
    ProcessName(Option<String>),
    /// Whether uncloaking it succeeded.
    Uncloaked(bool),
}

/// What an [`UncloakReply`] holds.
pub enum UncloakAnswer {
    Valid(bool),
    Cloaked(Option<bool>),
    ProcessName(Option<Seq<char>>),
    Uncloaked(bool),
}

impl View for UncloakReply {
    type V = UncloakAnswer;

    open spec fn view(&self) -> UncloakAnswer {
        match *self {
            UncloakReply::Valid(valid) => UncloakAnswer::Valid(valid),
            UncloakReply::Cloaked(cloaked) => UncloakAnswer::Cloaked(cloaked),
            UncloakReply::ProcessName(name) => UncloakAnswer::ProcessName(
                match name {
                    Some(name) => Some(name@),
                    None => None,
                },
            ),
            UncloakReply::Uncloaked(uncloaked) => UncloakAnswer::Uncloaked(uncloaked),
        }
    }
}

/// The stage after a reply: the next one while the window is still the one
/// that was journalled for `process_name`, else `Done`. A reply to some
/// other question leaves the stage as it is.
pub open spec fn next_stage(
    stage: UncloakStage,
    process_name: Seq<char>,
    answer: UncloakAnswer,
) -> UncloakStage {
    match (stage, answer) {
        (UncloakStage::CheckValid, UncloakAnswer::Valid(valid)) => if valid {
            UncloakStage::CheckCloaked
        } else {
            UncloakStage::Done(false)
        },
        (UncloakStage::CheckCloaked, UncloakAnswer::Cloaked(cloaked)) => if cloaked == Some(true) {
            UncloakStage::CheckProcess
        } else {
            UncloakStage::Done(false)
        },
        (UncloakStage::CheckProcess, UncloakAnswer::ProcessName(name)) => if name == Some(
            process_name,
        ) {
            UncloakStage::Uncloak
        } else {
            UncloakStage::Done(false)
        },
        (UncloakStage::Uncloak, UncloakAnswer::Uncloaked(uncloaked)) => UncloakStage::Done(
            uncloaked,
        ),
        _ => stage,
    }
}

/// Uncloaks a single journalled window if it is still the same window, one
/// step at a time.
///
/// Guards against uncloaking windows that were never cloaked by a window
/// manager: the handle must still be valid, still report as cloaked, and
/// still belong to the journalled process.
pub fn uncloak_entry(stage: UncloakStage, process_name: &str, reply: &UncloakReply) -> (next:
    UncloakStage)
    ensures
        next == next_stage(stage, process_name@, reply@),
{
    match (stage, reply) {
        (UncloakStage::CheckValid, UncloakReply::Valid(valid)) => if *valid {
            UncloakStage::CheckCloaked
        } else {
            UncloakStage::Done(false)
        },
        (UncloakStage::CheckCloaked, UncloakReply::Cloaked(cloaked)) => match cloaked {
            Some(true) => UncloakStage::CheckProcess,
            _ => UncloakStage::Done(false),
        },
        (UncloakStage::CheckProcess, UncloakReply::ProcessName(name)) => match name {
            Some(name) => if *name == process_name.to_owned() {
                UncloakStage::Uncloak
            } else {
                UncloakStage::Done(false)
            },
            None => UncloakStage::Done(false),
        },
        (UncloakStage::Uncloak, UncloakReply::Uncloaked(uncloaked)) => UncloakStage::Done(
            *uncloaked,
        ),
        _ => stage,
    }
}

/// What the platform is asked to do for a recovery. Each question about a
/// window is answered through [`Recovery::reply`].
#[derive(Clone, Copy, Debug, PartialEq, Eq, Structural)]
pub enum RecoveryAction {
    /// Tell whether the handle is valid.
    IsValid(isize),
    /// Tell whether the window is cloaked.
    IsCloaked(isize),
    /// Tell the name of the window's process.
    ProcessName(isize),
    /// Uncloak the window.
    Uncloak(isize),
    /// Every window is settled: delete the journal, where there is one.
    Finish { delete_journal: bool },
}

/// Goes through a journal, uncloaking every window in it that is still
/// cloaked and still belongs to the recorded process.
#[derive(Debug)]
pub struct Recovery {
    /// The entries of the journal.
    entries: Vec<(isize, String)>,
    /// The number of entries that are settled.
    settled: usize,
    /// The stage of the first entry that is not.
    stage: UncloakStage,
    /// The number of windows uncloaked.
    recovered: usize,
    /// Whether there was a journal.
    found: bool,
}

/// What a [`Recovery`] holds.
#[verifier::ext_equal]
pub struct Recovering {
    pub entries: Seq<(isize, Seq<char>)>,
    pub settled: int,
    pub stage: UncloakStage,
    pub recovered: int,
    pub found: bool,
}

impl View for Recovery {
    type V = Recovering;

    closed spec fn view(&self) -> Recovering {
        Recovering {
            entries: entries_view(self.entries@),
            settled: self.settled as int,
            stage: self.stage,
            recovered: self.recovered as int,
            found: self.found,
        }
    }
}

impl Recovering {
    /// No more windows are uncloaked than are settled, and the current
    /// window is not settled.
    pub open spec fn well_formed(self) -> bool {
        &&& 0 <= self.recovered <= self.settled <= self.entries.len()
        &&& !(self.stage is Done)
    }

    /// What has to be done next.
    pub open spec fn action(self) -> RecoveryAction {
        if self.settled < self.entries.len() {
            let handle = self.entries[self.settled].0;
            match self.stage {
                UncloakStage::CheckValid => RecoveryAction::IsValid(handle),
                UncloakStage::CheckCloaked => RecoveryAction::IsCloaked(handle),
                UncloakStage::CheckProcess => RecoveryAction::ProcessName(handle),
                _ => RecoveryAction::Uncloak(handle),
            }
        } else {
            RecoveryAction::Finish { delete_journal: self.found }
        }
    }

    /// The recovery after a reply about the current window. Once the window
    /// is settled the next one's turn comes.
    pub open spec fn after(self, answer: UncloakAnswer) -> Recovering {
        if self.settled < self.entries.len() {
            match next_stage(self.stage, self.entries[self.settled].1, answer) {
                UncloakStage::Done(uncloaked) => Recovering {
                    settled: self.settled + 1,
                    stage: UncloakStage::CheckValid,
                    recovered: self.recovered + if uncloaked {
                        1int
                    } else {
                        0
                    },
                    ..self
                },
                stage => Recovering { stage, ..self },
            }
        } else {
            self
        }
    }
}

impl Recovery {
    #[verifier::type_invariant]
    spec fn inv(self) -> bool {
        self@.well_formed()
    }

    /// What has to be done next.
    pub fn action(&self) -> (action: RecoveryAction)
        ensures
            action == self@.action(),
    {
        proof {
            use_type_invariant(self);
        }
        if self.settled < self.entries.len() {
            let handle: isize = self.entries[self.settled].0;
            assert(self@.entries[self@.settled].0 == handle);
            match self.stage {
                UncloakStage::CheckValid => RecoveryAction::IsValid(handle),
                UncloakStage::CheckCloaked => RecoveryAction::IsCloaked(handle),
                UncloakStage::CheckProcess => RecoveryAction::ProcessName(handle),
                _ => RecoveryAction::Uncloak(handle),
            }
        } else {
            RecoveryAction::Finish { delete_journal: self.found }
        }
    }

    /// Takes what came of the action.
    pub fn reply(&mut self, reply: &UncloakReply)
        ensures
            final(self)@ == old(self)@.after(reply@),
            final(self)@.well_formed(),
    {
        proof {
            use_type_invariant(&*self);
        }
        if self.settled < self.entries.len() {
            assert(self@.entries[self@.settled].1 == self.entries@[self.settled as int].1@);
            match uncloak_entry(self.stage, self.entries[self.settled].1.as_str(), reply) {
                UncloakStage::Done(uncloaked) => {
                    self.settled += 1;
                    self.stage = UncloakStage::CheckValid;
                    if uncloaked {
                        self.recovered += 1;
                    }
                },
                stage => {
                    self.stage = stage;
                },
            }
        }
    }

    /// The number of windows uncloaked. The count is informational; the
    /// recovery itself is the side effect that matters.
    pub fn recovered(&self) -> (recovered: usize)
        ensures
            recovered == self@.recovered,
    {
        self.recovered
    }

    /// The number of windows in the journal.
    pub fn journalled(&self) -> (journalled: usize)
        ensures
            journalled == self@.entries.len(),
    {
        self.entries.len()
    }
}

/// Whether a process name can be written to a line and read back: it is
/// not empty, holds no line feed, and does not end in a carriage return,
/// which would be taken for a part of the line end.
pub open spec fn writable(name: Seq<char>) -> bool {
    name.len() > 0 && !name.contains('\n') && name.last() != '\r'
}

/// The lines of `entries`.
spec fn entry_lines(entries: Seq<(isize, Seq<char>)>) -> Seq<Seq<char>> {
    entries.map_values(|entry: (isize, Seq<char>)| entry_line(entry))
}

/// Text without a separator extends the last piece.
proof fn lemma_pieces_extended(text: Seq<char>, separator: char, more: Seq<char>)
    requires
        !more.contains(separator),
    ensures
        pieces(text, separator).len() > 0,
        pieces(text + more, separator) == pieces(text, separator).drop_last().push(
            pieces(text, separator).last() + more,
        ),
    decreases more.len(),
{
    lemma_pieces_hold_no_separator(text, separator);
    let before = pieces(text, separator);
    if more.len() == 0 {
        assert(text + more =~= text);
        assert(before.last() + more =~= before.last());
        assert(before.drop_last().push(before.last()) =~= before);
    } else {
        let head = more.drop_last();
        assert forall|i: int| 0 <= i < head.len() implies head[i] != separator by {
            assert(more[i] == head[i]);
        }
        lemma_pieces_extended(text, separator, head);
        assert((text + more).drop_last() =~= text + head);
        assert(more[more.len() - 1] == more.last());
        let part = before.drop_last().push(before.last() + head);
        assert(part.drop_last() =~= before.drop_last());
        assert((before.last() + head).push(more.last()) =~= before.last() + more);
    }
}

/// A written line holds no line feed, and reading it gives the entry back.
proof fn lemma_entry_line(entry: (isize, Seq<char>))
    requires
        writable(entry.1),
    ensures
        !entry_line(entry).contains('\n'),
        without_return(entry_line(entry)) == entry_line(entry),
        line_entry(entry_line(entry)) == Some(entry),
{
    let line = entry_line(entry);
    let handle = signed_decimal(entry.0 as int);
    let tab = handle.len() as int;
    lemma_signed_decimal_reads_back(entry.0 as int);
    assert forall|i: int| 0 <= i < line.len() implies line[i] != '\n' by {
        if i < tab {
            assert(line[i] == handle[i]);
            assert(digit(handle[i]) || handle[i] == '-');
        } else if i > tab {
            assert(line[i] == entry.1[i - tab - 1]);
        }
    }
    assert(line.last() == entry.1.last());
    assert forall|i: int| 0 <= i < tab implies !is_tab()(#[trigger] line[i]) by {
        assert(line[i] == handle[i]);
        assert(digit(handle[i]) || handle[i] == '-');
    }
    assert(line[tab] == '\t');
    lemma_first_index_is(line, is_tab(), tab);
    assert(line.take(tab) =~= handle);
    assert(line.skip(tab + 1) =~= entry.1);
    assert(digit(handle[0]) || handle[0] == '-');
    assert(digit(handle[tab - 1]) || handle[tab - 1] == '-');
    lemma_trimmed_is_identity(handle);
}

/// The pieces of a written journal are its lines and an empty end.
proof fn lemma_serialized_pieces(entries: Seq<(isize, Seq<char>)>)
    requires
        forall|i: int| 0 <= i < entries.len() ==> writable((#[trigger] entries[i]).1),
    ensures
        pieces(serialized(entries), '\n') == entry_lines(entries).push(Seq::empty()),
    decreases entries.len(),
{
    if entries.len() == 0 {
        assert(entry_lines(entries).push(Seq::empty()) =~= seq![Seq::empty()]);
    } else {
        let head = entries.drop_last();
        assert forall|i: int| 0 <= i < head.len() implies writable((#[trigger] head[i]).1) by {
            assert(entries[i] == head[i]);
        }
        lemma_serialized_pieces(head);
        assert(writable(entries[entries.len() - 1].1));
        let line = entry_line(entries.last());
        lemma_entry_line(entries.last());
        lemma_pieces_extended(serialized(head), '\n', line);
        let longer = serialized(head) + line;
        assert(entry_lines(head).push(Seq::empty()).drop_last() =~= entry_lines(head));
        assert(Seq::<char>::empty() + line =~= line);
        assert(pieces(longer, '\n') == entry_lines(head).push(line));
        assert(longer.push('\n').drop_last() =~= longer);
        assert(entry_lines(entries) =~= entry_lines(head).push(line));
    }
}

/// Reading the lines of entries gives the entries back.
proof fn lemma_line_entries(entries: Seq<(isize, Seq<char>)>)
    requires
        forall|i: int| 0 <= i < entries.len() ==> writable((#[trigger] entries[i]).1),
    ensures
        line_entries(entry_lines(entries)) == entries,
    decreases entries.len(),
{
    if entries.len() > 0 {
        let head = entries.drop_last();
        assert forall|i: int| 0 <= i < head.len() implies writable((#[trigger] head[i]).1) by {
            assert(entries[i] == head[i]);
        }
        lemma_line_entries(head);
        assert(writable(entries[entries.len() - 1].1));
        lemma_entry_line(entries.last());
        assert(entry_lines(entries).drop_last() =~= entry_lines(head));
        assert(head.push(entries.last()) =~= entries);
    } else {
        assert(line_entries(entry_lines(entries)) =~= entries);
    }
}

/// Reading a written journal gives its entries back.
pub proof fn journal_round_trips(entries: Seq<(isize, Seq<char>)>)
    requires
        forall|i: int| 0 <= i < entries.len() ==> writable((#[trigger] entries[i]).1),
    ensures
        parsed_entries(serialized(entries)) == entries,
{
    lemma_serialized_pieces(entries);
    let all = entry_lines(entries);
    let parts = pieces(serialized(entries), '\n');
    assert(parts.drop_last() =~= all);
    assert forall|i: int| 0 <= i < all.len() implies without_return(#[trigger] all[i]) == all[i] by {
        assert(writable(entries[i].1));
        lemma_entry_line(entries[i]);
    }
    assert(parts.drop_last().map_values(|line: Seq<char>| without_return(line)) =~= all);
    lemma_line_entries(entries);
}

/// Recording the set that was last written asks for no write, and changes
/// nothing.
pub proof fn unchanged_set_is_not_rewritten(journal: Journal, entries: Seq<(isize, Seq<char>)>)
    ensures
        record_write(written_after(journal, entries), entries) is None,
        record_after(written_after(journal, entries), entries) == written_after(journal, entries),
{
    assert(record_after(written_after(journal, entries), entries) =~= written_after(
        journal,
        entries,
    ));
}

/// All that a recovery can learn of a window, and whether uncloaking it
/// succeeds.
pub struct WindowFacts {
    pub valid: bool,
    pub cloaked: Option<bool>,
    pub process_name: Option<Seq<char>>,
    pub uncloaks: bool,
}

impl WindowFacts {
    /// The reply that the window gives at a stage.
    pub open spec fn answer(self, stage: UncloakStage) -> UncloakAnswer {
        match stage {
            UncloakStage::CheckValid => UncloakAnswer::Valid(self.valid),
            UncloakStage::CheckCloaked => UncloakAnswer::Cloaked(self.cloaked),
            UncloakStage::CheckProcess => UncloakAnswer::ProcessName(self.process_name),
            _ => UncloakAnswer::Uncloaked(self.uncloaks),
        }
    }

    /// What the window says to a question.
    pub open spec fn answer_to(self, action: RecoveryAction) -> UncloakAnswer {
        match action {
            RecoveryAction::IsValid(_) => UncloakAnswer::Valid(self.valid),
            RecoveryAction::IsCloaked(_) => UncloakAnswer::Cloaked(self.cloaked),
            RecoveryAction::ProcessName(_) => UncloakAnswer::ProcessName(self.process_name),
            _ => UncloakAnswer::Uncloaked(self.uncloaks),
        }
    }

    /// Whether this is the window that was journalled for a process, and
    /// still cloaked.
    pub open spec fn left_cloaked(self, process_name: Seq<char>) -> bool {
        self.valid && self.cloaked == Some(true) && self.process_name == Some(process_name)
    }
}

/// The number of replies that a stage is at most away from its end.
pub open spec fn replies_left(stage: UncloakStage) -> nat {
    match stage {
        UncloakStage::CheckValid => 4,
        UncloakStage::CheckCloaked => 3,
        UncloakStage::CheckProcess => 2,
        UncloakStage::Uncloak => 1,
        UncloakStage::Done(_) => 0,
    }
}

/// The recovery once every question that it asks is answered by the window
/// it is about.
pub open spec fn run(recovery: Recovering, facts: Seq<WindowFacts>) -> Recovering
    decreases
            recovery.entries.len() - recovery.settled,
            replies_left(recovery.stage),
    when recovery.well_formed() && recovery.entries.len() == facts.len()
{
    match recovery.action() {
        RecoveryAction::Finish { .. } => recovery,
        action => run(recovery.after(facts[recovery.settled].answer_to(action)), facts),
    }
}

/// The number of windows from `from` on that are left cloaked and can be
/// uncloaked.
pub open spec fn uncloakable(
    entries: Seq<(isize, Seq<char>)>,
    facts: Seq<WindowFacts>,
    from: int,
) -> int
    decreases entries.len() - from,
{
    if from < entries.len() {
        uncloakable(entries, facts, from + 1) + if facts[from].left_cloaked(entries[from].1)
            && facts[from].uncloaks {
            1int
        } else {
            0
        }
    } else {
        0
    }
}

/// The run of one window, from the first stage on.
proof fn lemma_run_of_window(recovery: Recovering, facts: Seq<WindowFacts>)
    requires
        recovery.well_formed(),
        recovery.stage is CheckValid,
        recovery.entries.len() == facts.len(),
        recovery.settled < recovery.entries.len(),
    ensures
        run(recovery, facts) == run(
            Recovering {
                settled: recovery.settled + 1,
                recovered: recovery.recovered + if facts[recovery.settled].left_cloaked(
                    recovery.entries[recovery.settled].1,
                ) && facts[recovery.settled].uncloaks {
                    1int
                } else {
                    0
                },
                ..recovery
            },
            facts,
        ),
{
    reveal_with_fuel(run, 5);
}

/// Recovery uncloaks as many windows as are valid, cloaked, of the
/// journalled process and can be uncloaked; it settles every window, and
/// then asks for the journal to be deleted.
pub proof fn recovery_uncloaks_what_was_left_cloaked(
    recovery: Recovering,
    facts: Seq<WindowFacts>,
)
    requires
        recovery.well_formed(),
        recovery.stage is CheckValid,
        recovery.entries.len() == facts.len(),
    ensures
        run(recovery, facts).recovered == recovery.recovered + uncloakable(
            recovery.entries,
            facts,
            recovery.settled,
        ),
        run(recovery, facts).action() == (RecoveryAction::Finish {
            delete_journal: recovery.found,
        }),
        run(recovery, facts).entries == recovery.entries,
        run(recovery, facts).settled == recovery.entries.len(),
    decreases recovery.entries.len() - recovery.settled,
{
    if recovery.settled < recovery.entries.len() {
        lemma_run_of_window(recovery, facts);
        recovery_uncloaks_what_was_left_cloaked(
            Recovering {
                settled: recovery.settled + 1,
                recovered: recovery.recovered + if facts[recovery.settled].left_cloaked(
                    recovery.entries[recovery.settled].1,
                ) && facts[recovery.settled].uncloaks {
                    1int
                } else {
                    0
                },
                ..recovery
            },
            facts,
        );
    }
}

/// The stage of a window with the given facts after a number of replies.
pub open spec fn stage_after(
    process_name: Seq<char>,
    facts: WindowFacts,
    replies: nat,
) -> UncloakStage
    decreases replies,
{
    if replies == 0 {
        UncloakStage::CheckValid
    } else {
        let stage = stage_after(process_name, facts, (replies - 1) as nat);
        next_stage(stage, process_name, facts.answer(stage))
    }
}

/// A window is asked to be uncloaked only if it is valid, cloaked, and of
/// the journalled process.
pub proof fn only_windows_left_cloaked_are_uncloaked(
    process_name: Seq<char>,
    facts: WindowFacts,
    replies: nat,
)
    requires
        stage_after(process_name, facts, replies) is Uncloak,
    ensures
        facts.left_cloaked(process_name),
{
    lemma_stage_after(process_name, facts, replies);
}

/// What is known of a window at each stage.
proof fn lemma_stage_after(process_name: Seq<char>, facts: WindowFacts, replies: nat)
    ensures
        match stage_after(process_name, facts, replies) {
            UncloakStage::CheckValid => true,
            UncloakStage::CheckCloaked => facts.valid,
            UncloakStage::CheckProcess => facts.valid && facts.cloaked == Some(true),
            UncloakStage::Uncloak => facts.left_cloaked(process_name),
            UncloakStage::Done(uncloaked) => uncloaked ==> facts.left_cloaked(process_name),
        },
    decreases replies,
{
    if replies > 0 {
        lemma_stage_after(process_name, facts, (replies - 1) as nat);
    }
}

/// Each question is about the first window that is not settled. When there
/// is none left, and only then, the recovery is finished, and the journal is
/// to be deleted where there was one.
pub proof fn each_question_is_about_the_next_window(recovery: Recovering)
    requires
        recovery.well_formed(),
    ensures
        match recovery.action() {
            RecoveryAction::Finish { delete_journal } => recovery.settled == recovery.entries.len()
                && delete_journal == recovery.found,
            RecoveryAction::IsValid(handle) => recovery.settled < recovery.entries.len() && handle
                == recovery.entries[recovery.settled].0,
            RecoveryAction::IsCloaked(handle) => recovery.settled < recovery.entries.len()
                && handle == recovery.entries[recovery.settled].0,
            RecoveryAction::ProcessName(handle) => recovery.settled < recovery.entries.len()
                && handle == recovery.entries[recovery.settled].0,
            RecoveryAction::Uncloak(handle) => recovery.settled < recovery.entries.len() && handle
                == recovery.entries[recovery.settled].0,
        },
{
}

/// The recovery after a number of answered questions.
pub open spec fn answered(recovery: Recovering, facts: Seq<WindowFacts>, questions: nat) -> Recovering
    decreases questions,
{
    if questions == 0 {
        recovery
    } else {
        let before = answered(recovery, facts, (questions - 1) as nat);
        before.after(facts[before.settled].answer_to(before.action()))
    }
}

/// What is known of the current window at the stage of a recovery.
spec fn known(recovery: Recovering, facts: Seq<WindowFacts>) -> bool {
    recovery.settled < recovery.entries.len() ==> {
        let fact = facts[recovery.settled];
        match recovery.stage {
            UncloakStage::CheckValid => true,
            UncloakStage::CheckCloaked => fact.valid,
            UncloakStage::CheckProcess => fact.valid && fact.cloaked == Some(true),
            _ => fact.left_cloaked(recovery.entries[recovery.settled].1),
        }
    }
}

/// What is known after a number of answered questions.
proof fn lemma_answered(recovery: Recovering, facts: Seq<WindowFacts>, questions: nat)
    requires
        recovery.well_formed(),
        recovery.stage is CheckValid,
    ensures
        answered(recovery, facts, questions).well_formed(),
        answered(recovery, facts, questions).entries == recovery.entries,
        answered(recovery, facts, questions).found == recovery.found,
        known(answered(recovery, facts, questions), facts),
    decreases questions,
{
    if questions > 0 {
        lemma_answered(recovery, facts, (questions - 1) as nat);
    }
}

/// Whenever a recovery asks for a window to be uncloaked, that is the
/// journalled window whose turn it is, and it is valid, cloaked, and of the
/// journalled process.
pub proof fn a_recovery_uncloaks_no_other_window(
    recovery: Recovering,
    facts: Seq<WindowFacts>,
    questions: nat,
    handle: isize,
)
    requires
        recovery.well_formed(),
        recovery.stage is CheckValid,
        answered(recovery, facts, questions).action() == RecoveryAction::Uncloak(handle),
    ensures
        ({
            let at = answered(recovery, facts, questions).settled;
            &&& 0 <= at < recovery.entries.len()
            &&& handle == recovery.entries[at].0
            &&& facts[at].left_cloaked(recovery.entries[at].1)
        }),
{
    lemma_answered(recovery, facts, questions);
}

/// Whether an answer is one to the question of a stage.
pub open spec fn is_about(answer: UncloakAnswer, stage: UncloakStage) -> bool {
    match stage {
        UncloakStage::CheckValid => answer is Valid,
        UncloakStage::CheckCloaked => answer is Cloaked,
        UncloakStage::CheckProcess => answer is ProcessName,
        UncloakStage::Uncloak => answer is Uncloaked,
        UncloakStage::Done(_) => false,
    }
}

/// A reply to some other question changes nothing, and one to the question
/// at hand always leads on.
pub proof fn only_a_fitting_reply_leads_on(
    stage: UncloakStage,
    process_name: Seq<char>,
    answer: UncloakAnswer,
)
    ensures
        next_stage(stage, process_name, answer) == stage <==> !is_about(answer, stage),
        is_about(answer, stage) ==> replies_left(next_stage(stage, process_name, answer))
            < replies_left(stage),
{
}

/// With a journal file, recording a set that differs from the one last
/// written asks for a write of the lines of its entries, which read as that
/// set where its names can be written, and leaves the
/// journal as it is until the write is reported. Recording the set last
/// written does nothing. Without a file no write is asked for, and the set
/// counts as written.
pub proof fn a_changed_set_is_rewritten(journal: Journal, entries: Seq<(isize, Seq<char>)>)
    ensures
        journal.path is Some && entries != journal.last ==> {
            &&& record_write(journal, entries) matches Some(contents)
            &&& contents == serialized(entries)
            &&& (forall|i: int| 0 <= i < entries.len() ==> writable((#[trigger] entries[i]).1))
                ==> parsed_entries(contents) == entries
        },
        journal.path is None || entries == journal.last ==> record_write(journal, entries) is None,
        journal.path is Some || entries == journal.last ==> record_after(journal, entries)
            == journal,
        journal.path is None ==> record_after(journal, entries).last == entries && record_after(
            journal,
            entries,
        ).path is None && record_after(journal, entries).writes == journal.writes,
{
    if forall|i: int| 0 <= i < entries.len() ==> writable((#[trigger] entries[i]).1) {
        journal_round_trips(entries);
    }
    assert(entries == journal.last ==> record_after(journal, entries) =~= journal);
}

/// A reported write is remembered as the last set, and counted.
pub proof fn a_write_is_remembered_and_counted(journal: Journal, entries: Seq<(isize, Seq<char>)>)
    ensures
        written_after(journal, entries).last == entries,
        written_after(journal, entries).writes == journal.writes + 1,
        written_after(journal, entries).path == journal.path,
{
}

/// A journal is the lines of its entries, one behind the other: of each the
/// handle in decimal, a tab, the process name and a line feed.
pub proof fn a_journal_is_one_line_per_entry(
    entries: Seq<(isize, Seq<char>)>,
    more: Seq<(isize, Seq<char>)>,
    entry: (isize, Seq<char>),
)
    ensures
        serialized(entries + more) == serialized(entries) + serialized(more),
        serialized(seq![entry]) == signed_decimal(entry.0 as int) + seq!['\t'] + entry.1 + seq![
            '\n',
        ],
        serialized(Seq::empty()) == Seq::<char>::empty(),
    decreases more.len(),
{
    let all = entries + more;
    if more.len() > 0 {
        let head = more.drop_last();
        a_journal_is_one_line_per_entry(entries, head, entry);
        assert(all.drop_last() =~= entries + head);
        assert(serialized(all) =~= serialized(entries) + serialized(more));
    } else {
        assert(all =~= entries);
        assert(serialized(all) =~= serialized(entries) + serialized(more));
    }
    let one = seq![entry];
    assert(one.drop_last() =~= Seq::<(isize, Seq<char>)>::empty());
    assert(serialized(one.drop_last()) =~= Seq::<char>::empty());
    assert(serialized(one) =~= signed_decimal(entry.0 as int) + seq!['\t'] + entry.1 + seq!['\n']);
}

/// Whether a line records an entry at a tab: a number before it, with white
/// space around it or not, and something behind it.
pub open spec fn records(line: Seq<char>, tab: int, entry: (isize, Seq<char>)) -> bool {
    &&& 0 <= tab < line.len()
    &&& line[tab] == '\t'
    &&& forall|k: int| 0 <= k < tab ==> #[trigger] line[k] != '\t'
    &&& signed_of(trimmed(line.take(tab))) == Some(entry.0 as int)
    &&& entry.1 == line.skip(tab + 1)
    &&& entry.1.len() > 0
}

/// A line records the entry that its first tab separates, and none where
/// there is no such entry.
pub proof fn a_line_records_what_its_first_tab_separates(
    line: Seq<char>,
    entry: (isize, Seq<char>),
)
    ensures
        line_entry(line) == Some(entry) <==> exists|tab: int| #[trigger] records(line, tab, entry),
{
    lemma_first_index(line, is_tab());
    if exists|tab: int| #[trigger] records(line, tab, entry) {
        let tab = choose|tab: int| #[trigger] records(line, tab, entry);
        assert forall|k: int| 0 <= k < tab implies !is_tab()(#[trigger] line[k]) by {
            assert(line[k] != '\t');
        }
        lemma_first_index_is(line, is_tab(), tab);
    }
    if line_entry(line) == Some(entry) {
        let tab = first_index(line, is_tab())->0;
        assert(is_tab()(line[tab]));
        assert forall|k: int| 0 <= k < tab implies #[trigger] line[k] != '\t' by {
            assert(!is_tab()(line[k]));
        }
        assert(records(line, tab, entry));
    }
}

/// The entries of two lists of lines are those of one and then the other.
proof fn lemma_line_entries_of_two(left: Seq<Seq<char>>, right: Seq<Seq<char>>)
    ensures
        line_entries(left + right) == line_entries(left) + line_entries(right),
    decreases right.len(),
{
    let all = left + right;
    if right.len() > 0 {
        lemma_line_entries_of_two(left, right.drop_last());
        assert(all.drop_last() =~= left + right.drop_last());
        assert(line_entries(all) =~= line_entries(left) + line_entries(right));
    } else {
        assert(all =~= left);
        assert(line_entries(all) =~= line_entries(left) + line_entries(right));
    }
}

/// A journal is read line by line: what stands before a line end records its
/// entries, what stands behind it its own, and a line that records no entry
/// is passed over.
pub proof fn a_journal_is_read_line_by_line(left: Seq<char>, right: Seq<char>)
    ensures
        parsed_entries(left.push('\n') + right) == parsed_entries(left.push('\n'))
            + parsed_entries(right),
        !right.contains('\n') ==> parsed_entries(right) == match line_entry(right) {
            Some(entry) => seq![entry],
            None => Seq::empty(),
        },
        !right.contains('\n') && (right.len() > 0 ==> right.last() != '\r') ==> parsed_entries(
            right.push('\n'),
        ) == parsed_entries(right),
        !right.contains('\n') ==> parsed_entries(right.push('\r').push('\n')) == parsed_entries(
            right,
        ),
{
    a_line_end_separates_lines(left, right);
    lemma_line_entries_of_two(lines_of(left.push('\n')), lines_of(right));
    if !right.contains('\n') {
        text_without_a_line_end_is_one_line(right);
        let returned = right.push('\r');
        assert forall|i: int| 0 <= i < returned.len() implies returned[i] != '\n' by {
            if i < right.len() {
                assert(right[i] != '\n');
            }
        }
        text_without_a_line_end_is_one_line(returned);
        assert(returned.drop_last() =~= right);
        lemma_one_line(right);
        lemma_first_index(Seq::<char>::empty(), is_tab());
        if right.len() == 0 {
            assert(right =~= Seq::<char>::empty());
        }
    }
}

/// The entries of a single line.
proof fn lemma_one_line(line: Seq<char>)
    ensures
        line_entries(seq![line]) == match line_entry(line) {
            Some(entry) => seq![entry],
            None => Seq::empty(),
        },
        line_entries(Seq::empty()) == Seq::<(isize, Seq<char>)>::empty(),
{
    let one = seq![line];
    assert(one.drop_last() =~= Seq::<Seq<char>>::empty());
    assert(line_entries(one.drop_last()) =~= Seq::<(isize, Seq<char>)>::empty());
    assert(line_entries(one) =~= match line_entry(line) {
        Some(entry) => seq![entry],
        None => Seq::empty(),
    });
}

} // verus!
