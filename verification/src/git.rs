//! What version control says of a file, and what follows from it for a run
//! that would change the file.

use vstd::prelude::*;
use vstd::string::*;

verus! {

/// What a walk of a working directory says of an entry.
#[derive(Debug, Clone, Copy, PartialEq, Eq)]
pub enum EntryStatus {
    Pruned,
    Known,
    Ignored,
    Untracked,
}

/// What version control says of a file.
#[derive(Debug, Clone, PartialEq, Eq)]
pub enum Status {
    /// Not part of any repository.
    Orphan,
    /// This file is ignored.
    Ignored,
    /// There are no changes.
    Current,
    /// There are staged changes.
    Staged,
    /// There are changes in the working tree.
    Dirty,
    /// An error occurred.
    Error(String),
}

/// A status as a plain value.
pub enum StatusView {
    Orphan,
    Ignored,
    Current,
    Staged,
    Dirty,
    Error(Seq<char>),
}

impl View for Status {
    type V = StatusView;

    open spec fn view(&self) -> StatusView {
        match self {
            Status::Orphan => StatusView::Orphan,
            Status::Ignored => StatusView::Ignored,
            Status::Current => StatusView::Current,
            Status::Staged => StatusView::Staged,
            Status::Dirty => StatusView::Dirty,
            Status::Error(message) => StatusView::Error(message@),
        }
    }
}

impl Status {
    /// How much a status weighs against another that is reported of the
    /// same file: the heavier one stays.
    pub open spec fn rank(&self) -> int {
        match self {
            Status::Orphan => 0,
            Status::Ignored => 1,
            Status::Current => 2,
            Status::Staged => 3,
            Status::Dirty => 4,
            Status::Error(_) => 5,
        }
    }

    fn weight(&self) -> (weight: u8)
        ensures
            weight == self.rank(),
    {
        match self {
            Status::Orphan => 0,
            Status::Ignored => 1,
            Status::Current => 2,
            Status::Staged => 3,
            Status::Dirty => 4,
            Status::Error(_) => 5,
        }
    }

    /// The status of an entry of a walk: an entry that the repository knows
    /// is current, one that it does not know is dirty.
    pub fn from_entry_status(status: EntryStatus) -> (out: Status)
        ensures
            match status {
                EntryStatus::Pruned => out@ == StatusView::Error("pruned"@),
                EntryStatus::Known => out@ == StatusView::Current,
                EntryStatus::Ignored => out@ == StatusView::Ignored,
                EntryStatus::Untracked => out@ == StatusView::Dirty,
            },
    {
        match status {
            EntryStatus::Pruned => Status::Error("pruned".to_owned()),
            EntryStatus::Known => Status::Current,
            EntryStatus::Ignored => Status::Ignored,
            EntryStatus::Untracked => Status::Dirty,
        }
    }

    /// The same status once more.
    pub fn duplicate(&self) -> (out: Status)
        ensures
            out@ == self@,
    {
        match self {
            Status::Orphan => Status::Orphan,
            Status::Ignored => Status::Ignored,
            Status::Current => Status::Current,
            Status::Staged => Status::Staged,
            Status::Dirty => Status::Dirty,
            Status::Error(message) => Status::Error(message.clone()),
        }
    }

    /// The status in words.
    pub open spec fn text(&self) -> Seq<char> {
        match self {
            Status::Current => "current"@,
            Status::Orphan => "orphan"@,
            Status::Staged => "staged"@,
            Status::Dirty => "dirty"@,
            Status::Ignored => "ignored"@,
            Status::Error(message) => "error: "@ + message@,
        }
    }

    /// The status in words.
    pub fn to_string(&self) -> (out: String)
        ensures
            out@ == self.text(),
    {
        match self {
            Status::Current => "current".to_owned(),
            Status::Orphan => "orphan".to_owned(),
            Status::Staged => "staged".to_owned(),
            Status::Dirty => "dirty".to_owned(),
            Status::Ignored => "ignored".to_owned(),
            Status::Error(message) => {
                let mut out = "error: ".to_owned();
                out.append(message.as_str());
                out
            },
        }
    }
}

/// The status of a file of which `old` was known and `new` is reported:
/// the new one, unless the old one weighs as much or more.
pub open spec fn merged(old: Option<Status>, new: Status) -> Status {
    match old {
        Some(old) => if old.rank() < new.rank() {
            new
        } else {
            old
        },
        None => new,
    }
}

/// Takes a new report of a file into what is known of it.
pub fn merge(dst: &mut Option<Status>, new_status: Status)
    ensures
        *final(dst) == Some(merged(*old(dst), new_status)),
{
    match dst {
        Some(old_status) => {
            if old_status.weight() < new_status.weight() {
                *dst = Some(new_status);
            }
        },
        None => {
            *dst = Some(new_status);
        },
    }
}

/// What became of a path that was handed in for its status.
#[derive(Debug)]
pub enum ResultKind {
    /// Its status stands at this place of the list of statuses.
    Status(usize),
    /// It could not be looked up.
    Error(String),
    /// It lies in no repository.
    Orphan,
}

/// The status of a path: the one that was found for it, `unknown` as an
/// error where none was.
pub open spec fn result_status(result: ResultKind, statuses: Seq<Option<Status>>) -> StatusView {
    match result {
        ResultKind::Status(index) => if index < statuses.len() && statuses[index as int] is Some {
            statuses[index as int].unwrap()@
        } else {
            StatusView::Error("unknown"@)
        },
        ResultKind::Error(message) => StatusView::Error(message@),
        ResultKind::Orphan => StatusView::Orphan,
    }
}

/// The statuses of the paths, in the order in which the paths were handed
/// in.
pub fn finish(results: Vec<ResultKind>, statuses: &Vec<Option<Status>>) -> (out: Vec<Status>)
    ensures
        out@.len() == results@.len(),
        forall|k: int|
            0 <= k < out@.len() ==> (#[trigger] out@[k])@ == result_status(results@[k], statuses@),
{
    let mut out: Vec<Status> = Vec::new();
    let mut k: usize = 0;
    while k < results.len()
        invariant
            k <= results.len(),
            out@.len() == k,
            forall|j: int|
                0 <= j < k ==> (#[trigger] out@[j])@ == result_status(results@[j], statuses@),
        decreases results.len() - k,
    {
        let status = match &results[k] {
            ResultKind::Status(index) => {
                if *index < statuses.len() {
                    match &statuses[*index] {
                        Some(status) => status.duplicate(),
                        None => Status::Error("unknown".to_owned()),
                    }
                } else {
                    Status::Error("unknown".to_owned())
                }
            },
            ResultKind::Error(message) => Status::Error(message.clone()),
            ResultKind::Orphan => Status::Orphan,
        };
        out.push(status);
        k += 1;
    }
    out
}

/// The pattern by which a repository is asked for one file: the path from
/// the top of the working directory, taken literally.
pub open spec fn pathspec_of(relative_path: Seq<char>) -> Seq<char> {
    ":(top,literal)"@ + relative_path
}

/// The pattern by which a repository is asked for one file.
pub fn relative_to_workdir(relative_path: &str) -> (pattern: String)
    ensures
        pattern@ == pathspec_of(relative_path@),
{
    let mut pattern = ":(top,literal)".to_owned();
    pattern.append(relative_path);
    pattern
}

/// A file that a run would change: how it is shown, what version control
/// says of it, and what the run allows.
#[derive(Debug)]
pub struct Candidate {
    pub display: String,
    pub status: Status,
    pub allow_staged: bool,
    pub allow_dirty: bool,
}

impl Candidate {
    /// Whether the file stands in the way as a dirty one.
    pub open spec fn is_dirty(&self) -> bool {
        self.status == Status::Dirty && !self.allow_dirty
    }

    /// Whether the file stands in the way as a staged one.
    pub open spec fn is_staged(&self) -> bool {
        self.status == Status::Staged && !self.allow_staged && !self.allow_dirty
    }
}

/// The lines of the files among the first `upto` that stand in the way as
/// dirty ones.
pub open spec fn dirty_lines(files: Seq<Candidate>, upto: int) -> Seq<char>
    decreases upto,
{
    if upto <= 0 {
        Seq::empty()
    } else if files[upto - 1].is_dirty() {
        dirty_lines(files, upto - 1) + "  * "@ + files[upto - 1].display@ + " (dirty)\n"@
    } else {
        dirty_lines(files, upto - 1)
    }
}

/// The lines of the files among the first `upto` that stand in the way as
/// staged ones.
pub open spec fn staged_lines(files: Seq<Candidate>, upto: int) -> Seq<char>
    decreases upto,
{
    if upto <= 0 {
        Seq::empty()
    } else if files[upto - 1].is_staged() {
        staged_lines(files, upto - 1) + "  * "@ + files[upto - 1].display@ + " (staged)\n"@
    } else {
        staged_lines(files, upto - 1)
    }
}

/// What is said before the list of the files that stand in the way.
pub open spec fn uncommitted_head() -> Seq<char> {
    "the working directory of this package has uncommitted changes, and \n`cargo fix` can potentially perform destructive changes; if you'd \nlike to suppress this error pass `--allow-dirty`, \nor commit the changes to these files:\n\n"@
}

/// The complaint about the files that stand in the way: the dirty ones,
/// then the staged ones. None where no file does.
pub open spec fn uncommitted(files: Seq<Candidate>) -> Option<Seq<char>> {
    let list = dirty_lines(files, files.len() as int) + staged_lines(files, files.len() as int);
    if list.len() == 0 {
        None
    } else {
        Some(uncommitted_head() + list + "\n"@)
    }
}

/// Checks that no file that the run would change has changes that are not
/// committed, unless the run allows them.
pub fn check_version_control(files: &Vec<Candidate>) -> (result: Result<(), String>)
    ensures
        match uncommitted(files@) {
            None => result is Ok,
            Some(message) => result matches Err(found) && found@ == message,
        },
{
    let mut dirty = String::new();
    let mut staged = String::new();
    let mut k: usize = 0;
    while k < files.len()
        invariant
            k <= files.len(),
            dirty@ == dirty_lines(files@, k as int),
            staged@ == staged_lines(files@, k as int),
        decreases files.len() - k,
    {
        let file = &files[k];
        match &file.status {
            Status::Dirty => {
                if !file.allow_dirty {
                    dirty.append("  * ");
                    dirty.append(file.display.as_str());
                    dirty.append(" (dirty)\n");
                }
            },
            Status::Staged => {
                if !file.allow_staged && !file.allow_dirty {
                    staged.append("  * ");
                    staged.append(file.display.as_str());
                    staged.append(" (staged)\n");
                }
            },
            _ => {},
        }
        k += 1;
    }
    if dirty.as_str().unicode_len() == 0 && staged.as_str().unicode_len() == 0 {
        proof {
            assert((dirty@ + staged@).len() == 0);
        }
        return Ok(());
    }
    let mut message =
        "the working directory of this package has uncommitted changes, and \n`cargo fix` can potentially perform destructive changes; if you'd \nlike to suppress this error pass `--allow-dirty`, \nor commit the changes to these files:\n\n".to_owned();
    message.append(dirty.as_str());
    message.append(staged.as_str());
    message.append("\n");
    proof {
        assert(message@ =~= uncommitted_head() + (dirty@ + staged@) + "\n"@);
    }
    Err(message)
}

} // verus!
