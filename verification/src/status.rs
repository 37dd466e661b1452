//! The task/status ledger: a single status file at the database root
//! guards the whole database against concurrent maintenance operations
//! and records the one task in flight, so that a crash leaves a
//! self-describing marker from which the task can be resumed.
//!
//! The file's content is one line, `"<task id>|<arguments>"`. Absence
//! of the file means idle. The logic here is the pure transition on
//! that state; the caller performs the atomic create-if-absent, read
//! and removal of the real file.

use vstd::prelude::*;
use crate::strnum::{find_char, find_in_str, lemma_find_char_at, str_eq};

verus! {

/// The maintenance task recorded in the status file.
#[derive(Debug)]
pub enum ActiveTask {
    Idle,
    RegenerateCaches,
    MergeTags(String, String),
    RenameTag(String, String),
}

/// The mathematical shape of a task.
pub enum TaskView {
    Idle,
    RegenerateCaches,
    MergeTags(Seq<char>, Seq<char>),
    RenameTag(Seq<char>, Seq<char>),
}

impl View for ActiveTask {
    type V = TaskView;

    open spec fn view(&self) -> TaskView {
        match self {
            ActiveTask::Idle => TaskView::Idle,
            ActiveTask::RegenerateCaches => TaskView::RegenerateCaches,
            ActiveTask::MergeTags(a, b) => TaskView::MergeTags(a@, b@),
            ActiveTask::RenameTag(a, b) => TaskView::RenameTag(a@, b@),
        }
    }
}

/// A task argument that survives the status line format: non-empty,
/// no space, no separator bar.
pub open spec fn task_arg_wf(s: Seq<char>) -> bool {
    s.len() > 0 && find_char(s, ' ') == -1 && find_char(s, '|') == -1
}

/// A task whose arguments survive the status line format. Tag names
/// are such arguments: they are non-empty and carry no spaces.
pub open spec fn task_wf(t: TaskView) -> bool {
    match t {
        TaskView::Idle => true,
        TaskView::RegenerateCaches => true,
        TaskView::MergeTags(a, b) => task_arg_wf(a) && task_arg_wf(b),
        TaskView::RenameTag(a, b) => task_arg_wf(a) && task_arg_wf(b),
    }
}

/// The discriminant written in front of the bar.
pub open spec fn task_id_of(t: TaskView) -> u8 {
    match t {
        TaskView::Idle => 0,
        TaskView::RegenerateCaches => 1,
        TaskView::MergeTags(_, _) => 2,
        TaskView::RenameTag(_, _) => 3,
    }
}

/// The status file line of a task.
pub open spec fn task_string(t: TaskView) -> Seq<char> {
    match t {
        TaskView::Idle => seq!['0', '|'],
        TaskView::RegenerateCaches => seq!['1', '|'],
        TaskView::MergeTags(a, b) => seq!['2', '|'] + a + seq![' '] + b,
        TaskView::RenameTag(a, b) => seq!['3', '|'] + a + seq![' '] + b,
    }
}

/// What parsing a status line accepts: the part before the first bar
/// names the task, and for a merge or rename the remainder is two
/// well-formed arguments separated by one space.
pub open spec fn task_parsed(s: Seq<char>) -> Option<TaskView> {
    let bar = find_char(s, '|');
    let head = if bar < 0 {
        s
    } else {
        s.take(bar)
    };
    let rest = if bar < 0 {
        Seq::<char>::empty()
    } else {
        s.skip(bar + 1)
    };
    if head == seq!['0'] {
        Some(TaskView::Idle)
    } else if head == seq!['1'] {
        Some(TaskView::RegenerateCaches)
    } else if head == seq!['2'] || head == seq!['3'] {
        let sp = find_char(rest, ' ');
        if sp < 0 {
            None
        } else {
            let a = rest.take(sp);
            let b = rest.skip(sp + 1);
            if task_arg_wf(a) && task_arg_wf(b) {
                if head == seq!['2'] {
                    Some(TaskView::MergeTags(a, b))
                } else {
                    Some(TaskView::RenameTag(a, b))
                }
            } else {
                None
            }
        }
    } else {
        None
    }
}

/// A ledger operation failed.
#[derive(Debug)]
pub enum DBStatusError {
    InvalidDataBasePath,
    IoError(String),
    DataBaseBusy(ActiveTask, DBStatus),
    UnknownTask,
}

/// A live claim on the database: proof that this caller created the
/// status file. Consumed by [`DBStatus::deactivate`].
#[derive(Debug)]
pub struct DBStatus {}

/// What an activation attempt reports.
pub enum ActivateOutcome {
    Acquired,
    Busy(TaskView),
    Corrupt,
}

/// The pure transition of `activate` on the status file state:
/// absent means the claim is acquired and the task recorded; present
/// means the state is unchanged and the recorded task is reported.
pub open spec fn spec_activate(existing: Option<Seq<char>>, t: TaskView) -> (
    Option<Seq<char>>,
    ActivateOutcome,
) {
    match existing {
        Option::None => (Some(task_string(t)), ActivateOutcome::Acquired),
        Option::Some(c) => (
            Some(c),
            match task_parsed(c) {
                Option::Some(t0) => ActivateOutcome::Busy(t0),
                Option::None => ActivateOutcome::Corrupt,
            },
        ),
    }
}

/// The pure transition of `deactivate`: the status file is removed,
/// whatever it held.
pub open spec fn spec_deactivate(state: Option<Seq<char>>) -> Option<Seq<char>> {
    None
}

impl ActiveTask {
    /// The numeric task id, as written in front of the bar.
    pub fn task_id(&self) -> (r: u8)
        ensures
            r == task_id_of(self@),
    {
        match self {
            Self::Idle => 0,
            Self::RegenerateCaches => 1,
            Self::MergeTags(_, _) => 2,
            Self::RenameTag(_, _) => 3,
        }
    }

    /// Renders the status line that records the task.
    pub fn to_data_string(&self) -> (r: String)
        ensures
            r@ == task_string(self@),
    {
        proof {
            reveal_strlit("0|");
            reveal_strlit("1|");
            reveal_strlit("2|");
            reveal_strlit("3|");
            reveal_strlit(" ");
        }
        match self {
            Self::Idle => {
                let r = String::from_str("0|");
                proof {
                    assert(r@ =~= task_string(self@));
                }
                r
            },
            Self::RegenerateCaches => {
                let r = String::from_str("1|");
                proof {
                    assert(r@ =~= task_string(self@));
                }
                r
            },
            Self::MergeTags(a, b) => {
                let mut r = String::from_str("2|");
                r.append(a.as_str());
                r.append(" ");
                r.append(b.as_str());
                proof {
                    assert(r@ =~= task_string(self@));
                }
                r
            },
            Self::RenameTag(a, b) => {
                let mut r = String::from_str("3|");
                r.append(a.as_str());
                r.append(" ");
                r.append(b.as_str());
                proof {
                    assert(r@ =~= task_string(self@));
                }
                r
            },
        }
    }

    /// Parses a status line, failing with `UnknownTask` exactly when
    /// the line records none of the known tasks.
    pub fn parse(data_str: &str) -> (r: Result<ActiveTask, DBStatusError>)
        ensures
            match r {
                Result::Ok(t) => task_parsed(data_str@) == Some(t@),
                Result::Err(e) => task_parsed(data_str@) is None && e is UnknownTask,
            },
    {
        proof {
            reveal_strlit("0");
            reveal_strlit("1");
            reveal_strlit("2");
            reveal_strlit("3");
        }
        let s = data_str;
        let len = s.unicode_len();
        let bar = find_in_str(s, '|');
        let head: &str = match bar {
            Option::Some(b) => s.substring_char(0, b),
            Option::None => s,
        };
        proof {
            match bar {
                Option::Some(b) => {
                    assert(head@ =~= s@.take(b as int));
                },
                Option::None => {},
            }
        }
        proof {
            assert("0"@ =~= seq!['0']);
            assert("1"@ =~= seq!['1']);
            assert("2"@ =~= seq!['2']);
            assert("3"@ =~= seq!['3']);
            lemma_digit_heads_distinct();
        }
        if str_eq(head, "0") {
            return Ok(ActiveTask::Idle);
        }
        if str_eq(head, "1") {
            return Ok(ActiveTask::RegenerateCaches);
        }
        let is2 = str_eq(head, "2");
        let is3 = str_eq(head, "3");
        if !is2 && !is3 {
            return Err(DBStatusError::UnknownTask);
        }
        let rest: &str = match bar {
            Option::Some(b) => s.substring_char(b + 1, len),
            Option::None => {
                // A bare "2" or "3" has no arguments.
                proof {
                    assert(Seq::<char>::empty().len() == 0);
                    assert(find_char(Seq::<char>::empty(), ' ') == -1);
                }
                return Err(DBStatusError::UnknownTask);
            },
        };
        proof {
            assert(rest@ =~= s@.skip(bar->0 + 1));
        }
        let rlen = rest.unicode_len();
        let sp = match find_in_str(rest, ' ') {
            Option::Some(p) => p,
            Option::None => {
                return Err(DBStatusError::UnknownTask);
            },
        };
        let a = rest.substring_char(0, sp);
        let b = rest.substring_char(sp + 1, rlen);
        proof {
            assert(a@ =~= rest@.take(sp as int));
            assert(b@ =~= rest@.skip(sp as int + 1));
        }
        let a_ok = a.unicode_len() > 0 && find_in_str(a, '|').is_none() && find_in_str(
            a,
            ' ',
        ).is_none();
        let b_ok = b.unicode_len() > 0 && find_in_str(b, '|').is_none() && find_in_str(
            b,
            ' ',
        ).is_none();
        if !(a_ok && b_ok) {
            return Err(DBStatusError::UnknownTask);
        }
        if is2 {
            Ok(ActiveTask::MergeTags(a.to_owned(), b.to_owned()))
        } else {
            Ok(ActiveTask::RenameTag(a.to_owned(), b.to_owned()))
        }
    }
}

impl DBStatus {
    /// Attempts to claim the database for `task`, given the current
    /// status file content (`None`: the file is absent and the
    /// caller's atomic create succeeded). Returns the new content to
    /// persist and either the claim, or `DataBaseBusy` carrying the
    /// recorded task when one is in flight, or `UnknownTask` when the
    /// present file is unreadable.
    pub fn activate(existing: Option<String>, task: ActiveTask) -> (r: (
        Option<String>,
        Result<DBStatus, DBStatusError>,
    ))
        ensures
            r.0.deep_view() == spec_activate(existing.deep_view(), task@).0,
            ({
                let outcome = spec_activate(existing.deep_view(), task@).1;
                match r.1 {
                    Result::Ok(_) => outcome is Acquired,
                    Result::Err(e) => match e {
                        DBStatusError::DataBaseBusy(t, _) => outcome == ActivateOutcome::Busy(t@),
                        DBStatusError::UnknownTask => outcome is Corrupt,
                        _ => false,
                    },
                }
            }),
    {
        match existing {
            Option::None => {
                let content = task.to_data_string();
                (Some(content), Ok(DBStatus {  }))
            },
            Option::Some(c) => {
                match ActiveTask::parse(c.as_str()) {
                    Result::Ok(t) => {
                        let r = (Some(c), Err(DBStatusError::DataBaseBusy(t, DBStatus {  })));
                        r
                    },
                    Result::Err(_) => (Some(c), Err(DBStatusError::UnknownTask)),
                }
            },
        }
    }

    /// Releases the claim: the status file is removed. Consumes the
    /// claim, so no further operation can use it.
    pub fn deactivate(self) -> (r: Option<String>)
        ensures
            r.deep_view() == spec_deactivate(Some(Seq::<char>::empty())),
            r is None,
    {
        None
    }
}

proof fn lemma_digit_heads_distinct()
    ensures
        seq!['0'] != seq!['1'],
        seq!['0'] != seq!['2'],
        seq!['0'] != seq!['3'],
        seq!['1'] != seq!['2'],
        seq!['1'] != seq!['3'],
        seq!['2'] != seq!['3'],
{
    assert(seq!['0'][0] == '0');
    assert(seq!['1'][0] == '1');
    assert(seq!['2'][0] == '2');
    assert(seq!['3'][0] == '3');
}

/// Writing a task and reading it back gives the task itself: the
/// status file is a faithful record of what is in flight.
pub proof fn lemma_task_round_trip(t: TaskView)
    requires
        task_wf(t),
    ensures
        task_parsed(task_string(t)) == Some(t),
{
    lemma_digit_heads_distinct();
    match t {
        TaskView::Idle => {
            let s = task_string(t);
            assert(s[0] == '0');
            assert(find_char(s, '|') == 1) by {
                lemma_find_char_at(s, '|', 1);
            }
            assert(s.take(1) =~= seq!['0']);
        },
        TaskView::RegenerateCaches => {
            let s = task_string(t);
            assert(s[0] == '1');
            assert(find_char(s, '|') == 1) by {
                lemma_find_char_at(s, '|', 1);
            }
            assert(s.take(1) =~= seq!['1']);
        },
        TaskView::MergeTags(a, b) => {
            lemma_task_args_round_trip(seq!['2', '|'], '2', a, b);
            assert(task_string(t).take(1) == seq!['2']);
        },
        TaskView::RenameTag(a, b) => {
            lemma_task_args_round_trip(seq!['3', '|'], '3', a, b);
            assert(task_string(t).take(1) == seq!['3']);
        },
    }
}

proof fn lemma_task_args_round_trip(prefix: Seq<char>, d: char, a: Seq<char>, b: Seq<char>)
    requires
        prefix == seq![d, '|'],
        d == '2' || d == '3',
        task_arg_wf(a),
        task_arg_wf(b),
    ensures
        ({
            let s = prefix + a + seq![' '] + b;
            let bar = find_char(s, '|');
            &&& bar == 1
            &&& s.take(1) == seq![d]
            &&& s.skip(2) == a + seq![' '] + b
            &&& find_char(a + seq![' '] + b, ' ') == a.len()
            &&& (a + seq![' '] + b).take(a.len() as int) == a
            &&& (a + seq![' '] + b).skip(a.len() as int + 1) == b
        }),
{
    let s = prefix + a + seq![' '] + b;
    assert(s[0] == d);
    assert(s[1] == '|');
    assert(d != '|');
    assert(find_char(s, '|') == 1) by {
        lemma_find_char_at(s, '|', 1);
    }
    assert(s.take(1) =~= seq![d]);
    assert(s.skip(2) =~= a + seq![' '] + b);
    let rest = a + seq![' '] + b;
    assert(forall|k: int| 0 <= k < a.len() ==> rest[k] == a[k]);
    assert forall|k: int| 0 <= k < a.len() implies rest[k] != ' ' by {
        if a[k] == ' ' {
            assert(find_char(a, ' ') >= 0) by {
                lemma_find_char_exists(a, ' ', k);
            }
        }
    }
    assert(rest[a.len() as int] == ' ');
    lemma_find_char_at(rest, ' ', a.len() as int);
    assert(rest.take(a.len() as int) =~= a);
    assert(rest.skip(a.len() as int + 1) =~= b);
}

/// If some position holds `c`, `find_char` reports an occurrence.
pub proof fn lemma_find_char_exists(s: Seq<char>, c: char, i: int)
    requires
        0 <= i < s.len(),
        s[i] == c,
    ensures
        0 <= find_char(s, c) <= i,
    decreases i,
{
    if s[0] == c {
    } else {
        assert(i > 0);
        lemma_find_char_exists(s.skip(1), c, i - 1);
    }
}

/// Ledger mutual exclusion: on an idle database the first `activate`
/// claims it and records its task; a second `activate` with no
/// intervening `deactivate` is refused with `DataBaseBusy` carrying
/// exactly the first task; after `deactivate` a fresh `activate`
/// succeeds again.
pub proof fn lemma_ledger_mutual_exclusion(t1: TaskView, t2: TaskView)
    requires
        task_wf(t1),
    ensures
        ({
            let first = spec_activate(None, t1);
            let second = spec_activate(first.0, t2);
            let third = spec_activate(spec_deactivate(second.0), t2);
            &&& first.1 == ActivateOutcome::Acquired
            &&& first.0 == Some(task_string(t1))
            &&& second.0 == first.0
            &&& second.1 == ActivateOutcome::Busy(t1)
            &&& third.1 == ActivateOutcome::Acquired
        }),
{
    lemma_task_round_trip(t1);
}

} // verus!
