//! The fixed vocabulary of task files: priorities, statuses, marker names.
use vstd::prelude::*;

verus! {

/// Marker file that identifies a directory as a tasks directory.
pub const TEMPLATE_FILENAME: &'static str = "_TEMPLATE.md";

/// Conventional tasks-directory name: the default, and the tie-breaker when
/// discovery finds more than one candidate.
pub const DEFAULT_TASKS_DIR_NAME: &'static str = "tasks";

/// Valid task statuses, in alphabetical order.
pub const VALID_STATUSES: [&'static str; 6] = [
    "blocked",
    "brainstorming",
    "done",
    "in-progress",
    "ready",
    "wont-do",
];

/// Valid task priorities, ordered p0 (highest) to p4 (lowest).
pub const VALID_PRIORITIES: [&'static str; 5] = ["p0", "p1", "p2", "p3", "p4"];

#[derive(Debug, Clone, Copy, PartialEq, Eq, Hash, PartialOrd, Ord)]
pub enum Priority {
    P0,
    P1,
    P2,
    P3,
    P4,
}

/// The name of a priority as it appears in a filename.
pub open spec fn priority_name(p: Priority) -> Seq<char> {
    match p {
        Priority::P0 => seq!['p', '0'],
        Priority::P1 => seq!['p', '1'],
        Priority::P2 => seq!['p', '2'],
        Priority::P3 => seq!['p', '3'],
        Priority::P4 => seq!['p', '4'],
    }
}

/// The priority named `s`, if any.
pub open spec fn priority_named(s: Seq<char>) -> Option<Priority> {
    if s == priority_name(Priority::P0) {
        Some(Priority::P0)
    } else if s == priority_name(Priority::P1) {
        Some(Priority::P1)
    } else if s == priority_name(Priority::P2) {
        Some(Priority::P2)
    } else if s == priority_name(Priority::P3) {
        Some(Priority::P3)
    } else if s == priority_name(Priority::P4) {
        Some(Priority::P4)
    } else {
        None
    }
}

impl Priority {
    /// Every priority, highest first.
    pub const ALL: [Priority; 5] = [
        Priority::P0,
        Priority::P1,
        Priority::P2,
        Priority::P3,
        Priority::P4,
    ];

    pub fn as_str(&self) -> (s: &'static str)
        ensures
            s@ == priority_name(*self),
    {
        match self {
            Priority::P0 => {
                proof { reveal_strlit("p0"); }
                assert("p0"@ =~= priority_name(*self));
                "p0"
            },
            Priority::P1 => {
                proof { reveal_strlit("p1"); }
                assert("p1"@ =~= priority_name(*self));
                "p1"
            },
            Priority::P2 => {
                proof { reveal_strlit("p2"); }
                assert("p2"@ =~= priority_name(*self));
                "p2"
            },
            Priority::P3 => {
                proof { reveal_strlit("p3"); }
                assert("p3"@ =~= priority_name(*self));
                "p3"
            },
            Priority::P4 => {
                proof { reveal_strlit("p4"); }
                assert("p4"@ =~= priority_name(*self));
                "p4"
            },
        }
    }

    /// The priority whose name is exactly `s`.
    pub fn from_name(s: &str) -> (r: Option<Priority>)
        ensures
            r == priority_named(s@),
    {
        let all = Priority::ALL;
        let mut i: usize = 0;
        while i < 5
            invariant
                all@ == seq![Priority::P0, Priority::P1, Priority::P2, Priority::P3, Priority::P4],
                i <= 5,
                forall|j: int| 0 <= j < i ==> s@ != priority_name(#[trigger] all@[j]),
            decreases 5 - i,
        {
            let p = all[i];
            if crate::text::str_eq(s, p.as_str()) {
                return Some(p);
            }
            i = i + 1;
        }
        assert(s@ != priority_name(all@[0]));
        assert(s@ != priority_name(all@[1]));
        assert(s@ != priority_name(all@[2]));
        assert(s@ != priority_name(all@[3]));
        assert(s@ != priority_name(all@[4]));
        None
    }
}

impl std::str::FromStr for Priority {
    type Err = crate::error::Error;

    fn from_str(s: &str) -> (r: Result<Self, Self::Err>)
        ensures
            match r {
                Ok(p) => priority_named(s@) == Some(p),
                Err(e) => priority_named(s@) is None && (e matches crate::error::Error::InvalidPriority {
                    got,
                } && got@ == s@),
            },
    {
        match Priority::from_name(s) {
            Some(p) => Ok(p),
            None => Err(crate::error::Error::InvalidPriority { got: s.to_owned() }),
        }
    }
}

#[derive(Debug, Clone, Copy, PartialEq, Eq, Hash, PartialOrd, Ord)]
pub enum Status {
    Blocked,
    Brainstorming,
    Done,
    InProgress,
    Ready,
    WontDo,
}

/// The name of a status as it appears in a filename.
pub open spec fn status_name(s: Status) -> Seq<char> {
    match s {
        Status::Blocked => seq!['b', 'l', 'o', 'c', 'k', 'e', 'd'],
        Status::Brainstorming => seq![
            'b', 'r', 'a', 'i', 'n', 's', 't', 'o', 'r', 'm', 'i', 'n', 'g',
        ],
        Status::Done => seq!['d', 'o', 'n', 'e'],
        Status::InProgress => seq!['i', 'n', '-', 'p', 'r', 'o', 'g', 'r', 'e', 's', 's'],
        Status::Ready => seq!['r', 'e', 'a', 'd', 'y'],
        Status::WontDo => seq!['w', 'o', 'n', 't', '-', 'd', 'o'],
    }
}

/// The status named `s`, if any.
pub open spec fn status_named(s: Seq<char>) -> Option<Status> {
    if s == status_name(Status::Blocked) {
        Some(Status::Blocked)
    } else if s == status_name(Status::Brainstorming) {
        Some(Status::Brainstorming)
    } else if s == status_name(Status::Done) {
        Some(Status::Done)
    } else if s == status_name(Status::InProgress) {
        Some(Status::InProgress)
    } else if s == status_name(Status::Ready) {
        Some(Status::Ready)
    } else if s == status_name(Status::WontDo) {
        Some(Status::WontDo)
    } else {
        None
    }
}

impl Status {
    /// Every status, in alphabetical order of their names.
    pub const ALL: [Status; 6] = [
        Status::Blocked,
        Status::Brainstorming,
        Status::Done,
        Status::InProgress,
        Status::Ready,
        Status::WontDo,
    ];

    pub fn as_str(&self) -> (s: &'static str)
        ensures
            s@ == status_name(*self),
    {
        match self {
            Status::Blocked => {
                proof { reveal_strlit("blocked"); }
                assert("blocked"@ =~= status_name(*self));
                "blocked"
            },
            Status::Brainstorming => {
                proof { reveal_strlit("brainstorming"); }
                assert("brainstorming"@ =~= status_name(*self));
                "brainstorming"
            },
            Status::Done => {
                proof { reveal_strlit("done"); }
                assert("done"@ =~= status_name(*self));
                "done"
            },
            Status::InProgress => {
                proof { reveal_strlit("in-progress"); }
                assert("in-progress"@ =~= status_name(*self));
                "in-progress"
            },
            Status::Ready => {
                proof { reveal_strlit("ready"); }
                assert("ready"@ =~= status_name(*self));
                "ready"
            },
            Status::WontDo => {
                proof { reveal_strlit("wont-do"); }
                assert("wont-do"@ =~= status_name(*self));
                "wont-do"
            },
        }
    }

    /// The status whose name is exactly `s`.
    pub fn from_name(s: &str) -> (r: Option<Status>)
        ensures
            r == status_named(s@),
    {
        let all = Status::ALL;
        let mut i: usize = 0;
        while i < 6
            invariant
                all@ == seq![
                    Status::Blocked,
                    Status::Brainstorming,
                    Status::Done,
                    Status::InProgress,
                    Status::Ready,
                    Status::WontDo,
                ],
                i <= 6,
                forall|j: int| 0 <= j < i ==> s@ != status_name(#[trigger] all@[j]),
            decreases 6 - i,
        {
            let st = all[i];
            if crate::text::str_eq(s, st.as_str()) {
                return Some(st);
            }
            i = i + 1;
        }
        assert(s@ != status_name(all@[0]));
        assert(s@ != status_name(all@[1]));
        assert(s@ != status_name(all@[2]));
        assert(s@ != status_name(all@[3]));
        assert(s@ != status_name(all@[4]));
        assert(s@ != status_name(all@[5]));
        None
    }
}

impl std::str::FromStr for Status {
    type Err = crate::error::Error;

    fn from_str(s: &str) -> (r: Result<Self, Self::Err>)
        ensures
            match r {
                Ok(st) => status_named(s@) == Some(st),
                Err(e) => status_named(s@) is None && (e matches crate::error::Error::InvalidStatus {
                    got,
                } && got@ == s@),
            },
    {
        match Status::from_name(s) {
            Some(st) => Ok(st),
            None => Err(crate::error::Error::InvalidStatus { got: s.to_owned() }),
        }
    }
}

/// A priority's name names that priority and no other.
pub proof fn lemma_priority_name_roundtrip(p: Priority)
    ensures
        priority_named(priority_name(p)) == Some(p),
{
    assert(priority_name(Priority::P0) != priority_name(Priority::P1));
    assert(priority_name(Priority::P0) != priority_name(Priority::P2));
    assert(priority_name(Priority::P0) != priority_name(Priority::P3));
    assert(priority_name(Priority::P1) != priority_name(Priority::P2));
    assert(priority_name(Priority::P1) != priority_name(Priority::P3));
    assert(priority_name(Priority::P2) != priority_name(Priority::P3));
    assert(priority_name(Priority::P0)[1] != priority_name(Priority::P4)[1]);
    assert(priority_name(Priority::P1)[1] != priority_name(Priority::P4)[1]);
    assert(priority_name(Priority::P2)[1] != priority_name(Priority::P4)[1]);
    assert(priority_name(Priority::P3)[1] != priority_name(Priority::P4)[1]);
}

/// A status's name names that status and no other.
pub proof fn lemma_status_name_roundtrip(s: Status)
    ensures
        status_named(status_name(s)) == Some(s),
{
    let b = status_name(Status::Blocked);
    let br = status_name(Status::Brainstorming);
    let d = status_name(Status::Done);
    let ip = status_name(Status::InProgress);
    let r = status_name(Status::Ready);
    let w = status_name(Status::WontDo);
    assert(b[1] != br[1]);
    assert(b.len() != d.len() && b.len() != ip.len() && b.len() != r.len());
    assert(b[0] != w[0]);
    assert(br.len() != d.len() && br.len() != ip.len() && br.len() != r.len() && br.len() != w.len());
    assert(d.len() != ip.len() && d.len() != r.len() && d.len() != w.len());
    assert(ip.len() != r.len() && ip.len() != w.len());
    assert(r.len() != w.len());
}

} // verus!

verus! {

/// The valid priority names are exactly the names of `Priority::ALL`, in order.
pub proof fn lemma_valid_priorities_align()
    ensures
        VALID_PRIORITIES@.len() == Priority::ALL@.len(),
        forall|i: int|
            0 <= i < VALID_PRIORITIES@.len() ==> (#[trigger] VALID_PRIORITIES@[i])@ == priority_name(
                Priority::ALL@[i],
            ),
{
    reveal_strlit("p0");
    reveal_strlit("p1");
    reveal_strlit("p2");
    reveal_strlit("p3");
    reveal_strlit("p4");
    assert(VALID_PRIORITIES@[0]@ =~= priority_name(Priority::ALL@[0]));
    assert(VALID_PRIORITIES@[1]@ =~= priority_name(Priority::ALL@[1]));
    assert(VALID_PRIORITIES@[2]@ =~= priority_name(Priority::ALL@[2]));
    assert(VALID_PRIORITIES@[3]@ =~= priority_name(Priority::ALL@[3]));
    assert(VALID_PRIORITIES@[4]@ =~= priority_name(Priority::ALL@[4]));
}

/// The valid status names are exactly the names of `Status::ALL`, in order.
pub proof fn lemma_valid_statuses_align()
    ensures
        VALID_STATUSES@.len() == Status::ALL@.len(),
        forall|i: int|
            0 <= i < VALID_STATUSES@.len() ==> (#[trigger] VALID_STATUSES@[i])@ == status_name(
                Status::ALL@[i],
            ),
{
    reveal_strlit("blocked");
    reveal_strlit("brainstorming");
    reveal_strlit("done");
    reveal_strlit("in-progress");
    reveal_strlit("ready");
    reveal_strlit("wont-do");
    assert(VALID_STATUSES@[0]@ =~= status_name(Status::ALL@[0]));
    assert(VALID_STATUSES@[1]@ =~= status_name(Status::ALL@[1]));
    assert(VALID_STATUSES@[2]@ =~= status_name(Status::ALL@[2]));
    assert(VALID_STATUSES@[3]@ =~= status_name(Status::ALL@[3]));
    assert(VALID_STATUSES@[4]@ =~= status_name(Status::ALL@[4]));
    assert(VALID_STATUSES@[5]@ =~= status_name(Status::ALL@[5]));
}

} // verus!
