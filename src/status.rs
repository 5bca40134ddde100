use vstd::prelude::*;

verus! {

/// The state a task is in. The declaration order is the order used when
/// tasks are sorted by status.
#[derive(PartialEq, Eq, Structural, Clone, Copy, Debug, PartialOrd, Ord, Hash)]
pub enum Status {
    Active,
    Stopped,
    Canceled,
    Completed,
}

/// Position of a status in the sort order.
pub open spec fn rank_of(s: Status) -> int {
    match s {
        Status::Active => 0,
        Status::Stopped => 1,
        Status::Canceled => 2,
        Status::Completed => 3,
    }
}

/// The one-letter code of a status, as stored in the save file and given on
/// the command line.
pub open spec fn code_of(s: Status) -> Seq<char> {
    match s {
        Status::Active => seq!['a'],
        Status::Stopped => seq!['s'],
        Status::Canceled => seq!['n'],
        Status::Completed => seq!['f'],
    }
}

/// The status whose code is `c`, if any. Canceled is also read from the
/// older code `c`.
pub open spec fn status_of_code(c: Seq<char>) -> Option<Status> {
    if c == seq!['a'] {
        Some(Status::Active)
    } else if c == seq!['s'] {
        Some(Status::Stopped)
    } else if c == seq!['n'] || c == seq!['c'] {
        Some(Status::Canceled)
    } else if c == seq!['f'] {
        Some(Status::Completed)
    } else {
        None
    }
}

/// Every status is read back from its own code.
pub proof fn lemma_code_round_trip(s: Status)
    ensures
        status_of_code(code_of(s)) == Some(s),
{
    assert(seq!['a'] != seq!['s']) by { assert(seq!['a'][0] != seq!['s'][0]); }
    assert(seq!['a'] != seq!['n']) by { assert(seq!['a'][0] != seq!['n'][0]); }
    assert(seq!['a'] != seq!['c']) by { assert(seq!['a'][0] != seq!['c'][0]); }
    assert(seq!['s'] != seq!['n']) by { assert(seq!['s'][0] != seq!['n'][0]); }
    assert(seq!['s'] != seq!['c']) by { assert(seq!['s'][0] != seq!['c'][0]); }
    assert(seq!['f'] != seq!['a']) by { assert(seq!['f'][0] != seq!['a'][0]); }
    assert(seq!['f'] != seq!['s']) by { assert(seq!['f'][0] != seq!['s'][0]); }
    assert(seq!['f'] != seq!['n']) by { assert(seq!['f'][0] != seq!['n'][0]); }
    assert(seq!['f'] != seq!['c']) by { assert(seq!['f'][0] != seq!['c'][0]); }
}

impl Status {
    /// Position of the status in the sort order.
    pub fn rank(&self) -> (r: u8)
        ensures
            r as int == rank_of(*self),
    {
        match self {
            Status::Active => 0,
            Status::Stopped => 1,
            Status::Canceled => 2,
            Status::Completed => 3,
        }
    }

    /// The status's one-letter code.
    pub fn code(&self) -> (r: String)
        ensures
            r@ == code_of(*self),
    {
        let c = match self {
            Status::Active => "a",
            Status::Stopped => "s",
            Status::Canceled => "n",
            Status::Completed => "f",
        };
        proof {
            reveal_strlit("a");
            reveal_strlit("s");
            reveal_strlit("n");
            reveal_strlit("f");
        }
        let r = c.to_owned();
        assert(r@ =~= code_of(*self));
        r
    }

    /// Reads a status from its one-letter code; `None` for any other text.
    pub fn from_code(s: &str) -> (r: Option<Status>)
        ensures
            r == status_of_code(s@),
    {
        if s.unicode_len() != 1 {
            proof {
                assert(s@ != seq!['a']);
                assert(s@ != seq!['s']);
                assert(s@ != seq!['n']);
                assert(s@ != seq!['c']);
                assert(s@ != seq!['f']);
            }
            return None;
        }
        let c = s.get_char(0);
        proof {
            if s@.len() == 1 {
                assert(s@ =~= seq![c]);
            }
            assert(forall|x: char, y: char| seq![x] == seq![y] ==> x == y) by {
                assert forall|x: char, y: char| seq![x] == seq![y] implies x == y by {
                    assert(seq![x][0] == seq![y][0]);
                }
            }
        }
        if c == 'a' {
            Some(Status::Active)
        } else if c == 's' {
            Some(Status::Stopped)
        } else if c == 'n' || c == 'c' {
            Some(Status::Canceled)
        } else if c == 'f' {
            Some(Status::Completed)
        } else {
            None
        }
    }

    /// The symbol shown for the status in a table.
    pub fn symbol(&self) -> (r: &'static str)
        ensures
            r@ == symbol_of(*self),
    {
        proof {
            reveal_strlit("✅");
            reveal_strlit("🟢");
            reveal_strlit("🟡");
            reveal_strlit("🔴");
        }
        match self {
            Status::Completed => "✅",
            Status::Active => "🟢",
            Status::Stopped => "🟡",
            Status::Canceled => "🔴",
        }
    }
}

/// The symbol shown for a status in a table.
pub open spec fn symbol_of(s: Status) -> Seq<char> {
    match s {
        Status::Completed => seq!['\u{2705}'],
        Status::Active => seq!['\u{1F7E2}'],
        Status::Stopped => seq!['\u{1F7E1}'],
        Status::Canceled => seq!['\u{1F534}'],
    }
}

/// How a listing of tasks is ordered.
#[derive(PartialEq, Eq, Structural, Clone, Copy, Debug)]
pub enum SortOrder {
    Alphabetical,
    ReverseAlphabetical,
    Status,
    ReverseStatus,
}

impl SortOrder {
    /// Reads a sort order from its command-line code: `a`, `ra`, `s` or `rs`.
    pub fn from_code(s: &str) -> (r: Option<SortOrder>)
        ensures
            r == sort_order_of_code(s@),
    {
        let n = s.unicode_len();
        if n == 1 {
            let c = s.get_char(0);
            proof { assert(s@ =~= seq![c]); }
            if c == 'a' {
                proof { assert(s@ =~= seq!['a']); }
                return Some(SortOrder::Alphabetical);
            } else if c == 's' {
                proof { assert(s@ =~= seq!['s']); }
                return Some(SortOrder::Status);
            }
            proof {
                assert(s@[0] != 'a');
                assert(s@[0] != 's');
                assert(seq!['a'][0] == 'a');
                assert(seq!['s'][0] == 's');
            }
            None
        } else if n == 2 {
            let c0 = s.get_char(0);
            let c1 = s.get_char(1);
            proof { assert(s@ =~= seq![c0, c1]); }
            if c0 == 'r' && c1 == 'a' {
                proof { assert(s@ =~= seq!['r', 'a']); }
                return Some(SortOrder::ReverseAlphabetical);
            } else if c0 == 'r' && c1 == 's' {
                proof { assert(s@ =~= seq!['r', 's']); }
                return Some(SortOrder::ReverseStatus);
            }
            proof {
                assert(seq!['r', 'a'][0] == 'r' && seq!['r', 'a'][1] == 'a');
                assert(seq!['r', 's'][0] == 'r' && seq!['r', 's'][1] == 's');
            }
            None
        } else {
            proof {
                assert(seq!['a'].len() == 1 && seq!['s'].len() == 1);
                assert(seq!['r', 'a'].len() == 2 && seq!['r', 's'].len() == 2);
            }
            None
        }
    }
}

/// The sort order named by a command-line code.
pub open spec fn sort_order_of_code(c: Seq<char>) -> Option<SortOrder> {
    if c == seq!['a'] {
        Some(SortOrder::Alphabetical)
    } else if c == seq!['r', 'a'] {
        Some(SortOrder::ReverseAlphabetical)
    } else if c == seq!['s'] {
        Some(SortOrder::Status)
    } else if c == seq!['r', 's'] {
        Some(SortOrder::ReverseStatus)
    } else {
        None
    }
}

} // verus!
