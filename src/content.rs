use vstd::prelude::*;
use crate::status::{rank_of, SortOrder, Status};

verus! {

broadcast use vstd::seq_lib::group_to_multiset_ensures;

/// One task as handed to a caller: its name, description and status.
#[derive(Debug)]
pub struct TaskContent {
    pub name: String,
    pub desc: String,
    pub status: Status,
}

/// Lexicographic order on names, character by character by code point
/// (the order of `str`'s comparison on UTF-8 text).
pub open spec fn name_le(a: Seq<char>, b: Seq<char>) -> bool
    decreases a.len(),
{
    if a.len() == 0 {
        true
    } else if b.len() == 0 {
        false
    } else if a[0] != b[0] {
        a[0] < b[0]
    } else {
        name_le(a.drop_first(), b.drop_first())
    }
}

/// Whether `a` may stand before `b` in a listing ordered by `order`.
pub open spec fn before(order: SortOrder, a: TaskContent, b: TaskContent) -> bool {
    match order {
        SortOrder::Alphabetical => name_le(a.name@, b.name@),
        SortOrder::ReverseAlphabetical => name_le(b.name@, a.name@),
        SortOrder::Status => rank_of(a.status) <= rank_of(b.status),
        SortOrder::ReverseStatus => rank_of(b.status) <= rank_of(a.status),
    }
}

/// Every task stands before every later one.
pub open spec fn sorted_by(order: SortOrder, s: Seq<TaskContent>) -> bool {
    forall|i: int, j: int| 0 <= i < j < s.len() ==> #[trigger] before(order, s[i], s[j])
}

/// In a listing sorted by status, a task whose status comes earlier in the
/// order Active, Stopped, Canceled, Completed stands before one whose status
/// comes later, whatever their names.
pub proof fn lemma_status_sorted_ranks(s: Seq<TaskContent>, i: int, j: int)
    requires
        sorted_by(SortOrder::Status, s),
        0 <= i < s.len(),
        0 <= j < s.len(),
        rank_of(s[i].status) < rank_of(s[j].status),
    ensures
        i < j,
{
    if j < i {
        assert(before(SortOrder::Status, s[j], s[i]));
    }
}

/// Any two names are ordered one way or the other.
pub proof fn lemma_name_le_total(a: Seq<char>, b: Seq<char>)
    ensures
        name_le(a, b) || name_le(b, a),
    decreases a.len(),
{
    if a.len() > 0 && b.len() > 0 && a[0] == b[0] {
        lemma_name_le_total(a.drop_first(), b.drop_first());
    }
}

/// The order on names is transitive.
pub proof fn lemma_name_le_transitive(a: Seq<char>, b: Seq<char>, c: Seq<char>)
    requires
        name_le(a, b),
        name_le(b, c),
    ensures
        name_le(a, c),
    decreases a.len(),
{
    if a.len() > 0 && b.len() > 0 && c.len() > 0 && a[0] == b[0] && b[0] == c[0] {
        lemma_name_le_transitive(a.drop_first(), b.drop_first(), c.drop_first());
    }
}

/// `before` is a total preorder.
pub proof fn lemma_before_total_preorder(order: SortOrder, a: TaskContent, b: TaskContent, c: TaskContent)
    ensures
        before(order, a, b) || before(order, b, a),
        before(order, a, b) && before(order, b, c) ==> before(order, a, c),
{
    lemma_name_le_total(a.name@, b.name@);
    if before(order, a, b) && before(order, b, c) {
        match order {
            SortOrder::Alphabetical => lemma_name_le_transitive(a.name@, b.name@, c.name@),
            SortOrder::ReverseAlphabetical => lemma_name_le_transitive(c.name@, b.name@, a.name@),
            _ => {},
        }
    }
}

/// Compares two names in the order of `name_le`.
pub fn name_less_or_equal(a: &str, b: &str) -> (r: bool)
    ensures
        r == name_le(a@, b@),
{
    let la = a.unicode_len();
    let lb = b.unicode_len();
    let mut i: usize = 0;
    proof {
        assert(a@.subrange(0, la as int) =~= a@);
        assert(b@.subrange(0, lb as int) =~= b@);
    }
    while i < la && i < lb
        invariant
            la == a@.len(),
            lb == b@.len(),
            i <= la,
            i <= lb,
            name_le(a@, b@) == name_le(a@.subrange(i as int, la as int), b@.subrange(i as int, lb as int)),
        decreases la - i,
    {
        let ca = a.get_char(i);
        let cb = b.get_char(i);
        if ca != cb {
            return ca < cb;
        }
        proof {
            assert(a@.subrange(i as int, la as int).drop_first() =~= a@.subrange(i + 1, la as int));
            assert(b@.subrange(i as int, lb as int).drop_first() =~= b@.subrange(i + 1, lb as int));
        }
        i = i + 1;
    }
    i == la
}

impl TaskContent {
    pub fn new(name: &str, desc: &str, status: Status) -> (r: Self)
        ensures
            r.name@ == name@,
            r.desc@ == desc@,
            r.status == status,
    {
        TaskContent { name: name.to_owned(), desc: desc.to_owned(), status }
    }

    /// Whether `self` may stand before `other` in a listing ordered by `order`.
    pub fn is_before(&self, other: &TaskContent, order: SortOrder) -> (r: bool)
        ensures
            r == before(order, *self, *other),
    {
        match order {
            SortOrder::Alphabetical => name_less_or_equal(self.name.as_str(), other.name.as_str()),
            SortOrder::ReverseAlphabetical => name_less_or_equal(other.name.as_str(), self.name.as_str()),
            SortOrder::Status => self.status.rank() <= other.status.rank(),
            SortOrder::ReverseStatus => other.status.rank() <= self.status.rank(),
        }
    }

    /// Reorders `vec` by `order`: the same tasks, each one before every
    /// later one.
    pub fn sort_by(vec: &mut Vec<Self>, order: SortOrder)
        ensures
            final(vec)@.to_multiset() == old(vec)@.to_multiset(),
            sorted_by(order, final(vec)@),
    {
        let mut rest: Vec<TaskContent> = Vec::new();
        std::mem::swap(vec, &mut rest);
        let ghost orig = rest@;
        let mut done: Vec<TaskContent> = Vec::new();
        while rest.len() > 0
            invariant
                done@.to_multiset().add(rest@.to_multiset()) == orig.to_multiset(),
                sorted_by(order, done@),
            decreases rest.len(),
        {
            let ghost r0 = rest@;
            let ghost d0 = done@;
            let x = rest.remove(0);
            // place x after every task that may stand before it
            let mut k: usize = done.len();
            while k > 0 && !done[k - 1].is_before(&x, order)
                invariant
                    k <= done.len(),
                    forall|j: int| k <= j < done.len() ==> !before(order, done[j], x),
                decreases k,
            {
                k = k - 1;
            }
            proof {
                assert forall|i: int, j: int| 0 <= i < j < done.len() + 1 implies
                    #[trigger] before(order, done@.insert(k as int, x)[i], done@.insert(k as int, x)[j]) by {
                    let s = done@.insert(k as int, x);
                    if j < k {
                        assert(before(order, done[i], done[j]));
                    } else if i > k {
                        assert(before(order, done[i - 1], done[j - 1]));
                    } else if i == k {
                        // x before every later task: they were all not before x
                        lemma_before_total_preorder(order, done[j - 1], x, x);
                    } else if j > k {
                        assert(before(order, done[i], done[j - 1]));
                    } else {
                        // i < k == j: done[i] before done[k - 1] before x
                        assert(before(order, done[k - 1], x));
                        if i < k - 1 {
                            assert(before(order, done[i], done[k - 1]));
                            lemma_before_total_preorder(order, done[i], done[k - 1], x);
                        }
                    }
                }
            }
            done.insert(k, x);
            proof {
                assert(done@.remove(k as int) =~= d0);
                assert(done@[k as int] == x);
                assert(done@.to_multiset() =~= d0.to_multiset().insert(x));
                assert(r0[0] == x);
                assert(r0.to_multiset().count(x) > 0);
                assert(rest@.to_multiset() =~= r0.to_multiset().remove(x));
                assert(done@.to_multiset().add(rest@.to_multiset()) =~= d0.to_multiset().add(r0.to_multiset()));
            }
        }
        std::mem::swap(vec, &mut done);
    }
}

} // verus!
