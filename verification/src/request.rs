//! A group of log lines sharing one correlation id.
//!
//! Lines are appended in original file order and never removed. The
//! representative id is the id of the last id-bearing line; the
//! representative error message is the message of the first message-bearing
//! line.

use crate::line::Line;
use crate::line::spec_get_error_message;
use crate::line::spec_get_id;
use vstd::prelude::*;

verus! {

/// The id of the last line in `ls` that yields one, if any.
pub open spec fn spec_rep_id(ls: Seq<Seq<char>>) -> Option<Seq<char>>
    decreases ls.len(),
{
    if ls.len() == 0 {
        None
    } else {
        match spec_get_id(ls.last()) {
            Some(id) => Some(id),
            None => spec_rep_id(ls.drop_last()),
        }
    }
}

/// The error message of the first line in `ls` that yields one, if any.
pub open spec fn spec_rep_error_message(ls: Seq<Seq<char>>) -> Option<Seq<char>>
    decreases ls.len(),
{
    if ls.len() == 0 {
        None
    } else {
        match spec_get_error_message(ls.first()) {
            Some(m) => Some(m),
            None => spec_rep_error_message(ls.drop_first()),
        }
    }
}

/// When every line from position `k` on yields no id, the representative id
/// is decided by the first `k` lines alone.
pub proof fn lemma_rep_id_ignores_idless_suffix(ls: Seq<Seq<char>>, k: int)
    requires
        0 <= k <= ls.len(),
        forall|j: int| k <= j < ls.len() ==> spec_get_id(ls[j]) is None,
    ensures
        spec_rep_id(ls) == spec_rep_id(ls.take(k)),
    decreases ls.len() - k,
{
    if k == ls.len() {
        assert(ls.take(k) =~= ls);
    } else {
        lemma_rep_id_ignores_idless_suffix(ls, k + 1);
        assert(ls.take(k + 1).last() == ls[k]);
        assert(ls.take(k + 1).drop_last() =~= ls.take(k));
    }
}

/// When every line before position `k` yields no message, the representative
/// error message is decided by the lines from `k` on alone.
pub proof fn lemma_rep_message_ignores_messageless_prefix(ls: Seq<Seq<char>>, k: int)
    requires
        0 <= k <= ls.len(),
        forall|j: int| 0 <= j < k ==> spec_get_error_message(ls[j]) is None,
    ensures
        spec_rep_error_message(ls) == spec_rep_error_message(ls.skip(k)),
    decreases k,
{
    if k == 0 {
        assert(ls.skip(0) =~= ls);
    } else {
        lemma_rep_message_ignores_messageless_prefix(ls, k - 1);
        assert(ls.skip(k - 1).first() == ls[k - 1]);
        assert(ls.skip(k - 1).drop_first() =~= ls.skip(k));
    }
}

/// The ordered lines of one logical request.
pub struct Request {
    lines: Vec<Line>,
}

impl View for Request {
    type V = Seq<Seq<char>>;

    closed spec fn view(&self) -> Seq<Seq<char>> {
        self.lines.deep_view()
    }
}

impl Request {
    pub fn new() -> (r: Request)
        ensures
            r@ == Seq::<Seq<char>>::empty(),
    {
        let r = Request { lines: Vec::new() };
        proof {
            assert(r@ =~= Seq::<Seq<char>>::empty());
        }
        r
    }

    /// Appends one line at the end of the group.
    pub fn add_line(&mut self, line: Line)
        ensures
            final(self)@ == old(self)@.push(line@),
    {
        self.lines.push(line);
        proof {
            assert(self.lines.deep_view() =~= old(self).lines.deep_view().push(line@));
        }
    }

    /// The member lines, in original file order.
    pub fn lines(&self) -> (r: &Vec<Line>)
        ensures
            r.deep_view() == self@,
    {
        &self.lines
    }

    /// The representative id: the id of the last id-bearing line.
    pub fn get_id<'a>(&'a self) -> (r: Option<&'a str>)
        ensures
            match r {
                Some(id) => spec_rep_id(self@) == Some(id@),
                None => spec_rep_id(self@) is None,
            },
    {
        let mut idx: usize = self.lines.len();
        while idx > 0
            invariant
                idx <= self.lines.len(),
                self@.len() == self.lines.len(),
                forall|j: int| idx <= j < self@.len() ==> spec_get_id(self@[j]) is None,
            decreases idx,
        {
            idx = idx - 1;
            let line: &Line = &self.lines[idx];
            let r = line.get_id();
            if r.is_some() {
                proof {
                    lemma_rep_id_ignores_idless_suffix(self@, idx + 1);
                    assert(self@.take(idx + 1).last() == self@[idx as int]);
                }
                return r;
            }
        }
        proof {
            lemma_rep_id_ignores_idless_suffix(self@, 0);
            assert(self@.take(0) =~= Seq::<Seq<char>>::empty());
        }
        None
    }

    /// The representative error message: the message of the first
    /// message-bearing line.
    pub fn get_error_message<'a>(&'a self) -> (r: Option<&'a str>)
        ensures
            match r {
                Some(m) => spec_rep_error_message(self@) == Some(m@),
                None => spec_rep_error_message(self@) is None,
            },
    {
        let mut idx: usize = 0;
        while idx < self.lines.len()
            invariant
                idx <= self.lines.len(),
                self@.len() == self.lines.len(),
                forall|j: int| 0 <= j < idx ==> spec_get_error_message(self@[j]) is None,
            decreases self.lines.len() - idx,
        {
            let line: &Line = &self.lines[idx];
            let r = line.get_error_message();
            if r.is_some() {
                proof {
                    lemma_rep_message_ignores_messageless_prefix(self@, idx as int);
                    assert(self@.skip(idx as int).first() == self@[idx as int]);
                }
                return r;
            }
            idx += 1;
        }
        proof {
            lemma_rep_message_ignores_messageless_prefix(self@, self@.len() as int);
            assert(self@.skip(self@.len() as int) =~= Seq::<Seq<char>>::empty());
        }
        None
    }
}

} // verus!
