//! The grouping engine, the error counter, and the pipeline laws.
//!
//! Pass one collects, deduplicated and in order of first appearance, the ids
//! of all relevant lines. Pass two buckets every line — relevant or not —
//! whose id belongs to that collection into the group of its id. The counter
//! then tallies the representative error messages of all groups.

use crate::line::Line;
use crate::line::spec_get_id;
use crate::line::spec_is_relevant;
use crate::request::Request;
use crate::request::spec_rep_error_message;
use crate::scan::str_eq;
use vstd::prelude::*;

verus! {

/// The ids of the relevant lines of `ls`, deduplicated, in order of first
/// appearance.
pub open spec fn spec_relevant_ids(ls: Seq<Seq<char>>) -> Seq<Seq<char>>
    decreases ls.len(),
{
    if ls.len() == 0 {
        Seq::empty()
    } else {
        let prev = spec_relevant_ids(ls.drop_last());
        if spec_is_relevant(ls.last()) {
            match spec_get_id(ls.last()) {
                Some(id) => if prev.contains(id) {
                    prev
                } else {
                    prev.push(id)
                },
                None => prev,
            }
        } else {
            prev
        }
    }
}

/// Every collected id was observed on at least one relevant line.
pub proof fn lemma_relevant_ids_sound(ls: Seq<Seq<char>>, id: Seq<char>)
    requires
        spec_relevant_ids(ls).contains(id),
    ensures
        exists|j: int|
            0 <= j < ls.len() && spec_is_relevant(ls[j]) && spec_get_id(ls[j]) == Some(id),
    decreases ls.len(),
{
    let prev = ls.drop_last();
    let ids = spec_relevant_ids(ls);
    let prev_ids = spec_relevant_ids(prev);
    if spec_is_relevant(ls.last()) && spec_get_id(ls.last()) is Some && !prev_ids.contains(
        spec_get_id(ls.last()).unwrap(),
    ) {
        let k = choose|k: int| 0 <= k < ids.len() && ids[k] == id;
        if k < prev_ids.len() {
            assert(prev_ids.contains(id));
            lemma_relevant_ids_sound(prev, id);
            let j = choose|j: int|
                0 <= j < prev.len() && spec_is_relevant(prev[j]) && spec_get_id(prev[j]) == Some(
                    id,
                );
            assert(spec_is_relevant(ls[j]) && spec_get_id(ls[j]) == Some(id));
        } else {
            assert(id == spec_get_id(ls.last()).unwrap());
            assert(spec_is_relevant(ls[ls.len() - 1]) && spec_get_id(ls[ls.len() - 1]) == Some(
                id,
            ));
        }
    } else {
        assert(prev_ids.contains(id));
        lemma_relevant_ids_sound(prev, id);
        let j = choose|j: int|
            0 <= j < prev.len() && spec_is_relevant(prev[j]) && spec_get_id(prev[j]) == Some(id);
        assert(spec_is_relevant(ls[j]) && spec_get_id(ls[j]) == Some(id));
    }
}

/// The id of every relevant id-bearing line is collected.
pub proof fn lemma_relevant_ids_complete(ls: Seq<Seq<char>>, j: int)
    requires
        0 <= j < ls.len(),
        spec_is_relevant(ls[j]),
        spec_get_id(ls[j]) is Some,
    ensures
        spec_relevant_ids(ls).contains(spec_get_id(ls[j]).unwrap()),
    decreases ls.len(),
{
    let prev = ls.drop_last();
    let prev_ids = spec_relevant_ids(prev);
    let id = spec_get_id(ls[j]).unwrap();
    if j == ls.len() - 1 {
        if prev_ids.contains(id) {
            let k = choose|k: int| 0 <= k < prev_ids.len() && prev_ids[k] == id;
            assert(spec_relevant_ids(ls)[k] == id);
        } else {
            assert(spec_relevant_ids(ls) == prev_ids.push(id));
            assert(spec_relevant_ids(ls)[prev_ids.len() as int] == id);
        }
    } else {
        assert(prev[j] == ls[j]);
        lemma_relevant_ids_complete(prev, j);
        let k = choose|k: int| 0 <= k < prev_ids.len() && prev_ids[k] == id;
        assert(spec_relevant_ids(ls)[k] == id);
    }
}

/// The collected ids hold no duplicates.
pub proof fn lemma_relevant_ids_no_dup(ls: Seq<Seq<char>>)
    ensures
        spec_relevant_ids(ls).no_duplicates(),
    decreases ls.len(),
{
    if ls.len() > 0 {
        let prev_ids = spec_relevant_ids(ls.drop_last());
        lemma_relevant_ids_no_dup(ls.drop_last());
        let ids = spec_relevant_ids(ls);
        if ids.len() == prev_ids.len() + 1 {
            let id = spec_get_id(ls.last()).unwrap();
            assert forall|a: int, b: int| 0 <= a < b < ids.len() implies ids[a] != ids[b] by {
                if b == prev_ids.len() {
                    if ids[a] == id {
                        assert(prev_ids.contains(id));
                    }
                }
            }
        }
    }
}

/// The member lines of the group of `id`: the lines of `ls` whose extracted
/// id is `id`, in original order.
pub open spec fn spec_group(ls: Seq<Seq<char>>, id: Seq<char>) -> Seq<Seq<char>>
    decreases ls.len(),
{
    if ls.len() == 0 {
        Seq::empty()
    } else {
        let prev = spec_group(ls.drop_last(), id);
        if spec_get_id(ls.last()) == Some(id) {
            prev.push(ls.last())
        } else {
            prev
        }
    }
}

/// Whether `v` holds a string whose characters are those of `s`.
fn contains_string(v: &Vec<String>, s: &str) -> (b: bool)
    ensures
        b == v.deep_view().contains(s@),
{
    let mut j: usize = 0;
    while j < v.len()
        invariant
            j <= v.len(),
            forall|k: int| 0 <= k < j ==> v.deep_view()[k] != s@,
        decreases v.len() - j,
    {
        let vj: &String = &v[j];
        if str_eq(vj.as_str(), s) {
            proof {
                assert(v.deep_view()[j as int] == s@);
            }
            return true;
        }
        j += 1;
    }
    proof {
        assert(v.deep_view().len() == v@.len());
    }
    false
}

/// The relevance pass: the ids of all relevant lines, deduplicated, in order
/// of first appearance.
pub fn get_relevant_ids(lines: &Vec<Line>) -> (r: Vec<String>)
    ensures
        r.deep_view() == spec_relevant_ids(lines.deep_view()),
{
    let ghost ls = lines.deep_view();
    let mut ids: Vec<String> = Vec::new();
    proof {
        assert(ids.deep_view() =~= spec_relevant_ids(ls.take(0)));
    }
    let mut i: usize = 0;
    while i < lines.len()
        invariant
            i <= lines.len(),
            ls == lines.deep_view(),
            ls.len() == lines.len(),
            ids.deep_view() == spec_relevant_ids(ls.take(i as int)),
        decreases lines.len() - i,
    {
        let line: &Line = &lines[i];
        proof {
            assert(ls.take(i + 1).drop_last() =~= ls.take(i as int));
            assert(ls.take(i + 1).last() == ls[i as int]);
            assert(ls[i as int] == line@);
        }
        if line.is_relevant() {
            match line.get_id() {
                Some(id) => {
                    if !contains_string(&ids, id) {
                        let ghost prev = ids.deep_view();
                        let owned: String = id.to_owned();
                        ids.push(owned);
                        proof {
                            assert(ids.deep_view() =~= prev.push(id@));
                        }
                    }
                },
                None => {},
            }
        }
        i += 1;
    }
    proof {
        assert(ls.take(ls.len() as int) =~= ls);
    }
    ids
}

/// The bucketing pass: one group per id, holding, in original order, every
/// line of `lines` — relevant or not — whose extracted id is that id.
pub fn group_by_id(lines: &Vec<Line>, relevant_ids: Vec<String>) -> (r: Vec<Request>)
    ensures
        r@.len() == relevant_ids@.len(),
        forall|k: int|
            0 <= k < r@.len() ==> r@[k]@ == spec_group(
                lines.deep_view(),
                relevant_ids.deep_view()[k],
            ),
{
    let ghost ls = lines.deep_view();
    let mut requests: Vec<Request> = Vec::new();
    let mut k: usize = 0;
    while k < relevant_ids.len()
        invariant
            k <= relevant_ids.len(),
            requests@.len() == k,
            ls == lines.deep_view(),
            ls.len() == lines.len(),
            forall|j: int|
                0 <= j < k ==> requests@[j]@ == spec_group(ls, relevant_ids.deep_view()[j]),
        decreases relevant_ids.len() - k,
    {
        let id: &String = &relevant_ids[k];
        proof {
            assert(id@ == relevant_ids.deep_view()[k as int]);
        }
        let mut req = Request::new();
        proof {
            assert(spec_group(ls.take(0), id@) =~= Seq::<Seq<char>>::empty());
        }
        let mut i: usize = 0;
        while i < lines.len()
            invariant
                i <= lines.len(),
                ls == lines.deep_view(),
                ls.len() == lines.len(),
                req@ == spec_group(ls.take(i as int), id@),
            decreases lines.len() - i,
        {
            let line: &Line = &lines[i];
            proof {
                assert(ls.take(i + 1).drop_last() =~= ls.take(i as int));
                assert(ls.take(i + 1).last() == ls[i as int]);
                assert(ls[i as int] == line@);
            }
            match line.get_id() {
                Some(lid) => {
                    if str_eq(lid, id.as_str()) {
                        req.add_line(Line::new(line.text()));
                    }
                },
                None => {},
            }
            i += 1;
        }
        proof {
            assert(ls.take(ls.len() as int) =~= ls);
        }
        requests.push(req);
        k += 1;
    }
    requests
}

/// The views of a sequence of requests.
pub open spec fn reqs_view(rs: Seq<Request>) -> Seq<Seq<Seq<char>>> {
    rs.map_values(|r: Request| r@)
}

/// No two tally entries share a key.
pub open spec fn distinct_keys(t: Seq<(Seq<char>, int)>) -> bool {
    forall|a: int, b: int| 0 <= a < b < t.len() ==> t[a].0 != t[b].0
}

/// One more occurrence of the message `m`: the count of its entry grows by
/// one, or a fresh entry with count one is appended.
pub open spec fn spec_bump(t: Seq<(Seq<char>, int)>, m: Seq<char>) -> Seq<(Seq<char>, int)> {
    if exists|k: int| 0 <= k < t.len() && t[k].0 == m {
        let k = choose|k: int| 0 <= k < t.len() && t[k].0 == m;
        t.update(k, (m, t[k].1 + 1))
    } else {
        t.push((m, 1))
    }
}

/// The tally of the representative error messages of `reqs`: one entry per
/// distinct message, counting the groups that produced it; groups without a
/// message are excluded.
pub open spec fn spec_tally(reqs: Seq<Seq<Seq<char>>>) -> Seq<(Seq<char>, int)>
    decreases reqs.len(),
{
    if reqs.len() == 0 {
        Seq::empty()
    } else {
        let prev = spec_tally(reqs.drop_last());
        match spec_rep_error_message(reqs.last()) {
            Some(m) => spec_bump(prev, m),
            None => prev,
        }
    }
}

proof fn lemma_bump_at_key(t: Seq<(Seq<char>, int)>, m: Seq<char>, k: int)
    requires
        distinct_keys(t),
        0 <= k < t.len(),
        t[k].0 == m,
    ensures
        spec_bump(t, m) == t.update(k, (m, t[k].1 + 1)),
{
    let k2 = choose|k2: int| 0 <= k2 < t.len() && t[k2].0 == m;
    assert(0 <= k2 < t.len() && t[k2].0 == m);
    if k != k2 {
        if k < k2 {
            assert(t[k].0 != t[k2].0);
        } else {
            assert(t[k2].0 != t[k].0);
        }
    }
}

proof fn lemma_bump_fresh_key(t: Seq<(Seq<char>, int)>, m: Seq<char>)
    requires
        forall|k: int| 0 <= k < t.len() ==> t[k].0 != m,
    ensures
        spec_bump(t, m) == t.push((m, 1)),
{
}

proof fn lemma_bump_distinct(t: Seq<(Seq<char>, int)>, m: Seq<char>)
    requires
        distinct_keys(t),
    ensures
        distinct_keys(spec_bump(t, m)),
{
    let u = spec_bump(t, m);
    if exists|k: int| 0 <= k < t.len() && t[k].0 == m {
        let k = choose|k: int| 0 <= k < t.len() && t[k].0 == m;
        assert forall|a: int, b: int| 0 <= a < b < u.len() implies u[a].0 != u[b].0 by {
            assert(t[a].0 != t[b].0);
        }
    } else {
        assert forall|a: int, b: int| 0 <= a < b < u.len() implies u[a].0 != u[b].0 by {
            if b < t.len() {
                assert(t[a].0 != t[b].0);
            } else {
                assert(u[b].0 == m);
            }
        }
    }
}

/// The distinctness of keys is an invariant of the tally.
pub proof fn lemma_tally_distinct(reqs: Seq<Seq<Seq<char>>>)
    ensures
        distinct_keys(spec_tally(reqs)),
    decreases reqs.len(),
{
    if reqs.len() > 0 {
        lemma_tally_distinct(reqs.drop_last());
        match spec_rep_error_message(reqs.last()) {
            Some(m) => lemma_bump_distinct(spec_tally(reqs.drop_last()), m),
            None => {},
        }
    }
}

/// Every count lies between one and the number of tallied groups.
pub proof fn lemma_tally_counts_bounded(reqs: Seq<Seq<Seq<char>>>)
    ensures
        forall|k: int|
            0 <= k < spec_tally(reqs).len() ==> 1 <= #[trigger] spec_tally(reqs)[k].1
                <= reqs.len(),
    decreases reqs.len(),
{
    if reqs.len() > 0 {
        let prev = spec_tally(reqs.drop_last());
        lemma_tally_counts_bounded(reqs.drop_last());
        match spec_rep_error_message(reqs.last()) {
            Some(m) => {
                lemma_tally_distinct(reqs.drop_last());
                if exists|k: int| 0 <= k < prev.len() && prev[k].0 == m {
                    let k = choose|k: int| 0 <= k < prev.len() && prev[k].0 == m;
                    lemma_bump_at_key(prev, m, k);
                    assert(spec_tally(reqs) == prev.update(k, (m, prev[k].1 + 1)));
                } else {
                    lemma_bump_fresh_key(prev, m);
                    assert(spec_tally(reqs) == prev.push((m, 1)));
                }
            },
            None => {},
        }
    }
}

/// The mathematical value of an executable tally.
pub open spec fn tally_abs(t: Seq<(String, usize)>) -> Seq<(Seq<char>, int)> {
    t.map_values(|p: (String, usize)| (p.0@, p.1 as int))
}

/// The index of the entry of `m` in `t`, if any.
fn find_key(t: &Vec<(String, usize)>, m: &str) -> (r: Option<usize>)
    ensures
        r matches Some(k) ==> k < t@.len() && t@[k as int].0@ == m@,
        r is None ==> forall|k: int| 0 <= k < t@.len() ==> t@[k].0@ != m@,
{
    let mut j: usize = 0;
    while j < t.len()
        invariant
            j <= t.len(),
            forall|k: int| 0 <= k < j ==> t@[k].0@ != m@,
        decreases t.len() - j,
    {
        let entry: &(String, usize) = &t[j];
        if str_eq(entry.0.as_str(), m) {
            return Some(j);
        }
        j += 1;
    }
    None
}

/// The error counter: the tally of the representative error messages of
/// `requests`, one entry per distinct message.
pub fn count_unique_errors(requests: &Vec<Request>) -> (r: Vec<(String, usize)>)
    ensures
        tally_abs(r@) == spec_tally(reqs_view(requests@)),
{
    let ghost rv = reqs_view(requests@);
    let mut tally: Vec<(String, usize)> = Vec::new();
    proof {
        assert(tally_abs(tally@) =~= spec_tally(rv.take(0)));
    }
    let mut i: usize = 0;
    while i < requests.len()
        invariant
            i <= requests.len(),
            rv == reqs_view(requests@),
            rv.len() == requests@.len(),
            tally_abs(tally@) == spec_tally(rv.take(i as int)),
        decreases requests.len() - i,
    {
        let req: &Request = &requests[i];
        let ghost prev = spec_tally(rv.take(i as int));
        proof {
            assert(rv.take(i + 1).drop_last() =~= rv.take(i as int));
            assert(rv.take(i + 1).last() == rv[i as int]);
            assert(rv[i as int] == req@);
            lemma_tally_distinct(rv.take(i as int));
            lemma_tally_counts_bounded(rv.take(i as int));
        }
        match req.get_error_message() {
            Some(msg) => {
                match find_key(&tally, msg) {
                    Some(k) => {
                        proof {
                            assert(tally_abs(tally@)[k as int] == prev[k as int]);
                            assert(prev[k as int].1 <= i);
                            lemma_bump_at_key(prev, msg@, k as int);
                        }
                        let entry = tally.remove(k);
                        let cnt: usize = entry.1;
                        tally.insert(k, (entry.0, cnt + 1));
                        proof {
                            assert(tally_abs(tally@) =~= prev.update(
                                k as int,
                                (msg@, prev[k as int].1 + 1),
                            ));
                        }
                    },
                    None => {
                        proof {
                            lemma_bump_fresh_key(prev, msg@);
                        }
                        let owned: String = msg.to_owned();
                        tally.push((owned, 1));
                        proof {
                            assert(tally_abs(tally@) =~= prev.push((msg@, 1)));
                        }
                    },
                }
            },
            None => {},
        }
        i += 1;
    }
    proof {
        assert(rv.take(rv.len() as int) =~= rv);
    }
    tally
}

/// The sum of all counts of a tally.
pub open spec fn spec_sum_counts(t: Seq<(Seq<char>, int)>) -> int
    decreases t.len(),
{
    if t.len() == 0 {
        0
    } else {
        spec_sum_counts(t.drop_last()) + t.last().1
    }
}

/// The number of groups that produced a representative error message.
pub open spec fn spec_groups_with_message(reqs: Seq<Seq<Seq<char>>>) -> int
    decreases reqs.len(),
{
    if reqs.len() == 0 {
        0
    } else {
        spec_groups_with_message(reqs.drop_last()) + if spec_rep_error_message(
            reqs.last(),
        ) is Some {
            1int
        } else {
            0int
        }
    }
}

proof fn lemma_sum_counts_update(t: Seq<(Seq<char>, int)>, k: int, m: Seq<char>)
    requires
        0 <= k < t.len(),
    ensures
        spec_sum_counts(t.update(k, (m, t[k].1 + 1))) == spec_sum_counts(t) + 1,
    decreases t.len(),
{
    let u = t.update(k, (m, t[k].1 + 1));
    if k == t.len() - 1 {
        assert(u.drop_last() =~= t.drop_last());
    } else {
        assert(u.drop_last() =~= t.drop_last().update(k, (m, t[k].1 + 1)));
        assert(u.last() == t.last());
        lemma_sum_counts_update(t.drop_last(), k, m);
    }
}

proof fn lemma_bump_sum(t: Seq<(Seq<char>, int)>, m: Seq<char>)
    requires
        distinct_keys(t),
    ensures
        spec_sum_counts(spec_bump(t, m)) == spec_sum_counts(t) + 1,
{
    if exists|k: int| 0 <= k < t.len() && t[k].0 == m {
        let k = choose|k: int| 0 <= k < t.len() && t[k].0 == m;
        lemma_bump_at_key(t, m, k);
        lemma_sum_counts_update(t, k, m);
    } else {
        lemma_bump_fresh_key(t, m);
        let u = t.push((m, 1int));
        assert(u.drop_last() =~= t);
    }
}

/// The counts of the tally add up to the number of groups that produced a
/// representative error message.
pub proof fn lemma_tally_sum(reqs: Seq<Seq<Seq<char>>>)
    ensures
        spec_sum_counts(spec_tally(reqs)) == spec_groups_with_message(reqs),
    decreases reqs.len(),
{
    if reqs.len() > 0 {
        lemma_tally_sum(reqs.drop_last());
        lemma_tally_distinct(reqs.drop_last());
        match spec_rep_error_message(reqs.last()) {
            Some(m) => lemma_bump_sum(spec_tally(reqs.drop_last()), m),
            None => {},
        }
    }
}

/// The groups of a run, in the order of their ids.
pub open spec fn spec_groups(ls: Seq<Seq<char>>) -> Seq<Seq<Seq<char>>> {
    spec_relevant_ids(ls).map_values(|id: Seq<char>| spec_group(ls, id))
}

/// Two runs over identical input produce identical ids, identical groups and
/// an identical tally.
pub proof fn lemma_pipeline_deterministic(a: Seq<Seq<char>>, b: Seq<Seq<char>>)
    requires
        a == b,
    ensures
        spec_relevant_ids(a) == spec_relevant_ids(b),
        spec_groups(a) == spec_groups(b),
        spec_tally(spec_groups(a)) == spec_tally(spec_groups(b)),
{
}

/// The whole pipeline: relevance pass, bucketing pass, error tally.
pub fn run_pipeline(lines: &Vec<Line>) -> (r: (Vec<Request>, Vec<(String, usize)>))
    ensures
        reqs_view(r.0@) == spec_groups(lines.deep_view()),
        tally_abs(r.1@) == spec_tally(spec_groups(lines.deep_view())),
{
    let ids = get_relevant_ids(lines);
    let requests = group_by_id(lines, ids);
    let tally = count_unique_errors(&requests);
    proof {
        assert(reqs_view(requests@) =~= spec_groups(lines.deep_view()));
    }
    (requests, tally)
}

} // verus!
