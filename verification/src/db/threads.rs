//! Mail threads of an extraction run. A thread is stored only when its shape
//! is sound: thread ids are unique, every thread has members, a message
//! belongs to at most one thread and appears once, and a parent message
//! comes before its replies within the thread (so no message is its own
//! ancestor).

use vstd::prelude::*;

verus! {

/// One message of a thread, with the message it replies to.
#[derive(Clone, Copy, Debug, PartialEq, Eq, Structural)]
pub struct MailThreadMemberInput {
    pub representation_id: u128,
    pub parent_representation_id: Option<u128>,
}

/// A reconstructed thread. Parent messages must occur before their
/// children.
#[derive(Clone, Debug, PartialEq, Eq)]
pub struct MailThreadInput {
    pub id: u128,
    pub root_message_id: Option<String>,
    pub normalized_subject: Option<String>,
    pub members: Vec<MailThreadMemberInput>,
}

/// Why a set of threads is refused.
#[derive(Clone, Copy, Debug, PartialEq, Eq, Structural)]
pub enum ThreadProblem {
    /// A thread id repeats, or a thread has no member.
    Threads,
    /// A message repeats, replies to itself, or comes before its parent.
    Members,
}

impl ThreadProblem {
    pub open spec fn text(self) -> Seq<char> {
        match self {
            ThreadProblem::Threads => "mail threads require unique IDs and at least one member"@,
            ThreadProblem::Members => "mail thread members are duplicated, cyclic or not parent-first"@,
        }
    }

    /// The validation message shown for the problem.
    pub fn message(self) -> (m: String)
        ensures
            m@ == self.text(),
    {
        match self {
            ThreadProblem::Threads => "mail threads require unique IDs and at least one member".to_string(),
            ThreadProblem::Members => "mail thread members are duplicated, cyclic or not parent-first".to_string(),
        }
    }
}

pub open spec fn member_ids(ms: Seq<MailThreadMemberInput>) -> Seq<u128> {
    ms.map_values(|m: MailThreadMemberInput| m.representation_id)
}

pub open spec fn thread_ids(ts: Seq<MailThreadInput>) -> Seq<u128> {
    ts.map_values(|t: MailThreadInput| t.id)
}

/// The messages of the threads, thread by thread, in order.
pub open spec fn all_member_ids(ts: Seq<MailThreadInput>) -> Seq<u128>
    decreases ts.len(),
{
    if ts.len() == 0 {
        Seq::empty()
    } else {
        all_member_ids(ts.drop_last()) + member_ids(ts.last().members@)
    }
}

/// A member is sound after the messages `prior` (all earlier messages) and
/// `earlier` (the earlier messages of its own thread): it is new, does not
/// reply to itself, and its parent, if any, came earlier in its thread.
pub open spec fn member_ok(prior: Seq<u128>, earlier: Seq<u128>, m: MailThreadMemberInput) -> bool {
    &&& !prior.contains(m.representation_id)
    &&& m.parent_representation_id != Some(m.representation_id)
    &&& (m.parent_representation_id matches Some(p) ==> earlier.contains(p))
}

/// Whether one of the first `n` members of a thread is unsound, after the
/// messages of the earlier threads.
pub open spec fn members_problem(before: Seq<u128>, ms: Seq<MailThreadMemberInput>, n: int) -> bool
    decreases n,
{
    if n <= 0 {
        false
    } else {
        members_problem(before, ms, n - 1) || !member_ok(
            before + member_ids(ms.take(n - 1)),
            member_ids(ms.take(n - 1)),
            ms[n - 1],
        )
    }
}

/// The first problem of the threads, checked thread by thread in order.
pub open spec fn threads_problem(ts: Seq<MailThreadInput>) -> Option<ThreadProblem>
    decreases ts.len(),
{
    if ts.len() == 0 {
        None
    } else {
        match threads_problem(ts.drop_last()) {
            Some(p) => Some(p),
            None => {
                let t = ts.last();
                if thread_ids(ts.drop_last()).contains(t.id) || t.members@.len() == 0 {
                    Some(ThreadProblem::Threads)
                } else if members_problem(all_member_ids(ts.drop_last()), t.members@, t.members@.len() as int) {
                    Some(ThreadProblem::Members)
                } else {
                    None
                }
            },
        }
    }
}

fn contains_id(v: &Vec<u128>, x: u128) -> (b: bool)
    ensures
        b == v@.contains(x),
{
    let mut i: usize = 0;
    while i < v.len()
        invariant
            0 <= i <= v@.len(),
            forall|j: int| 0 <= j < i ==> v@[j] != x,
        decreases v@.len() - i,
    {
        if v[i] == x {
            return true;
        }
        i = i + 1;
    }
    false
}

/// Check the shape of threads before they are stored: `Ok` exactly when
/// `threads_problem` finds nothing, else the first problem found.
pub fn check_mail_threads(threads: &Vec<MailThreadInput>) -> (r: Result<(), ThreadProblem>)
    ensures
        match threads_problem(threads@) {
            None => r is Ok,
            Some(p) => r == Err::<(), ThreadProblem>(p),
        },
{
    let ghost ts = threads@;
    let mut ids: Vec<u128> = Vec::new();
    let mut all: Vec<u128> = Vec::new();
    let mut k: usize = 0;
    while k < threads.len()
        invariant
            0 <= k <= ts.len(),
            ts == threads@,
            ids@ == thread_ids(ts.take(k as int)),
            all@ == all_member_ids(ts.take(k as int)),
            threads_problem(ts.take(k as int)) is None,
        decreases ts.len() - k,
    {
        let t = &threads[k];
        let ghost prefix = ts.take(k + 1);
        assert(prefix.drop_last() =~= ts.take(k as int));
        assert(prefix.last() == ts[k as int]);
        if contains_id(&ids, t.id) || t.members.len() == 0 {
            assert(ts.take(ts.len() as int) =~= ts);
            proof {
                lemma_problem_persists(ts, k as int + 1);
            }
            return Err(ThreadProblem::Threads);
        }
        assert(prefix.last() == *t);
        let ghost before = all@;
        let ghost ms = t.members@;
        let mut earlier: Vec<u128> = Vec::new();
        let mut i: usize = 0;
        while i < t.members.len()
            invariant
                0 <= i <= ms.len(),
                ms == t.members@,
                earlier@ == member_ids(ms.take(i as int)),
                all@ == before + earlier@,
                !members_problem(before, ms, i as int),
                k < ts.len(),
                ts == threads@,
                prefix == ts.take(k + 1),
                prefix.drop_last() == ts.take(k as int),
                prefix.last() == *t,
                ms == t.members@,
                ms.len() > 0,
                before == all_member_ids(ts.take(k as int)),
                ids@ == thread_ids(ts.take(k as int)),
                !thread_ids(ts.take(k as int)).contains(t.id),
                threads_problem(ts.take(k as int)) is None,
            decreases ms.len() - i,
        {
            let m = t.members[i];
            assert(ms.take(i + 1) =~= ms.take(i as int).push(ms[i as int]));
            assert(member_ids(ms.take(i + 1)) =~= member_ids(ms.take(i as int)).push(m.representation_id));
            let bad = contains_id(&all, m.representation_id) || match m.parent_representation_id {
                Some(p) => p == m.representation_id || !contains_id(&earlier, p),
                None => false,
            };
            if bad {
                assert(members_problem(before, ms, i + 1));
                proof {
                    lemma_members_problem_persists(before, ms, i + 1, ms.len() as int);
                    lemma_problem_persists(ts, k as int + 1);
                }
                assert(ts.take(ts.len() as int) =~= ts);
                return Err(ThreadProblem::Members);
            }
            earlier.push(m.representation_id);
            all.push(m.representation_id);
            assert(all@ =~= before + earlier@);
            i = i + 1;
        }
        assert(ms.take(ms.len() as int) =~= ms);
        assert(all@ =~= all_member_ids(prefix));
        ids.push(t.id);
        assert(ids@ =~= thread_ids(prefix));
        k = k + 1;
    }
    assert(ts.take(ts.len() as int) =~= ts);
    Ok(())
}

proof fn lemma_members_problem_persists(before: Seq<u128>, ms: Seq<MailThreadMemberInput>, n: int, m: int)
    requires
        0 <= n <= m,
        members_problem(before, ms, n),
    ensures
        members_problem(before, ms, m),
    decreases m - n,
{
    if n < m {
        lemma_members_problem_persists(before, ms, n, m - 1);
    }
}

/// A problem in a prefix of the threads is the problem of the whole list.
proof fn lemma_problem_persists(ts: Seq<MailThreadInput>, n: int)
    requires
        0 <= n <= ts.len(),
        threads_problem(ts.take(n)) is Some,
    ensures
        threads_problem(ts) == threads_problem(ts.take(n)),
    decreases ts.len() - n,
{
    if n < ts.len() {
        assert(ts.take(n + 1).drop_last() =~= ts.take(n));
        lemma_problem_persists(ts, n + 1);
    } else {
        assert(ts.take(n) =~= ts);
    }
}

/// What to do with threads offered for a run.
#[derive(Clone, Copy, Debug, PartialEq, Eq, Structural)]
pub enum ThreadStep {
    /// The same threads are already stored; report this many.
    AlreadyStored(u64),
    /// The run is sealed and holds other threads.
    Sealed,
    /// The run holds other threads than these.
    ReplayDiffers,
    /// There is nothing to store.
    Nothing,
    /// Check the threads' shape and store them.
    Store,
}

/// The decision before threads are stored: a sealed run takes only an
/// exact replay of what it holds; a running run that already holds threads
/// takes only the same threads again; an empty offer stores nothing.
/// `stored_match` says whether what the run holds equals the offer.
pub fn mail_thread_step(running: bool, completed: bool, existing: u64, offered: u64, stored_match: bool) -> (step: ThreadStep)
    ensures
        step == (if !running {
            if completed && stored_match {
                ThreadStep::AlreadyStored(offered)
            } else {
                ThreadStep::Sealed
            }
        } else if existing != 0 {
            if stored_match {
                ThreadStep::AlreadyStored(existing)
            } else {
                ThreadStep::ReplayDiffers
            }
        } else if offered == 0 {
            ThreadStep::Nothing
        } else {
            ThreadStep::Store
        }),
{
    if !running {
        if completed && stored_match {
            ThreadStep::AlreadyStored(offered)
        } else {
            ThreadStep::Sealed
        }
    } else if existing != 0 {
        if stored_match {
            ThreadStep::AlreadyStored(existing)
        } else {
            ThreadStep::ReplayDiffers
        }
    } else if offered == 0 {
        ThreadStep::Nothing
    } else {
        ThreadStep::Store
    }
}

} // verus!
