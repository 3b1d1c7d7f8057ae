//! Folder context classification results, and how well the active profile
//! fits what a snapshot contains. Selecting the wrong profile is otherwise
//! silent: the fitness signal names the shipped profile that would have
//! protected the most folders this run left unprotected. It warns and never
//! refuses.

use vstd::prelude::*;
use crate::text::{push_str, push_decimal, decimal, string_from_chars, copy_str, str_chars, chars_lt, chars_less, lemma_chars_lt_transitive, lemma_chars_lt_irreflexive};

verus! {

/// How well the active profile fits what this snapshot contains.
#[derive(Clone, Debug, PartialEq, Eq)]
pub struct ProfileFitnessSignal {
    /// The shipped profile that would protect the most of what this run
    /// left unprotected.
    pub profile_id: String,
    /// How many folders of this snapshot it would classify as protected
    /// while the active profile did not.
    pub unprotected_folders: u64,
}

/// Counts of a classification.
#[derive(Clone, Debug, PartialEq, Eq)]
pub struct ContextSummary {
    pub generic_folders: u64,
    pub protected_boundaries: u64,
    pub neutral_folders: u64,
    pub profile_fitness: Option<ProfileFitnessSignal>,
}

impl ProfileFitnessSignal {
    pub open spec fn message_text(self) -> Seq<char> {
        "profile \""@ + self.profile_id@ + "\" would protect "@ + decimal(
            self.unprotected_folders as nat,
        ) + " folders this run leaves unprotected"@
    }

    /// The one wording, so every surface describes the same evidence alike.
    pub fn message(&self) -> (m: String)
        ensures
            m@ == self.message_text(),
    {
        let mut out: Vec<char> = Vec::new();
        push_str(&mut out, "profile \"");
        push_str(&mut out, self.profile_id.as_str());
        push_str(&mut out, "\" would protect ");
        push_decimal(&mut out, self.unprotected_folders);
        push_str(&mut out, " folders this run leaves unprotected");
        assert(out@ =~= self.message_text());
        string_from_chars(out.as_slice())
    }
}

/// Whether position `k` holds the strongest alternative among the counts:
/// a positive count, no count greater, and no equal count under a profile
/// id that sorts first.
pub open spec fn is_strongest(counts: Seq<(Seq<char>, u64)>, k: int) -> bool {
    &&& 0 <= k < counts.len()
    &&& counts[k].1 > 0
    &&& forall|j: int| 0 <= j < counts.len() ==> (#[trigger] counts[j]).1 <= counts[k].1
    &&& forall|j: int|
        0 <= j < counts.len() && (#[trigger] counts[j]).1 == counts[k].1 ==> !chars_lt(
            counts[j].0,
            counts[k].0,
        )
}

pub open spec fn count_views(counts: Seq<(String, u64)>) -> Seq<(Seq<char>, u64)> {
    counts.map_values(|c: (String, u64)| (c.0@, c.1))
}

/// The strongest alternative profile, from the number of folders each
/// shipped profile would protect that this run left unprotected: the
/// highest positive count, a tie going to the profile id that sorts first;
/// `None` when no profile would protect anything more.
pub fn strongest_alternative(counts: &Vec<(String, u64)>) -> (r: Option<ProfileFitnessSignal>)
    ensures
        r is None <==> forall|j: int| 0 <= j < counts@.len() ==> (#[trigger] counts@[j]).1 == 0,
        r matches Some(s) ==> exists|k: int|
            #[trigger] is_strongest(count_views(counts@), k) && count_views(counts@)[k] == (
                s.profile_id@,
                s.unprotected_folders,
            ),
{
    let ghost cv = count_views(counts@);
    let mut best: Option<usize> = None;
    let mut i: usize = 0;
    while i < counts.len()
        invariant
            0 <= i <= counts@.len(),
            cv == count_views(counts@),
            best is None ==> forall|j: int| 0 <= j < i ==> (#[trigger] counts@[j]).1 == 0,
            best matches Some(b) ==> {
                &&& b < i
                &&& cv[b as int].1 > 0
                &&& forall|j: int| 0 <= j < i ==> (#[trigger] cv[j]).1 <= cv[b as int].1
                &&& forall|j: int|
                    0 <= j < i && (#[trigger] cv[j]).1 == cv[b as int].1 ==> !chars_lt(
                        cv[j].0,
                        cv[b as int].0,
                    )
            },
        decreases counts@.len() - i,
    {
        assert(cv[i as int] == (counts@[i as int].0@, counts@[i as int].1));
        let count = counts[i].1;
        if count > 0 {
            match best {
                None => {
                    proof {
                        lemma_chars_lt_irreflexive(cv[i as int].0);
                    }
                    best = Some(i);
                },
                Some(b) => {
                    let better = if count > counts[b].1 {
                        true
                    } else if count == counts[b].1 {
                        let x = str_chars(counts[i].0.as_str());
                        let y = str_chars(counts[b].0.as_str());
                        chars_less(&x, &y)
                    } else {
                        false
                    };
                    if better {
                        proof {
                            lemma_chars_lt_irreflexive(cv[i as int].0);
                            assert forall|j: int|
                                0 <= j < i + 1 && (#[trigger] cv[j]).1 == cv[i as int].1 implies !chars_lt(
                                cv[j].0,
                                cv[i as int].0,
                            ) by {
                                if j < i && chars_lt(cv[j].0, cv[i as int].0) {
                                    lemma_chars_lt_transitive(cv[j].0, cv[i as int].0, cv[b as int].0);
                                }
                            }
                        }
                        best = Some(i);
                    }
                },
            }
        }
        i = i + 1;
    }
    match best {
        None => None,
        Some(b) => {
            assert(is_strongest(cv, b as int));
            Some(
                ProfileFitnessSignal {
                    profile_id: copy_str(counts[b].0.as_str()),
                    unprotected_folders: counts[b].1,
                },
            )
        },
    }
}

} // verus!
