//! Rule matches of a snapshot. Every rule of the profile whose file-name
//! pattern matches a readable occurrence gives one match, in the profile's
//! order; the first matching rule is the selected one. A selected rule that
//! asks for copy review, and any high-risk rule, put the occurrence up for
//! human review.

use vstd::prelude::*;
use crate::db::analysis::{stable_id, id_preimage};
use crate::digest::sha256_hex_of;
use crate::json::{Json, JsonValue, json_text, canonical, push_member, view_members};
use crate::text::{decimal, decimal_string, copy_str};

verus! {

/// What a rule match reads of an occurrence.
#[derive(Clone, Debug)]
pub struct RuleOccurrence {
    pub id: String,
    pub file_name: String,
    pub relative_path: String,
    /// Whether the occurrence was read normally; only those are evaluated.
    pub read_ok: bool,
}

/// What a rule match reads of a rule of the profile.
#[derive(Clone, Debug)]
pub struct RuleFacts {
    pub id: String,
    pub version: u64,
    pub file_name_glob: String,
    /// The rule's action is copy review.
    pub copy_review: bool,
    /// The rule's risk is high.
    pub high_risk: bool,
}

/// The action a rule-backed review recommends.
#[derive(Clone, Copy, Debug, PartialEq, Eq, Structural)]
pub enum Recommended {
    /// The selected rule's own action.
    RuleAction,
    /// Copy and review.
    CopyReview,
}

/// One rule match, ready to be stored.
#[derive(Clone, Debug)]
pub struct RuleMatch {
    pub id: String,
    pub occurrence_id: String,
    /// The rule's position in the profile.
    pub priority: u64,
    pub selected: bool,
    /// Canonical JSON of the evidence.
    pub evidence: String,
    /// The review this match asks for: its id and recommended action.
    pub review: Option<(String, Recommended)>,
}

/// The abstract form of a rule match.
pub struct MatchView {
    pub id: Seq<char>,
    pub occurrence_id: Seq<char>,
    pub priority: nat,
    pub selected: bool,
    pub evidence: Json,
    pub review: Option<(Seq<char>, Recommended)>,
}

pub open spec fn match_states(m: RuleMatch, v: MatchView) -> bool {
    &&& m.id@ == v.id
    &&& m.occurrence_id@ == v.occurrence_id
    &&& m.priority == v.priority
    &&& m.selected == v.selected
    &&& m.evidence@ == json_text(v.evidence, true)
    &&& match (m.review, v.review) {
        (Some((rid, a)), Some((vid, b))) => rid@ == vid && a == b,
        (None, None) => true,
        _ => false,
    }
}

pub open spec fn all_match(ms: Seq<RuleMatch>, vs: Seq<MatchView>) -> bool {
    &&& ms.len() == vs.len()
    &&& forall|i: int| 0 <= i < ms.len() ==> match_states(#[trigger] ms[i], vs[i])
}

/// How many of the first `k` rules match.
pub open spec fn hits_before(hits: Seq<bool>, k: int) -> int
    decreases k,
{
    if k <= 0 {
        0
    } else {
        hits_before(hits, k - 1) + if hits[k - 1] {
            1int
        } else {
            0int
        }
    }
}

/// The match of rule `k` on an occurrence: selected when no earlier rule
/// matched; reviewed when selected with copy review, or when the rule is
/// high-risk.
pub open spec fn match_view(
    snapshot: Seq<char>,
    profile_id: Seq<char>,
    profile_sha256: Seq<char>,
    o: RuleOccurrence,
    rule: RuleFacts,
    k: int,
    selected: bool,
) -> MatchView {
    let id = sha256_hex_of(
        id_preimage("rule-match"@, seq![snapshot, o.id@, rule.id@, decimal(rule.version as nat)]),
    );
    MatchView {
        id,
        occurrence_id: o.id@,
        priority: k as nat,
        selected,
        evidence: Json::Object(
            seq![
                ("file_name"@, Json::Str(o.file_name@)),
                ("file_name_glob"@, Json::Str(rule.file_name_glob@)),
                ("relative_path"@, Json::Str(o.relative_path@)),
                ("profile_id"@, Json::Str(profile_id)),
                ("profile_sha256"@, Json::Str(profile_sha256)),
                ("rule_id"@, Json::Str(rule.id@)),
                ("rule_version"@, Json::Number(decimal(rule.version as nat))),
                ("priority"@, Json::Number(decimal(k as nat))),
                ("selected"@, Json::Bool(selected)),
            ],
        ),
        review: if (selected && rule.copy_review) || rule.high_risk {
            Some(
                (
                    sha256_hex_of(id_preimage("rule-review"@, seq![id])),
                    if selected {
                        Recommended::RuleAction
                    } else {
                        Recommended::CopyReview
                    },
                ),
            )
        } else {
            None
        },
    }
}

/// The matches on one occurrence among the first `k` rules, in rule order.
pub open spec fn occurrence_matches(
    snapshot: Seq<char>,
    profile_id: Seq<char>,
    profile_sha256: Seq<char>,
    o: RuleOccurrence,
    rules: Seq<RuleFacts>,
    hits: Seq<bool>,
    k: int,
) -> Seq<MatchView>
    decreases k,
{
    if k <= 0 {
        Seq::empty()
    } else {
        occurrence_matches(snapshot, profile_id, profile_sha256, o, rules, hits, k - 1) + if hits[k - 1] {
            seq![match_view(snapshot, profile_id, profile_sha256, o, rules[k - 1], k - 1, hits_before(hits, k - 1) == 0)]
        } else {
            Seq::empty()
        }
    }
}

/// The matches on the first `n` occurrences, occurrence by occurrence;
/// an occurrence that was not read normally has none.
pub open spec fn matches_of(
    snapshot: Seq<char>,
    profile_id: Seq<char>,
    profile_sha256: Seq<char>,
    occs: Seq<RuleOccurrence>,
    rules: Seq<RuleFacts>,
    hits: Seq<Seq<bool>>,
    n: int,
) -> Seq<MatchView>
    decreases n,
{
    if n <= 0 {
        Seq::empty()
    } else {
        matches_of(snapshot, profile_id, profile_sha256, occs, rules, hits, n - 1) + if occs[n - 1].read_ok {
            occurrence_matches(snapshot, profile_id, profile_sha256, occs[n - 1], rules, hits[n - 1], rules.len() as int)
        } else {
            Seq::empty()
        }
    }
}

pub open spec fn hit_views(hits: Seq<Vec<bool>>) -> Seq<Seq<bool>> {
    hits.map_values(|h: Vec<bool>| h@)
}

fn one_match(
    snapshot: &str,
    profile_id: &str,
    profile_sha256: &str,
    o: &RuleOccurrence,
    rule: &RuleFacts,
    k: usize,
    selected: bool,
) -> (m: RuleMatch)
    ensures
        match_states(m, match_view(snapshot@, profile_id@, profile_sha256@, *o, *rule, k as int, selected)),
{
    let version = decimal_string(rule.version);
    let parts: Vec<&str> = vec![snapshot, o.id.as_str(), rule.id.as_str(), version.as_str()];
    let id = stable_id("rule-match", parts.as_slice());
    assert(crate::db::analysis::part_views(parts@) =~= seq![snapshot@, o.id@, rule.id@, decimal(rule.version as nat)]);
    let mut m: Vec<(String, JsonValue)> = Vec::new();
    push_member(&mut m, "file_name", JsonValue::string(o.file_name.as_str()));
    push_member(&mut m, "file_name_glob", JsonValue::string(rule.file_name_glob.as_str()));
    push_member(&mut m, "relative_path", JsonValue::string(o.relative_path.as_str()));
    push_member(&mut m, "profile_id", JsonValue::string(profile_id));
    push_member(&mut m, "profile_sha256", JsonValue::string(profile_sha256));
    push_member(&mut m, "rule_id", JsonValue::string(rule.id.as_str()));
    push_member(&mut m, "rule_version", JsonValue::number(rule.version));
    push_member(&mut m, "priority", JsonValue::number(k as u64));
    push_member(&mut m, "selected", JsonValue::boolean(selected));
    let ghost v = match_view(snapshot@, profile_id@, profile_sha256@, *o, *rule, k as int, selected);
    assert(view_members(m@) =~= v.evidence->Object_0);
    let ev = JsonValue::object(m);
    let review = if (selected && rule.copy_review) || rule.high_risk {
        let review_parts: Vec<&str> = vec![id.as_str()];
        let review_id = stable_id("rule-review", review_parts.as_slice());
        assert(crate::db::analysis::part_views(review_parts@) =~= seq![id@]);
        Some((review_id, if selected { Recommended::RuleAction } else { Recommended::CopyReview }))
    } else {
        None
    };
    RuleMatch {
        id,
        occurrence_id: copy_str(o.id.as_str()),
        priority: k as u64,
        selected,
        evidence: canonical(&ev),
        review,
    }
}

/// The rule matches of a snapshot, occurrence by occurrence and rule by
/// rule, stating `matches_of` one for one. `hits[i][k]` says whether rule
/// `k` of the profile matches the file name of occurrence `i`.
pub fn rule_matches(
    snapshot_id: &str,
    profile_id: &str,
    profile_sha256: &str,
    occurrences: &Vec<RuleOccurrence>,
    rules: &Vec<RuleFacts>,
    hits: &Vec<Vec<bool>>,
) -> (out: Vec<RuleMatch>)
    requires
        hits@.len() == occurrences@.len(),
        forall|i: int| 0 <= i < hits@.len() ==> (#[trigger] hits@[i])@.len() == rules@.len(),
    ensures
        all_match(
            out@,
            matches_of(
                snapshot_id@,
                profile_id@,
                profile_sha256@,
                occurrences@,
                rules@,
                hit_views(hits@),
                occurrences@.len() as int,
            ),
        ),
{
    let ghost (s, p, h) = (snapshot_id@, profile_id@, profile_sha256@);
    let ghost hv = hit_views(hits@);
    let mut out: Vec<RuleMatch> = Vec::new();
    let mut i: usize = 0;
    while i < occurrences.len()
        invariant
            0 <= i <= occurrences@.len(),
            hits@.len() == occurrences@.len(),
            forall|j: int| 0 <= j < hits@.len() ==> (#[trigger] hits@[j])@.len() == rules@.len(),
            hv == hit_views(hits@),
            s == snapshot_id@ && p == profile_id@ && h == profile_sha256@,
            all_match(out@, matches_of(s, p, h, occurrences@, rules@, hv, i as int)),
        decreases occurrences@.len() - i,
    {
        let o = &occurrences[i];
        let row = &hits[i];
        assert(hv[i as int] == row@);
        let ghost base = matches_of(s, p, h, occurrences@, rules@, hv, i as int);
        if o.read_ok {
            let mut k: usize = 0;
            let mut found: u64 = 0;
            while k < rules.len()
                invariant
                    0 <= k <= rules@.len(),
                    row@.len() == rules@.len(),
                    found == hits_before(row@, k as int),
                    found <= k,
                    s == snapshot_id@ && p == profile_id@ && h == profile_sha256@,
                    all_match(out@, base + occurrence_matches(s, p, h, *o, rules@, row@, k as int)),
                decreases rules@.len() - k,
            {
                if row[k] {
                    let m = one_match(snapshot_id, profile_id, profile_sha256, o, &rules[k], k, found == 0);
                    let ghost before = out@;
                    let ghost target = base + occurrence_matches(s, p, h, *o, rules@, row@, k + 1);
                    out.push(m);
                    proof {
                        assert(target =~= base + occurrence_matches(s, p, h, *o, rules@, row@, k as int)
                            + seq![match_view(s, p, h, *o, rules@[k as int], k as int, hits_before(row@, k as int) == 0)]);
                        assert forall|x: int| 0 <= x < out@.len() implies match_states(#[trigger] out@[x], target[x]) by {
                            if x < before.len() {
                                assert(out@[x] == before[x]);
                            }
                        }
                    }
                    found = found + 1;
                } else {
                    assert(occurrence_matches(s, p, h, *o, rules@, row@, k + 1) =~= occurrence_matches(s, p, h, *o, rules@, row@, k as int));
                }
                k = k + 1;
            }
            assert(base + occurrence_matches(s, p, h, *o, rules@, row@, rules@.len() as int) =~= matches_of(s, p, h, occurrences@, rules@, hv, i + 1));
        } else {
            assert(base =~= matches_of(s, p, h, occurrences@, rules@, hv, i + 1));
        }
        i = i + 1;
    }
    out
}


/// A match's facts against its occurrence and rule: it names a readable
/// occurrence, a rule of the profile that matches it, is selected exactly
/// when no earlier rule matches, and asks for review exactly when it is
/// selected with copy review or its rule is high-risk; a review
/// recommends the rule's action only for the selected match.
pub open spec fn match_facts(
    v: MatchView,
    occs: Seq<RuleOccurrence>,
    rules: Seq<RuleFacts>,
    hits: Seq<Seq<bool>>,
) -> bool {
    &&& v.priority < rules.len()
    &&& exists|a: int|
        0 <= a < occs.len() && (#[trigger] occs[a]).id@ == v.occurrence_id && occs[a].read_ok
            && hits[a][v.priority as int] && (v.selected <==> forall|k: int|
            0 <= k < v.priority ==> !#[trigger] hits[a][k])
    &&& (v.review is Some <==> (v.selected && rules[v.priority as int].copy_review)
        || rules[v.priority as int].high_risk)
    &&& (v.review matches Some((_, action)) ==> action == if v.selected {
        Recommended::RuleAction
    } else {
        Recommended::CopyReview
    })
}

proof fn lemma_hits_before_zero(hits: Seq<bool>, k: int)
    requires
        0 <= k <= hits.len(),
    ensures
        hits_before(hits, k) == 0 <==> forall|j: int| 0 <= j < k ==> !#[trigger] hits[j],
        hits_before(hits, k) >= 0,
    decreases k,
{
    if k > 0 {
        lemma_hits_before_zero(hits, k - 1);
    }
}

proof fn lemma_occurrence_match_facts(
    s: Seq<char>,
    p: Seq<char>,
    h: Seq<char>,
    occs: Seq<RuleOccurrence>,
    rules: Seq<RuleFacts>,
    hits: Seq<Seq<bool>>,
    a: int,
    k: int,
)
    requires
        0 <= a < occs.len(),
        occs[a].read_ok,
        hits.len() == occs.len(),
        hits[a].len() == rules.len(),
        0 <= k <= rules.len(),
    ensures
        forall|i: int|
            0 <= i < occurrence_matches(s, p, h, occs[a], rules, hits[a], k).len() ==> match_facts(
                #[trigger] occurrence_matches(s, p, h, occs[a], rules, hits[a], k)[i],
                occs,
                rules,
                hits,
            ),
    decreases k,
{
    if k > 0 {
        lemma_occurrence_match_facts(s, p, h, occs, rules, hits, a, k - 1);
        let prev = occurrence_matches(s, p, h, occs[a], rules, hits[a], k - 1);
        let cur = occurrence_matches(s, p, h, occs[a], rules, hits[a], k);
        if hits[a][k - 1] {
            lemma_hits_before_zero(hits[a], k - 1);
            let v = match_view(s, p, h, occs[a], rules[k - 1], k - 1, hits_before(hits[a], k - 1) == 0);
            assert(cur == prev + seq![v]);
            assert(match_facts(v, occs, rules, hits)) by {
                assert(occs[a].id@ == v.occurrence_id);
            }
            assert forall|i: int| 0 <= i < cur.len() implies match_facts(#[trigger] cur[i], occs, rules, hits) by {
                if i < prev.len() {
                    assert(cur[i] == prev[i]);
                }
            }
        } else {
            assert(cur =~= prev);
        }
    }
}

proof fn lemma_matches_facts(
    s: Seq<char>,
    p: Seq<char>,
    h: Seq<char>,
    occs: Seq<RuleOccurrence>,
    rules: Seq<RuleFacts>,
    hits: Seq<Seq<bool>>,
    n: int,
)
    requires
        hits.len() == occs.len(),
        forall|i: int| 0 <= i < hits.len() ==> (#[trigger] hits[i]).len() == rules.len(),
        0 <= n <= occs.len(),
    ensures
        forall|i: int|
            0 <= i < matches_of(s, p, h, occs, rules, hits, n).len() ==> match_facts(
                #[trigger] matches_of(s, p, h, occs, rules, hits, n)[i],
                occs,
                rules,
                hits,
            ),
    decreases n,
{
    if n > 0 {
        lemma_matches_facts(s, p, h, occs, rules, hits, n - 1);
        let prev = matches_of(s, p, h, occs, rules, hits, n - 1);
        let cur = matches_of(s, p, h, occs, rules, hits, n);
        if occs[n - 1].read_ok {
            assert(hits[n - 1].len() == rules.len());
            lemma_occurrence_match_facts(s, p, h, occs, rules, hits, n - 1, rules.len() as int);
            let tail = occurrence_matches(s, p, h, occs[n - 1], rules, hits[n - 1], rules.len() as int);
            assert(cur == prev + tail);
            assert forall|i: int| 0 <= i < cur.len() implies match_facts(#[trigger] cur[i], occs, rules, hits) by {
                if i < prev.len() {
                    assert(cur[i] == prev[i]);
                } else {
                    assert(cur[i] == tail[i - prev.len()]);
                }
            }
        } else {
            assert(cur =~= prev);
        }
    }
}

/// Every rule match names a readable occurrence and a rule of the profile
/// that matches its file name; it is selected exactly when no earlier rule
/// of the profile matches; and it carries a review item exactly when it is
/// selected with a copy-review action or its rule is high-risk (a match
/// that is neither selected nor high-risk carries none), recommending the
/// rule's own action only when selected.
pub proof fn lemma_rule_matches_facts(
    snapshot_id: Seq<char>,
    profile_id: Seq<char>,
    profile_sha256: Seq<char>,
    occurrences: Seq<RuleOccurrence>,
    rules: Seq<RuleFacts>,
    hits: Seq<Seq<bool>>,
    out: Seq<RuleMatch>,
)
    requires
        hits.len() == occurrences.len(),
        forall|i: int| 0 <= i < hits.len() ==> (#[trigger] hits[i]).len() == rules.len(),
        all_match(
            out,
            matches_of(snapshot_id, profile_id, profile_sha256, occurrences, rules, hits, occurrences.len() as int),
        ),
    ensures
        forall|i: int|
            0 <= i < out.len() ==> {
                &&& (#[trigger] out[i]).priority < rules.len()
                &&& exists|a: int|
                    0 <= a < occurrences.len() && (#[trigger] occurrences[a]).id@ == out[i].occurrence_id@
                        && occurrences[a].read_ok && hits[a][out[i].priority as int] && (out[i].selected
                        <==> forall|k: int| 0 <= k < out[i].priority ==> !#[trigger] hits[a][k])
                &&& (out[i].review is Some <==> (out[i].selected && rules[out[i].priority as int].copy_review)
                    || rules[out[i].priority as int].high_risk)
                &&& (out[i].review matches Some((_, action)) ==> action == if out[i].selected {
                    Recommended::RuleAction
                } else {
                    Recommended::CopyReview
                })
            },
{
    let vs = matches_of(snapshot_id, profile_id, profile_sha256, occurrences, rules, hits, occurrences.len() as int);
    lemma_matches_facts(snapshot_id, profile_id, profile_sha256, occurrences, rules, hits, occurrences.len() as int);
    assert forall|i: int| 0 <= i < out.len() implies {
        &&& (#[trigger] out[i]).priority < rules.len()
        &&& exists|a: int|
            0 <= a < occurrences.len() && (#[trigger] occurrences[a]).id@ == out[i].occurrence_id@
                && occurrences[a].read_ok && hits[a][out[i].priority as int] && (out[i].selected
                <==> forall|k: int| 0 <= k < out[i].priority ==> !#[trigger] hits[a][k])
        &&& (out[i].review is Some <==> (out[i].selected && rules[out[i].priority as int].copy_review)
            || rules[out[i].priority as int].high_risk)
        &&& (out[i].review matches Some((_, action)) ==> action == if out[i].selected {
            Recommended::RuleAction
        } else {
            Recommended::CopyReview
        })
    } by {
        assert(match_states(out[i], vs[i]));
        assert(match_facts(vs[i], occurrences, rules, hits));
    }
}

} // verus!
