//! Human review as guidance for planning. The reviews of an occurrence are
//! its own review items and those of folder anomalies on any folder above
//! it; the highest risk among them counts, a pending item keeps the
//! occurrence in review, agreeing decisions decide it, and conflicting
//! decisions are never resolved by row or hash order: they keep it in
//! review too.

use vstd::prelude::*;
use crate::text::{chars_lt, chars_less, str_chars, push_str, string_from_chars, same_text, copy_str};

verus! {

/// The risk of a review item.
#[derive(Clone, Copy, Debug, PartialEq, Eq, Structural)]
pub enum ReviewRisk {
    Low,
    Medium,
    High,
}

impl ReviewRisk {
    pub open spec fn rank(self) -> int {
        match self {
            ReviewRisk::Low => 0,
            ReviewRisk::Medium => 1,
            ReviewRisk::High => 2,
        }
    }
}

/// The higher of two risks.
pub open spec fn higher(a: ReviewRisk, b: ReviewRisk) -> ReviewRisk {
    if a.rank() >= b.rank() {
        a
    } else {
        b
    }
}

fn higher_risk(a: ReviewRisk, b: ReviewRisk) -> (r: ReviewRisk)
    ensures
        r == higher(a, b),
{
    let ra: u8 = match a {
        ReviewRisk::Low => 0,
        ReviewRisk::Medium => 1,
        ReviewRisk::High => 2,
    };
    let rb: u8 = match b {
        ReviewRisk::Low => 0,
        ReviewRisk::Medium => 1,
        ReviewRisk::High => 2,
    };
    if ra >= rb {
        a
    } else {
        b
    }
}

/// One review item as it bears on an occurrence: its id, risk, and the
/// latest human decision (an action name) with its rationale, if any.
#[derive(Clone, Debug)]
pub struct ReviewFacts {
    pub item_id: String,
    pub risk: ReviewRisk,
    pub decision: Option<String>,
    pub rationale: Option<String>,
}

/// A folder in the inventory: its source root and relative path.
#[derive(Clone, Debug)]
pub struct FolderScope {
    pub source_root_id: String,
    pub relative_path: String,
}

/// The review of a folder anomaly, with the folders it concerns.
#[derive(Clone, Debug)]
pub struct FolderReviewFacts {
    pub review: ReviewFacts,
    pub folder_a: Option<FolderScope>,
    pub folder_b: Option<FolderScope>,
}

pub open spec fn scope_is(s: Option<FolderScope>, root: Seq<char>, path: Seq<char>) -> bool {
    s matches Some(f) && f.source_root_id@ == root && f.relative_path@ == path
}

/// Whether a folder review concerns the folder `path` of the root.
pub open spec fn concerns(r: FolderReviewFacts, root: Seq<char>, path: Seq<char>) -> bool {
    scope_is(r.folder_a, root, path) || scope_is(r.folder_b, root, path)
}

pub open spec fn item_ids(rs: Seq<ReviewFacts>) -> Seq<Seq<char>> {
    rs.map_values(|r: ReviewFacts| r.item_id@)
}

/// Extend `acc` with the folder reviews, in order, that concern the folder
/// `path` and are not in `acc` yet, looking at the first `n` reviews.
pub open spec fn add_concerning(acc: Seq<ReviewFacts>, frs: Seq<FolderReviewFacts>, root: Seq<char>, path: Seq<char>, n: int) -> Seq<ReviewFacts>
    decreases n,
{
    if n <= 0 {
        acc
    } else {
        let before = add_concerning(acc, frs, root, path, n - 1);
        let r = frs[n - 1];
        if concerns(r, root, path) && !item_ids(before).contains(r.review.item_id@) {
            before.push(r.review)
        } else {
            before
        }
    }
}

/// The folder reviews that reach an occurrence, walking its folder and
/// every folder above it (nearest first); each review item once.
pub open spec fn reaching(frs: Seq<FolderReviewFacts>, root: Seq<char>, chain: Seq<Seq<char>>, k: int) -> Seq<ReviewFacts>
    decreases k,
{
    if k <= 0 {
        Seq::empty()
    } else {
        add_concerning(reaching(frs, root, chain, k - 1), frs, root, chain[k - 1], frs.len() as int)
    }
}

/// The reviews of an occurrence: its own, then those reaching it from the
/// folders of its ancestor chain.
pub open spec fn occurrence_reviews(
    own: Seq<ReviewFacts>,
    frs: Seq<FolderReviewFacts>,
    root: Seq<char>,
    chain: Seq<Seq<char>>,
) -> Seq<ReviewFacts> {
    own + reaching(frs, root, chain, chain.len() as int)
}

/// `q` is a leading part of `p`, strictly shorter.
pub open spec fn strict_prefix(q: Seq<char>, p: Seq<char>) -> bool {
    q.len() < p.len() && q == p.subrange(0, q.len() as int)
}

/// An ancestor chain of a path: the path itself first, then each next
/// entry a strictly shorter leading part of the one before.
pub open spec fn ancestor_chain(path: Seq<char>, chain: Seq<Seq<char>>) -> bool {
    &&& chain.len() >= 1
    &&& chain[0] == path
    &&& forall|i: int| 0 <= i < chain.len() - 1 ==> strict_prefix(#[trigger] chain[i + 1], chain[i])
}

/// Calls `std::path::Path::parent` and shows the parent as text. Claimed:
/// a parent, when there is one, is a strictly shorter leading part of the
/// path (the path without its last component). Which characters separate
/// components depends on the platform, so nothing more is claimed.
#[verifier::external_body]
fn path_parent(path: &str) -> (parent: Option<String>)
    ensures
        parent matches Some(q) ==> strict_prefix(q@, path@),
{
    match std::path::Path::new(path).parent() {
        Some(q) => Some(q.display().to_string()),
        None => None,
    }
}

/// The ancestors of a path as `Path::ancestors` walks them: the path
/// itself, then its parent, and so on up to the last one that has no
/// parent.
pub fn path_ancestors(path: &str) -> (chain: Vec<String>)
    ensures
        ancestor_chain(path@, chain@.map_values(|p: String| p@)),
{
    let mut chain: Vec<String> = Vec::new();
    chain.push(copy_str(path));
    let mut current = copy_str(path);
    loop
        invariant
            chain@.len() >= 1,
            chain@[0]@ == path@,
            chain@[chain@.len() - 1]@ == current@,
            forall|i: int| 0 <= i < chain@.len() - 1 ==> strict_prefix(#[trigger] chain@[i + 1]@, chain@[i]@),
        decreases current@.len(),
    {
        match path_parent(current.as_str()) {
            None => break,
            Some(q) => {
                let ghost before = chain@;
                chain.push(copy_str(q.as_str()));
                assert forall|i: int| 0 <= i < chain@.len() - 1 implies strict_prefix(#[trigger] chain@[i + 1]@, chain@[i]@) by {
                    if i < before.len() - 1 {
                        assert(chain@[i + 1] == before[i + 1] && chain@[i] == before[i]);
                    } else {
                        assert(chain@[i] == before[before.len() - 1]);
                    }
                }
                current = q;
            },
        }
    }
    let ghost v = chain@.map_values(|p: String| p@);
    assert forall|i: int| 0 <= i < v.len() - 1 implies strict_prefix(#[trigger] v[i + 1], v[i]) by {
        assert(v[i + 1] == chain@[i + 1]@ && v[i] == chain@[i]@);
    }
    chain
}

fn scope_matches(s: &Option<FolderScope>, root: &str, path: &str) -> (b: bool)
    ensures
        b == scope_is(*s, root@, path@),
{
    match s {
        Some(f) => same_text(f.source_root_id.as_str(), root) && same_text(f.relative_path.as_str(), path),
        None => false,
    }
}

fn has_item(rs: &Vec<ReviewFacts>, id: &str) -> (b: bool)
    ensures
        b == item_ids(rs@).contains(id@),
{
    let mut i: usize = 0;
    while i < rs.len()
        invariant
            0 <= i <= rs@.len(),
            forall|j: int| 0 <= j < i ==> rs@[j].item_id@ != id@,
        decreases rs@.len() - i,
    {
        if same_text(rs[i].item_id.as_str(), id) {
            assert(item_ids(rs@)[i as int] == id@);
            return true;
        }
        i = i + 1;
    }
    assert forall|j: int| 0 <= j < item_ids(rs@).len() implies item_ids(rs@)[j] != id@ by {
        assert(item_ids(rs@)[j] == rs@[j].item_id@);
    }
    false
}

fn copy_review(r: &ReviewFacts) -> (c: ReviewFacts)
    ensures
        c.item_id@ == r.item_id@,
        c.risk == r.risk,
        crate::db::anomalies::opt_view(c.decision) == crate::db::anomalies::opt_view(r.decision),
        crate::db::anomalies::opt_view(c.rationale) == crate::db::anomalies::opt_view(r.rationale),
{
    ReviewFacts {
        item_id: copy_str(r.item_id.as_str()),
        risk: r.risk,
        decision: match &r.decision {
            Some(d) => Some(copy_str(d.as_str())),
            None => None,
        },
        rationale: match &r.rationale {
            Some(d) => Some(copy_str(d.as_str())),
            None => None,
        },
    }
}

/// Two review lists agree on every field that guidance reads.
pub open spec fn same_reviews(a: Seq<ReviewFacts>, b: Seq<ReviewFacts>) -> bool {
    &&& a.len() == b.len()
    &&& forall|i: int|
        0 <= i < a.len() ==> {
            &&& (#[trigger] a[i]).item_id@ == b[i].item_id@
            &&& a[i].risk == b[i].risk
            &&& crate::db::anomalies::opt_view(a[i].decision) == crate::db::anomalies::opt_view(b[i].decision)
            &&& crate::db::anomalies::opt_view(a[i].rationale) == crate::db::anomalies::opt_view(b[i].rationale)
        }
}

proof fn lemma_same_reviews_push(a: Seq<ReviewFacts>, b: Seq<ReviewFacts>, x: ReviewFacts, y: ReviewFacts)
    requires
        same_reviews(a, b),
        x.item_id@ == y.item_id@,
        x.risk == y.risk,
        crate::db::anomalies::opt_view(x.decision) == crate::db::anomalies::opt_view(y.decision),
        crate::db::anomalies::opt_view(x.rationale) == crate::db::anomalies::opt_view(y.rationale),
    ensures
        same_reviews(a.push(x), b.push(y)),
        item_ids(a) == item_ids(b),
{
    assert forall|i: int| 0 <= i < a.push(x).len() implies {
        &&& (#[trigger] a.push(x)[i]).item_id@ == b.push(y)[i].item_id@
        &&& a.push(x)[i].risk == b.push(y)[i].risk
        &&& crate::db::anomalies::opt_view(a.push(x)[i].decision) == crate::db::anomalies::opt_view(b.push(y)[i].decision)
        &&& crate::db::anomalies::opt_view(a.push(x)[i].rationale) == crate::db::anomalies::opt_view(b.push(y)[i].rationale)
    } by {
        if i < a.len() {
            assert(a.push(x)[i] == a[i]);
            assert(b.push(y)[i] == b[i]);
        }
    }
    assert(item_ids(a) =~= item_ids(b));
}

/// The reviews that bear on one occurrence: its own items, then the items
/// of folder anomalies on the folders of `ancestors` (the occurrence's
/// folder and those above it, nearest first, as `path_ancestors` gives
/// them), each item once.
pub fn reviews_of_occurrence(
    own: &Vec<ReviewFacts>,
    folder_reviews: &Vec<FolderReviewFacts>,
    source_root_id: &str,
    ancestors: &Vec<String>,
) -> (out: Vec<ReviewFacts>)
    ensures
        same_reviews(
            out@,
            occurrence_reviews(own@, folder_reviews@, source_root_id@, ancestors@.map_values(|p: String| p@)),
        ),
{
    let chain = ancestors;
    let ghost ch = ancestors@.map_values(|p: String| p@);
    let ghost frs = folder_reviews@;
    let ghost root = source_root_id@;
    let mut reached: Vec<ReviewFacts> = Vec::new();
    let mut k: usize = 0;
    assert(chain@.len() == ch.len());
    while k < chain.len()
        invariant
            0 <= k <= chain@.len(),
            chain@.len() == ch.len(),
            forall|j: int| 0 <= j < ch.len() ==> (#[trigger] chain@[j])@ == ch[j],
            frs == folder_reviews@,
            root == source_root_id@,
            same_reviews(reached@, reaching(frs, root, ch, k as int)),
        decreases chain@.len() - k,
    {
        let path = chain[k].as_str();
        let ghost base = reaching(frs, root, ch, k as int);
        let mut n: usize = 0;
        while n < folder_reviews.len()
            invariant
                0 <= n <= frs.len(),
                frs == folder_reviews@,
                root == source_root_id@,
                path@ == ch[k as int],
                same_reviews(reached@, add_concerning(base, frs, root, ch[k as int], n as int)),
            decreases frs.len() - n,
        {
            let fr = &folder_reviews[n];
            let ghost prev = add_concerning(base, frs, root, ch[k as int], n as int);
            let c = scope_matches(&fr.folder_a, source_root_id, path) || scope_matches(&fr.folder_b, source_root_id, path);
            if c {
                let seen = has_item(&reached, fr.review.item_id.as_str());
                proof {
                    assert(item_ids(reached@) =~= item_ids(prev)) by {
                        assert forall|i: int| 0 <= i < item_ids(reached@).len() implies item_ids(reached@)[i] == item_ids(prev)[i] by {
                            assert(same_reviews(reached@, prev));
                            assert(reached@[i].item_id@ == prev[i].item_id@);
                        }
                    }
                }
                if !seen {
                    let copy = copy_review(&fr.review);
                    proof {
                        lemma_same_reviews_push(reached@, prev, copy, fr.review);
                    }
                    reached.push(copy);
                }
            }
            n = n + 1;
        }
        k = k + 1;
    }
    let mut out: Vec<ReviewFacts> = Vec::new();
    let mut i: usize = 0;
    while i < own.len()
        invariant
            0 <= i <= own@.len(),
            same_reviews(out@, own@.take(i as int)),
        decreases own@.len() - i,
    {
        let copy = copy_review(&own[i]);
        proof {
            lemma_same_reviews_push(out@, own@.take(i as int), copy, own@[i as int]);
            assert(own@.take(i as int).push(own@[i as int]) =~= own@.take(i + 1));
        }
        out.push(copy);
        i = i + 1;
    }
    assert(own@.take(own@.len() as int) =~= own@);
    let ghost r = reaching(frs, root, ch, ch.len() as int);
    let mut j: usize = 0;
    while j < reached.len()
        invariant
            0 <= j <= reached@.len(),
            same_reviews(reached@, r),
            same_reviews(out@, own@ + r.take(j as int)),
        decreases reached@.len() - j,
    {
        let copy = copy_review(&reached[j]);
        proof {
            assert(same_reviews(reached@, r));
            assert(reached@[j as int].item_id@ == r[j as int].item_id@);
            lemma_same_reviews_push(out@, own@ + r.take(j as int), copy, r[j as int]);
            assert((own@ + r.take(j as int)).push(r[j as int]) =~= own@ + r.take(j + 1));
        }
        out.push(copy);
        j = j + 1;
    }
    assert(r.take(r.len() as int) =~= r);
    out
}


// ---------------------------------------------------------------------
// The verdict of the reviews

/// What the reviews of an occurrence say.
#[derive(Clone, Debug)]
pub enum ReviewVerdict {
    /// Some item awaits a decision; the reason names the pending items.
    Pending { reason: String },
    /// Every decision names the same action.
    Decided { action: String, reason: String },
    /// Decisions name different actions; the reason lists them.
    Conflicting { reason: String },
}

/// The highest risk of the first `n` reviews, `Low` when there are none.
pub open spec fn risk_of(rs: Seq<ReviewFacts>, n: int) -> ReviewRisk
    decreases n,
{
    if n <= 0 {
        ReviewRisk::Low
    } else {
        higher(risk_of(rs, n - 1), rs[n - 1].risk)
    }
}

/// The parts joined by the separator.
pub open spec fn joined(parts: Seq<Seq<char>>, sep: Seq<char>) -> Seq<char>
    decreases parts.len(),
{
    if parts.len() == 0 {
        Seq::empty()
    } else if parts.len() == 1 {
        parts[0]
    } else {
        joined(parts.drop_last(), sep) + sep + parts.last()
    }
}

/// The ids of the first `n` reviews that await a decision.
pub open spec fn pending_ids(rs: Seq<ReviewFacts>, n: int) -> Seq<Seq<char>>
    decreases n,
{
    if n <= 0 {
        Seq::empty()
    } else if rs[n - 1].decision is None {
        pending_ids(rs, n - 1).push(rs[n - 1].item_id@)
    } else {
        pending_ids(rs, n - 1)
    }
}

pub open spec fn rationale_text(r: ReviewFacts) -> Seq<char> {
    match r.rationale {
        Some(t) => t@,
        None => "no rationale"@,
    }
}

/// "item: rationale" for each of the first `n` decided reviews.
pub open spec fn decision_notes(rs: Seq<ReviewFacts>, n: int) -> Seq<Seq<char>>
    decreases n,
{
    if n <= 0 {
        Seq::empty()
    } else if rs[n - 1].decision is Some {
        decision_notes(rs, n - 1).push(rs[n - 1].item_id@ + ": "@ + rationale_text(rs[n - 1]))
    } else {
        decision_notes(rs, n - 1)
    }
}

/// Insert a name into names sorted in increasing order, once.
pub open spec fn insert_name(s: Seq<Seq<char>>, x: Seq<char>) -> Seq<Seq<char>>
    decreases s.len(),
{
    if s.len() == 0 {
        seq![x]
    } else if s[0] == x {
        s
    } else if !chars_lt(s[0], x) {
        seq![x] + s
    } else {
        seq![s[0]] + insert_name(s.drop_first(), x)
    }
}

/// The actions decided among the first `n` reviews, sorted, each once.
pub open spec fn decided_actions(rs: Seq<ReviewFacts>, n: int) -> Seq<Seq<char>>
    decreases n,
{
    if n <= 0 {
        Seq::empty()
    } else if rs[n - 1].decision is Some {
        insert_name(decided_actions(rs, n - 1), rs[n - 1].decision->0@)
    } else {
        decided_actions(rs, n - 1)
    }
}

/// The verdict of a non-empty list of reviews.
pub open spec fn verdict_of(rs: Seq<ReviewFacts>) -> (Seq<char>, Seq<char>, int) {
    let n = rs.len() as int;
    let pending = pending_ids(rs, n);
    let actions = decided_actions(rs, n);
    if pending.len() > 0 {
        (Seq::empty(), "pending human review item(s): "@ + joined(pending, ", "@), 0)
    } else if actions.len() == 1 {
        (
            actions[0],
            "human review decided `"@ + actions[0] + "`: "@ + joined(decision_notes(rs, n), "; "@),
            1,
        )
    } else {
        (Seq::empty(), "conflicting human review decisions: "@ + joined(actions, ", "@), 2)
    }
}

/// The verdict states `verdict_of`: its kind (pending, decided,
/// conflicting), its action and its reason.
pub open spec fn verdict_states(v: ReviewVerdict, rs: Seq<ReviewFacts>) -> bool {
    let (action, reason, kind) = verdict_of(rs);
    match v {
        ReviewVerdict::Pending { reason: r } => kind == 0 && r@ == reason,
        ReviewVerdict::Decided { action: a, reason: r } => kind == 1 && a@ == action && r@ == reason,
        ReviewVerdict::Conflicting { reason: r } => kind == 2 && r@ == reason,
    }
}

fn push_joined(out: &mut Vec<char>, parts: &Vec<Vec<char>>, sep: &str)
    ensures
        final(out)@ == old(out)@ + joined(parts@.map_values(|p: Vec<char>| p@), sep@),
{
    let ghost pv = parts@.map_values(|p: Vec<char>| p@);
    let ghost start = out@;
    let mut i: usize = 0;
    while i < parts.len()
        invariant
            0 <= i <= parts@.len(),
            pv == parts@.map_values(|p: Vec<char>| p@),
            out@ == start + joined(pv.take(i as int), sep@),
        decreases parts@.len() - i,
    {
        if i > 0 {
            push_str(out, sep);
        }
        crate::text::push_all(out, &parts[i]);
        proof {
            let t = pv.take(i + 1);
            assert(t.drop_last() =~= pv.take(i as int));
            assert(t.last() == parts@[i as int]@);
            if i == 0 {
                assert(joined(pv.take(0), sep@) =~= Seq::<char>::empty());
                assert(t.len() == 1);
            }
        }
        assert(out@ =~= start + joined(pv.take(i + 1), sep@));
        i = i + 1;
    }
    assert(pv.take(parts@.len() as int) =~= pv);
}

pub open spec fn char_views(v: Seq<Vec<char>>) -> Seq<Seq<char>> {
    v.map_values(|p: Vec<char>| p@)
}

proof fn lemma_insert_name_after(s: Seq<Seq<char>>, x: Seq<char>, p: int)
    requires
        0 <= p <= s.len(),
        forall|j: int| 0 <= j < p ==> chars_lt(#[trigger] s[j], x),
    ensures
        insert_name(s, x) == s.take(p) + insert_name(s.skip(p), x),
    decreases p,
{
    if p == 0 {
        assert(s.skip(0) =~= s);
        assert(s.take(0) =~= Seq::<Seq<char>>::empty());
    } else {
        crate::text::lemma_chars_lt_irreflexive(x);
        assert(chars_lt(s[0], x));
        let t = s.drop_first();
        assert forall|j: int| 0 <= j < p - 1 implies chars_lt(#[trigger] t[j], x) by {
            assert(t[j] == s[j + 1]);
        }
        lemma_insert_name_after(t, x, p - 1);
        assert(t.skip(p - 1) =~= s.skip(p));
        assert(seq![s[0]] + t.take(p - 1) =~= s.take(p));
        assert(s[0] != x);
    }
}

/// Insert a name into sorted names, as `insert_name` does.
fn insert_name_exec(names: &mut Vec<Vec<char>>, x: Vec<char>)
    ensures
        char_views(final(names)@) == insert_name(char_views(old(names)@), x@),
{
    let ghost s = char_views(names@);
    let mut p: usize = 0;
    while p < names.len()
        invariant
            0 <= p <= names@.len(),
            s == char_views(names@),
            forall|j: int| 0 <= j < p ==> chars_lt(#[trigger] s[j], x@),
        ensures
            0 <= p <= names@.len(),
            s == char_views(names@),
            forall|j: int| 0 <= j < p ==> chars_lt(#[trigger] s[j], x@),
            p < names@.len() ==> !chars_lt(s[p as int], x@),
        decreases names@.len() - p,
    {
        assert(s[p as int] == names@[p as int]@);
        if !chars_less(&names[p], &x) {
            break;
        }
        p = p + 1;
    }
    proof {
        lemma_insert_name_after(s, x@, p as int);
    }
    if p < names.len() {
        assert(s[p as int] == names@[p as int]@);
        if same_chars(&names[p], &x) {
            assert(s.skip(p as int)[0] == s[p as int]);
            assert(s.take(p as int) + s.skip(p as int) =~= s);
            return;
        }
    }
    let ghost before = names@;
    names.insert(p, x);
    proof {
        if p < before.len() {
            assert(s.skip(p as int)[0] == s[p as int]);
        }
        assert(insert_name(s.skip(p as int), x@) =~= seq![x@] + s.skip(p as int));
        assert(char_views(names@) =~= s.take(p as int) + seq![x@] + s.skip(p as int));
    }
}

fn same_chars(a: &Vec<char>, b: &Vec<char>) -> (eq: bool)
    ensures
        eq == (a@ == b@),
{
    if a.len() != b.len() {
        return false;
    }
    let mut i: usize = 0;
    while i < a.len()
        invariant
            0 <= i <= a@.len(),
            a@.len() == b@.len(),
            forall|j: int| 0 <= j < i ==> a@[j] == b@[j],
        decreases a@.len() - i,
    {
        if a[i] != b[i] {
            return false;
        }
        i = i + 1;
    }
    assert(a@ =~= b@);
    true
}


/// What the reviews of one occurrence add to its guidance: the highest
/// risk among them and their verdict; `None` when it has no review.
pub fn review_guidance(reviews: &Vec<ReviewFacts>) -> (g: Option<(ReviewRisk, ReviewVerdict)>)
    ensures
        reviews@.len() == 0 <==> g is None,
        g matches Some((risk, v)) ==> risk == risk_of(reviews@, reviews@.len() as int) && verdict_states(
            v,
            reviews@,
        ),
{
    if reviews.len() == 0 {
        return None;
    }
    let ghost rs = reviews@;
    let mut risk = ReviewRisk::Low;
    let mut pending: Vec<Vec<char>> = Vec::new();
    let mut notes: Vec<Vec<char>> = Vec::new();
    let mut actions: Vec<Vec<char>> = Vec::new();
    let mut i: usize = 0;
    while i < reviews.len()
        invariant
            0 <= i <= rs.len(),
            rs == reviews@,
            risk == risk_of(rs, i as int),
            char_views(pending@) == pending_ids(rs, i as int),
            char_views(notes@) == decision_notes(rs, i as int),
            char_views(actions@) == decided_actions(rs, i as int),
        decreases rs.len() - i,
    {
        let r = &reviews[i];
        risk = higher_risk(risk, r.risk);
        match &r.decision {
            None => {
                let ghost before = pending@;
                pending.push(str_chars(r.item_id.as_str()));
                assert(char_views(pending@) =~= char_views(before).push(r.item_id@));
            },
            Some(d) => {
                let mut note: Vec<char> = Vec::new();
                push_str(&mut note, r.item_id.as_str());
                push_str(&mut note, ": ");
                match &r.rationale {
                    Some(t) => push_str(&mut note, t.as_str()),
                    None => push_str(&mut note, "no rationale"),
                }
                let ghost before = notes@;
                assert(note@ =~= r.item_id@ + ": "@ + rationale_text(*r));
                notes.push(note);
                assert(char_views(notes@) =~= char_views(before).push(r.item_id@ + ": "@ + rationale_text(*r)));
                insert_name_exec(&mut actions, str_chars(d.as_str()));
            },
        }
        i = i + 1;
    }
    let verdict = if pending.len() > 0 {
        let mut t: Vec<char> = Vec::new();
        push_str(&mut t, "pending human review item(s): ");
        push_joined(&mut t, &pending, ", ");
        ReviewVerdict::Pending { reason: string_from_chars(t.as_slice()) }
    } else if actions.len() == 1 {
        let mut t: Vec<char> = Vec::new();
        push_str(&mut t, "human review decided `");
        crate::text::push_all(&mut t, &actions[0]);
        push_str(&mut t, "`: ");
        push_joined(&mut t, &notes, "; ");
        assert(char_views(actions@)[0] == actions@[0]@);
        ReviewVerdict::Decided {
            action: string_from_chars(actions[0].as_slice()),
            reason: string_from_chars(t.as_slice()),
        }
    } else {
        let mut t: Vec<char> = Vec::new();
        push_str(&mut t, "conflicting human review decisions: ");
        push_joined(&mut t, &actions, ", ");
        ReviewVerdict::Conflicting { reason: string_from_chars(t.as_slice()) }
    };
    Some((risk, verdict))
}


/// The guidance risk is the highest risk of the reviews: no review of the
/// occurrence has a higher risk, and the risk is that of one of them.
pub proof fn lemma_guidance_risk_is_highest(reviews: Seq<ReviewFacts>, risk: ReviewRisk)
    requires
        reviews.len() > 0,
        risk == risk_of(reviews, reviews.len() as int),
    ensures
        forall|i: int| 0 <= i < reviews.len() ==> risk.rank() >= (#[trigger] reviews[i]).risk.rank(),
        exists|i: int| 0 <= i < reviews.len() && (#[trigger] reviews[i]).risk == risk,
{
    lemma_risk_of_bounds(reviews, reviews.len() as int);
}

proof fn lemma_risk_of_bounds(rs: Seq<ReviewFacts>, n: int)
    requires
        0 <= n <= rs.len(),
    ensures
        forall|i: int| 0 <= i < n ==> risk_of(rs, n).rank() >= (#[trigger] rs[i]).risk.rank(),
        n > 0 ==> exists|i: int| 0 <= i < n && (#[trigger] rs[i]).risk == risk_of(rs, n),
        risk_of(rs, n).rank() >= 0,
    decreases n,
{
    if n > 0 {
        lemma_risk_of_bounds(rs, n - 1);
        if n - 1 > 0 {
            let w = choose|i: int| 0 <= i < n - 1 && (#[trigger] rs[i]).risk == risk_of(rs, n - 1);
            assert(rs[w].risk == risk_of(rs, n - 1));
        } else {
            assert(rs[0].risk == risk_of(rs, 1) || risk_of(rs, 1) == ReviewRisk::Low);
        }
        let last = rs[n - 1];
        if risk_of(rs, n) == last.risk {
            assert(rs[n - 1].risk == risk_of(rs, n));
        }
    }
}

} // verus!
