//! Duplicate policy: the logical representative of a set of exact
//! duplicates. Every occurrence is scored by how good a canonical location
//! it is, and the lowest cost wins, with a human-readable reason.
//!
//! This is evidence, never an action: nothing here marks a file for removal.
//! Signals: the location penalty of the occurrence's ancestor folders (a
//! generic Descargas, Escritorio, Backup, Copia or temporary folder), a copy
//! marker in the file name, and path depth.

use vstd::prelude::*;
use crate::text::{str_chars, string_from_chars, push_str, push_decimal, decimal, chars_lt, chars_less, same_text, lemma_chars_lt_transitive, lemma_chars_lt_irreflexive};

verus! {

/// Weight of one unit of location penalty in the cost.
pub const LOCATION_WEIGHT: i64 = 100;

/// Cost added when the file name carries a copy marker.
pub const COPY_MARKER_COST: i64 = 10;

// ---------------------------------------------------------------------
// Copy markers

/// The position of the last `c` among the first `n` characters, or -1.
pub open spec fn last_of(s: Seq<char>, c: char, n: int) -> int
    decreases n,
{
    if n <= 0 {
        -1
    } else if s[n - 1] == c {
        n - 1
    } else {
        last_of(s, c, n - 1)
    }
}

/// The name without its last extension.
pub open spec fn stem_of(name: Seq<char>) -> Seq<char> {
    let k = last_of(name, '.', name.len() as int);
    if k >= 0 {
        name.take(k)
    } else {
        name
    }
}

pub open spec fn ends_with(s: Seq<char>, suffix: Seq<char>) -> bool {
    s.len() >= suffix.len() && s.subrange(s.len() - suffix.len(), s.len() as int) == suffix
}

pub open spec fn starts_with(s: Seq<char>, prefix: Seq<char>) -> bool {
    s.len() >= prefix.len() && s.take(prefix.len() as int) == prefix
}

/// The position of the last `" ("` that ends within the first `n`
/// characters, or -1.
pub open spec fn last_open(s: Seq<char>, n: int) -> int
    decreases n,
{
    if n < 2 {
        -1
    } else if s[n - 2] == ' ' && s[n - 1] == '(' {
        n - 2
    } else {
        last_open(s, n - 1)
    }
}

/// The text without its trailing `)` characters.
pub open spec fn trim_close(s: Seq<char>) -> Seq<char>
    decreases s.len(),
{
    if s.len() > 0 && s.last() == ')' {
        trim_close(s.drop_last())
    } else {
        s
    }
}

pub open spec fn all_ascii_digits(s: Seq<char>) -> bool {
    forall|i: int| 0 <= i < s.len() ==> 48 <= (#[trigger] s[i] as u32) <= 57
}

/// Windows' `name (1).ext` duplicate suffix: the stem ends with `)` and
/// the text after its last `" ("`, without trailing `)`, is a non-empty
/// run of ASCII digits.
pub open spec fn numbered_copy(stem: Seq<char>) -> bool {
    let k = last_open(stem, stem.len() as int);
    &&& stem.len() > 0 && stem.last() == ')'
    &&& k >= 0
    &&& trim_close(stem.skip(k + 2)).len() > 0
    &&& all_ascii_digits(trim_close(stem.skip(k + 2)))
}

/// Whether a normalized file name looks like a copy.
pub open spec fn copy_marked(name: Seq<char>) -> bool {
    let stem = stem_of(name);
    ||| ends_with(stem, " - copia"@)
    ||| ends_with(stem, " - copy"@)
    ||| starts_with(stem, "copia de "@)
    ||| starts_with(stem, "copy of "@)
    ||| numbered_copy(stem)
}

fn last_index(s: &Vec<char>, c: char, n: usize) -> (k: i64)
    requires
        n <= s@.len(),
        s@.len() < i64::MAX,
    ensures
        k == last_of(s@, c, n as int),
        -1 <= k < n,
{
    let mut m = n;
    while m > 0 && s[m - 1] != c
        invariant
            m <= n <= s@.len(),
            last_of(s@, c, n as int) == last_of(s@, c, m as int),
        decreases m,
    {
        m = m - 1;
    }
    if m == 0 {
        -1
    } else {
        (m - 1) as i64
    }
}

fn ends_with_str(s: &Vec<char>, suffix: &str) -> (b: bool)
    ensures
        b == ends_with(s@, suffix@),
{
    let t = str_chars(suffix);
    if s.len() < t.len() {
        return false;
    }
    let start = s.len() - t.len();
    let mut i: usize = 0;
    while i < t.len()
        invariant
            0 <= i <= t@.len(),
            t@ == suffix@,
            t@.len() <= s@.len(),
            start == s@.len() - t@.len(),
            start + t@.len() == s.len(),
            forall|j: int| 0 <= j < i ==> s@[start + j] == t@[j],
        decreases t@.len() - i,
    {
        if s[start + i] != t[i] {
            assert(s@.subrange(start as int, s@.len() as int)[i as int] != t@[i as int]);
            return false;
        }
        i = i + 1;
    }
    assert(s@.subrange(start as int, s@.len() as int) =~= t@);
    true
}

fn starts_with_str(s: &Vec<char>, prefix: &str) -> (b: bool)
    ensures
        b == starts_with(s@, prefix@),
{
    let t = str_chars(prefix);
    if s.len() < t.len() {
        return false;
    }
    let mut i: usize = 0;
    while i < t.len()
        invariant
            0 <= i <= t@.len() <= s@.len(),
            t@ == prefix@,
            forall|j: int| 0 <= j < i ==> s@[j] == t@[j],
        decreases t@.len() - i,
    {
        if s[i] != t[i] {
            assert(s@.take(t@.len() as int)[i as int] != t@[i as int]);
            return false;
        }
        i = i + 1;
    }
    assert(s@.take(t@.len() as int) =~= t@);
    true
}

#[verifier::loop_isolation(false)]
fn numbered_copy_exec(stem: &Vec<char>) -> (b: bool)
    requires
        stem@.len() < i64::MAX,
    ensures
        b == numbered_copy(stem@),
{
    let n = stem.len();
    if n == 0 || stem[n - 1] != ')' {
        return false;
    }
    let mut m = n;
    while m >= 2 && !(stem[m - 2] == ' ' && stem[m - 1] == '(')
        invariant
            m <= n == stem@.len(),
            last_open(stem@, n as int) == last_open(stem@, m as int),
        decreases m,
    {
        m = m - 1;
    }
    if m < 2 {
        return false;
    }
    let k = m - 2;
    // The text after " (", without its trailing ')'.
    let mut end = n;
    while end > k + 2 && stem[end - 1] == ')'
        invariant
            k + 2 <= end <= n == stem@.len(),
            trim_close(stem@.skip(k + 2)) == trim_close(stem@.subrange(k + 2, end as int)),
        decreases end,
    {
        assert(stem@.subrange(k + 2, end as int).drop_last() =~= stem@.subrange(
            k + 2,
            end - 1,
        ));
        end = end - 1;
    }
    assert(stem@.skip(k + 2) =~= stem@.subrange(k + 2, n as int)) by {
    }
    let ghost rest = stem@.subrange(k + 2, end as int);
    assert(trim_close(rest) == rest);
    if end == k + 2 {
        return false;
    }
    let mut i = k + 2;
    while i < end
        invariant
            k + 2 <= i <= end <= n == stem@.len(),
            rest == stem@.subrange(k + 2, end as int),
            forall|j: int| k + 2 <= j < i ==> 48 <= (#[trigger] stem@[j] as u32) <= 57,
        decreases end - i,
    {
        let u = stem[i] as u32;
        if !(48 <= u && u <= 57) {
            assert(rest[i - (k + 2)] == stem@[i as int]);
            return false;
        }
        i = i + 1;
    }
    assert forall|j: int| 0 <= j < rest.len() implies 48 <= (#[trigger] rest[j] as u32) <= 57 by {
        assert(rest[j] == stem@[k + 2 + j]);
    }
    true
}

/// Does this normalized file name look like a copy?
pub fn has_copy_marker(normalized_name: &str) -> (b: bool)
    requires
        normalized_name@.len() < i64::MAX,
    ensures
        b == copy_marked(normalized_name@),
{
    let name = str_chars(normalized_name);
    let k = last_index(&name, '.', name.len());
    let stem: Vec<char> = if k >= 0 {
        let mut t: Vec<char> = Vec::new();
        let mut i: usize = 0;
        while i < k as usize
            invariant
                0 <= i <= k <= name@.len(),
                t@ == name@.take(i as int),
            decreases k - i,
        {
            t.push(name[i]);
            i = i + 1;
            assert(t@ =~= name@.take(i as int));
        }
        t
    } else {
        name
    };
    assert(stem@ == stem_of(normalized_name@));
    ends_with_str(&stem, " - copia") || ends_with_str(&stem, " - copy") || starts_with_str(
        &stem,
        "copia de ",
    ) || starts_with_str(&stem, "copy of ") || numbered_copy_exec(&stem)
}

} // verus!

verus! {

// ---------------------------------------------------------------------
// Ancestor folders

pub open spec fn is_separator(c: char) -> bool {
    c == '/' || c == '\\'
}

/// The position of the last path separator among the first `n`
/// characters, or -1.
pub open spec fn last_separator(s: Seq<char>, n: int) -> int
    decreases n,
{
    if n <= 0 {
        -1
    } else if is_separator(s[n - 1]) {
        n - 1
    } else {
        last_separator(s, n - 1)
    }
}

/// A path followed by the heads left of each last separator in turn.
pub open spec fn head_chain(path: Seq<char>) -> Seq<Seq<char>>
    decreases path.len(),
{
    let k = last_separator(path, path.len() as int);
    if 0 <= k < path.len() {
        seq![path] + head_chain(path.take(k))
    } else {
        seq![path]
    }
}

/// Every ancestor folder path of a file, from its parent up to the root:
/// the chain of heads, and the root `""` if the chain did not reach it.
pub open spec fn ancestors(parent: Seq<char>) -> Seq<Seq<char>> {
    let chain = head_chain(parent);
    if exists|i: int| 0 <= i < chain.len() && (#[trigger] chain[i]).len() == 0 {
        chain
    } else {
        chain.push(Seq::empty())
    }
}

fn last_separator_at(s: &Vec<char>, n: usize) -> (k: Option<usize>)
    requires
        n <= s@.len(),
    ensures
        match k {
            Some(i) => last_separator(s@, n as int) == i && i < n,
            None => last_separator(s@, n as int) == -1,
        },
{
    let mut m = n;
    while m > 0 && !(s[m - 1] == '/' || s[m - 1] == '\\')
        invariant
            m <= n <= s@.len(),
            last_separator(s@, n as int) == last_separator(s@, m as int),
        decreases m,
    {
        m = m - 1;
    }
    if m == 0 {
        None
    } else {
        Some(m - 1)
    }
}

fn take_chars(s: &Vec<char>, k: usize) -> (t: Vec<char>)
    requires
        k <= s@.len(),
    ensures
        t@ == s@.take(k as int),
{
    let mut t: Vec<char> = Vec::new();
    let mut i: usize = 0;
    while i < k
        invariant
            0 <= i <= k <= s@.len(),
            t@ == s@.take(i as int),
        decreases k - i,
    {
        t.push(s[i]);
        i = i + 1;
        assert(t@ =~= s@.take(i as int));
    }
    t
}

/// Every ancestor folder path of a file, from its parent up to the root.
/// `"a/b"` gives `["a/b", "a", ""]`, so the root's own penalty applies too.
pub fn ancestor_paths(parent_relative_path: &str) -> (out: Vec<String>)
    ensures
        out@.map_values(|p: String| p@) == ancestors(parent_relative_path@),
{
    let mut current = str_chars(parent_relative_path);
    let mut out: Vec<String> = Vec::new();
    out.push(string_from_chars(current.as_slice()));
    let mut seen_root = current.len() == 0;
    let ghost start = parent_relative_path@;
    let ghost mut views: Seq<Seq<char>> = seq![current@];
    assert(out@.map_values(|p: String| p@) =~= views);
    assert(seen_root ==> views[0].len() == 0);
    loop
        invariant
            start == parent_relative_path@,
            views == out@.map_values(|p: String| p@),
            views.len() >= 1,
            views + head_chain(current@).drop_first() == head_chain(start),
            seen_root == exists|i: int| 0 <= i < views.len() && (#[trigger] views[i]).len() == 0,
        ensures
            views == head_chain(start),
            views == out@.map_values(|p: String| p@),
            seen_root == exists|i: int| 0 <= i < views.len() && (#[trigger] views[i]).len() == 0,
        decreases current@.len(),
    {
        let ghost cur = current@;
        match last_separator_at(&current, current.len()) {
            None => {
                assert(head_chain(cur).drop_first() =~= Seq::<Seq<char>>::empty());
                assert(views + head_chain(cur).drop_first() =~= views);
                break;
            },
            Some(k) => {
                let head = take_chars(&current, k);
                assert(head_chain(cur) =~= seq![cur] + head_chain(head@));
                let ghost old_views = views;
                let ghost old_seen = seen_root;
                out.push(string_from_chars(head.as_slice()));
                proof {
                    views = views.push(head@);
                }
                assert(out@.map_values(|p: String| p@) =~= views);
                if head.len() == 0 {
                    seen_root = true;
                }
                assert(head_chain(head@)[0] == head@);
                assert(views + head_chain(head@).drop_first() =~= old_views + head_chain(cur).drop_first());
                proof {
                    if seen_root {
                        if old_seen {
                            let w = choose|i: int| 0 <= i < old_views.len() && (#[trigger] old_views[i]).len() == 0;
                            assert(views[w] == old_views[w]);
                        } else {
                            assert(views[views.len() - 1].len() == 0);
                        }
                    } else {
                        assert forall|i: int| 0 <= i < views.len() implies (#[trigger] views[i]).len() != 0 by {
                            if i < old_views.len() {
                                assert(views[i] == old_views[i]);
                            }
                        }
                    }
                }
                current = head;
            },
        }
    }
    let ghost chain = head_chain(start);
    assert(views == chain);
    if !seen_root {
        out.push(String::new());
        assert(out@.map_values(|p: String| p@) =~= chain.push(Seq::empty()));
    }
    out
}

} // verus!

verus! {

// ---------------------------------------------------------------------
// Cost and reason

/// The cost of an occurrence as a canonical location; lower is better.
pub open spec fn cost_of(location_penalty: u32, copy_marker: bool, depth: i64) -> int {
    location_penalty * LOCATION_WEIGHT + (if copy_marker {
        COPY_MARKER_COST
    } else {
        0
    }) + depth
}

/// Cost of an occurrence as a canonical location; lower is better: the
/// location penalty weighs a hundred, a copy marker ten, each level of
/// depth one.
pub fn location_cost(location_penalty: u32, copy_marker: bool, depth: i64) -> (cost: i64)
    requires
        i64::MIN <= cost_of(location_penalty, copy_marker, depth) <= i64::MAX,
    ensures
        cost == cost_of(location_penalty, copy_marker, depth),
{
    location_penalty as i64 * LOCATION_WEIGHT + if copy_marker {
        COPY_MARKER_COST
    } else {
        0
    } + depth
}

/// Decimal digits of an integer, with a leading minus when negative.
pub open spec fn signed_decimal(i: int) -> Seq<char> {
    if i < 0 {
        seq!['-'] + decimal((-i) as nat)
    } else {
        decimal(i as nat)
    }
}

/// Why an occurrence got its cost: where it lies, whether its name is
/// clean, and its depth.
pub open spec fn reason_text(location_penalty: u32, marker: Option<Seq<char>>, copy_marker: bool, depth: i64) -> Seq<char> {
    let place = if marker is Some && location_penalty > 0 {
        "inside a generic `"@ + marker->0 + "` folder (penalty "@ + decimal(location_penalty as nat)
            + seq![')']
    } else {
        "outside any generic folder"@
    };
    let name = if copy_marker {
        "file name carries a copy marker"@
    } else {
        "clean file name"@
    };
    place + "; "@ + name + "; "@ + "path depth "@ + signed_decimal(depth as int)
}

pub fn reason_for(location_penalty: u32, marker: Option<&str>, copy_marker: bool, depth: i64) -> (reason: String)
    ensures
        reason@ == reason_text(
            location_penalty,
            match marker {
                Some(m) => Some(m@),
                None => None,
            },
            copy_marker,
            depth,
        ),
{
    let mut out: Vec<char> = Vec::new();
    match marker {
        Some(m) if location_penalty > 0 => {
            push_str(&mut out, "inside a generic `");
            push_str(&mut out, m);
            push_str(&mut out, "` folder (penalty ");
            push_decimal(&mut out, location_penalty as u64);
            out.push(')');
        },
        _ => {
            push_str(&mut out, "outside any generic folder");
        },
    }
    push_str(&mut out, "; ");
    if copy_marker {
        push_str(&mut out, "file name carries a copy marker");
    } else {
        push_str(&mut out, "clean file name");
    }
    push_str(&mut out, "; ");
    push_str(&mut out, "path depth ");
    if depth < 0 {
        out.push('-');
        let magnitude = (0 - (depth as i128)) as u64;
        push_decimal(&mut out, magnitude);
    } else {
        push_decimal(&mut out, depth as u64);
    }
    let ghost m = match marker {
        Some(m) => Some(m@),
        None => None::<Seq<char>>,
    };
    assert(out@ =~= reason_text(location_penalty, m, copy_marker, depth));
    string_from_chars(out.as_slice())
}

} // verus!

verus! {

// ---------------------------------------------------------------------
// Folder penalties and contexts along the ancestor chain

/// The location penalty recorded for a folder of a source root.
pub struct FolderPenalty {
    pub source_root_id: String,
    pub relative_path: String,
    pub penalty: u32,
    pub marker: Option<String>,
}

pub open spec fn text_opt(o: Option<String>) -> Option<Seq<char>> {
    match o {
        Some(s) => Some(s@),
        None => None,
    }
}

/// The penalty and marker of the folder, looking among the first `n`
/// entries; a later entry for the same folder replaces an earlier one.
pub open spec fn penalty_lookup(entries: Seq<FolderPenalty>, root: Seq<char>, path: Seq<char>, n: int) -> Option<
    (u32, Option<Seq<char>>),
>
    decreases n,
{
    if n <= 0 {
        None
    } else if entries[n - 1].source_root_id@ == root && entries[n - 1].relative_path@ == path {
        Some((entries[n - 1].penalty, text_opt(entries[n - 1].marker)))
    } else {
        penalty_lookup(entries, root, path, n - 1)
    }
}

/// The worst penalty among the first `n` ancestors, and the marker of the
/// first folder that had it.
pub open spec fn worst_penalty(
    entries: Seq<FolderPenalty>,
    root: Seq<char>,
    ancestors: Seq<Seq<char>>,
    n: int,
) -> (u32, Option<Seq<char>>)
    decreases n,
{
    if n <= 0 {
        (0, None)
    } else {
        let (p, m) = worst_penalty(entries, root, ancestors, n - 1);
        match penalty_lookup(entries, root, ancestors[n - 1], entries.len() as int) {
            Some((q, found)) => if q > p {
                (q, found)
            } else {
                (p, m)
            },
            None => (p, m),
        }
    }
}

fn copy_marker_text(o: &Option<String>) -> (r: Option<String>)
    ensures
        text_opt(r) == text_opt(*o),
{
    match o {
        Some(s) => Some(crate::text::copy_str(s.as_str())),
        None => None,
    }
}

fn lookup_penalty(entries: &Vec<FolderPenalty>, root: &str, path: &str) -> (r: Option<(u32, Option<String>)>)
    ensures
        match r {
            Some((p, m)) => penalty_lookup(entries@, root@, path@, entries@.len() as int) == Some(
                (p, text_opt(m)),
            ),
            None => penalty_lookup(entries@, root@, path@, entries@.len() as int) is None,
        },
{
    let mut n = entries.len();
    while n > 0
        invariant
            n <= entries@.len(),
            penalty_lookup(entries@, root@, path@, entries@.len() as int) == penalty_lookup(
                entries@,
                root@,
                path@,
                n as int,
            ),
        decreases n,
    {
        let e = &entries[n - 1];
        if same_text(e.source_root_id.as_str(), root) && same_text(e.relative_path.as_str(), path) {
            return Some((e.penalty, copy_marker_text(&e.marker)));
        }
        n = n - 1;
    }
    None
}

/// The worst location penalty among a file's ancestor folders, and the
/// marker of the folder that set it.
pub fn worst_ancestor_penalty(entries: &Vec<FolderPenalty>, source_root_id: &str, parent_relative_path: &str) -> (r: (u32, Option<String>))
    ensures
        (r.0, text_opt(r.1)) == worst_penalty(
            entries@,
            source_root_id@,
            ancestors(parent_relative_path@),
            ancestors(parent_relative_path@).len() as int,
        ),
{
    let ancs = ancestor_paths(parent_relative_path);
    let ghost av = ancs@.map_values(|p: String| p@);
    let mut penalty: u32 = 0;
    let mut marker: Option<String> = None;
    let mut i: usize = 0;
    while i < ancs.len()
        invariant
            0 <= i <= ancs@.len(),
            av == ancs@.map_values(|p: String| p@),
            av == ancestors(parent_relative_path@),
            (penalty, text_opt(marker)) == worst_penalty(entries@, source_root_id@, av, i as int),
        decreases ancs@.len() - i,
    {
        assert(av[i as int] == ancs@[i as int]@);
        match lookup_penalty(entries, source_root_id, ancs[i].as_str()) {
            Some((p, m)) => {
                if p > penalty {
                    penalty = p;
                    marker = m;
                }
            },
            None => {},
        }
        i = i + 1;
    }
    (penalty, marker)
}

/// How a folder shapes what may happen to the files under it.
#[derive(Clone, Copy, Debug, PartialEq, Eq, Structural)]
pub enum ContextKind {
    Neutral,
    Generic,
    Protected,
}

impl ContextKind {
    /// Protected ranks above generic, which ranks above neutral.
    pub open spec fn rank(self) -> int {
        match self {
            ContextKind::Neutral => 0,
            ContextKind::Generic => 1,
            ContextKind::Protected => 2,
        }
    }
}

/// The context recorded for a folder of a source root.
pub struct FolderContext {
    pub source_root_id: String,
    pub relative_path: String,
    pub kind: ContextKind,
    pub marker: Option<String>,
}

pub open spec fn context_lookup(entries: Seq<FolderContext>, root: Seq<char>, path: Seq<char>, n: int) -> Option<
    (ContextKind, Option<Seq<char>>),
>
    decreases n,
{
    if n <= 0 {
        None
    } else if entries[n - 1].source_root_id@ == root && entries[n - 1].relative_path@ == path {
        Some((entries[n - 1].kind, text_opt(entries[n - 1].marker)))
    } else {
        context_lookup(entries, root, path, n - 1)
    }
}

/// Whether a context found further up replaces the current one: a
/// protected one always does, a generic one only replaces neutral.
pub open spec fn context_wins(current: ContextKind, found: ContextKind) -> bool {
    found == ContextKind::Protected || (current == ContextKind::Neutral && found
        == ContextKind::Generic)
}

/// The context along the first `n` ancestors.
pub open spec fn context_along(
    entries: Seq<FolderContext>,
    root: Seq<char>,
    ancestors: Seq<Seq<char>>,
    n: int,
) -> (ContextKind, Option<Seq<char>>)
    decreases n,
{
    if n <= 0 {
        (ContextKind::Neutral, None)
    } else {
        let (k, m) = context_along(entries, root, ancestors, n - 1);
        match context_lookup(entries, root, ancestors[n - 1], entries.len() as int) {
            Some((found, marker)) => if context_wins(k, found) {
                (found, marker)
            } else {
                (k, m)
            },
            None => (k, m),
        }
    }
}

fn lookup_context(entries: &Vec<FolderContext>, root: &str, path: &str) -> (r: Option<(ContextKind, Option<String>)>)
    ensures
        match r {
            Some((k, m)) => context_lookup(entries@, root@, path@, entries@.len() as int) == Some(
                (k, text_opt(m)),
            ),
            None => context_lookup(entries@, root@, path@, entries@.len() as int) is None,
        },
{
    let mut n = entries.len();
    while n > 0
        invariant
            n <= entries@.len(),
            context_lookup(entries@, root@, path@, entries@.len() as int) == context_lookup(
                entries@,
                root@,
                path@,
                n as int,
            ),
        decreases n,
    {
        let e = &entries[n - 1];
        if same_text(e.source_root_id.as_str(), root) && same_text(e.relative_path.as_str(), path) {
            return Some((e.kind, copy_marker_text(&e.marker)));
        }
        n = n - 1;
    }
    None
}

/// The most restrictive context along a file's ancestor chain, with the
/// marker that classified it. A file inside a protected folder is protected
/// even if it also sits under a generic one.
pub fn most_restrictive_context(entries: &Vec<FolderContext>, source_root_id: &str, parent_relative_path: &str) -> (r: (ContextKind, Option<String>))
    ensures
        (r.0, text_opt(r.1)) == context_along(
            entries@,
            source_root_id@,
            ancestors(parent_relative_path@),
            ancestors(parent_relative_path@).len() as int,
        ),
{
    let ancs = ancestor_paths(parent_relative_path);
    let ghost av = ancs@.map_values(|p: String| p@);
    let mut kind = ContextKind::Neutral;
    let mut marker: Option<String> = None;
    let mut i: usize = 0;
    while i < ancs.len()
        invariant
            0 <= i <= ancs@.len(),
            av == ancs@.map_values(|p: String| p@),
            av == ancestors(parent_relative_path@),
            (kind, text_opt(marker)) == context_along(entries@, source_root_id@, av, i as int),
        decreases ancs@.len() - i,
    {
        assert(av[i as int] == ancs@[i as int]@);
        match lookup_context(entries, source_root_id, ancs[i].as_str()) {
            Some((found, m)) => {
                let wins = match found {
                    ContextKind::Protected => true,
                    ContextKind::Generic => kind == ContextKind::Neutral,
                    ContextKind::Neutral => false,
                };
                if wins {
                    kind = found;
                    marker = m;
                }
            },
            None => {},
        }
        i = i + 1;
    }
    (kind, marker)
}

pub open spec fn found_rank(found: Option<(ContextKind, Option<Seq<char>>)>) -> int {
    match found {
        Some((kind, _)) => kind.rank(),
        None => 0,
    }
}

/// The most restrictive context wins: the context found along an ancestor
/// chain ranks at least as high as every context recorded on the chain.
pub proof fn lemma_most_restrictive_context_wins(
    entries: Seq<FolderContext>,
    root: Seq<char>,
    ancestors: Seq<Seq<char>>,
    n: int,
    i: int,
)
    requires
        0 <= i < n <= ancestors.len(),
        context_lookup(entries, root, ancestors[i], entries.len() as int) is Some,
    ensures
        context_along(entries, root, ancestors, n).0.rank() >= found_rank(
            context_lookup(entries, root, ancestors[i], entries.len() as int),
        ),
    decreases n,
{
    lemma_context_rank_grows(entries, root, ancestors, n);
    if i < n - 1 {
        lemma_most_restrictive_context_wins(entries, root, ancestors, n - 1, i);
    }
}

proof fn lemma_context_rank_grows(entries: Seq<FolderContext>, root: Seq<char>, ancestors: Seq<Seq<char>>, n: int)
    requires
        n >= 1,
    ensures
        context_along(entries, root, ancestors, n).0.rank() >= context_along(
            entries,
            root,
            ancestors,
            n - 1,
        ).0.rank(),
{
}

} // verus!

verus! {

pub open spec fn found_penalty(found: Option<(u32, Option<Seq<char>>)>) -> int {
    match found {
        Some((p, _)) => p as int,
        None => 0,
    }
}

/// The worst penalty is the worst: it is at least every penalty recorded
/// on the ancestor chain.
pub proof fn lemma_worst_penalty_is_maximal(
    entries: Seq<FolderPenalty>,
    root: Seq<char>,
    ancestors: Seq<Seq<char>>,
    n: int,
    i: int,
)
    requires
        0 <= i < n <= ancestors.len(),
    ensures
        worst_penalty(entries, root, ancestors, n).0 >= found_penalty(
            penalty_lookup(entries, root, ancestors[i], entries.len() as int),
        ),
    decreases n,
{
    if i < n - 1 {
        lemma_worst_penalty_is_maximal(entries, root, ancestors, n - 1, i);
    }
}

// ---------------------------------------------------------------------
// The representative of a set

/// One occurrence of a duplicated content, as stored.
pub struct DuplicateRow {
    pub set_id: String,
    pub occurrence_id: String,
    pub source_root_id: String,
    pub root_path: String,
    pub relative_path: String,
    pub parent_relative_path: String,
    pub normalized_name: String,
}

/// An occurrence scored as a canonical location.
pub struct Candidate {
    pub occurrence_id: String,
    pub absolute_path: String,
    pub cost: i64,
    pub reason: String,
}

/// The number of path separators in a path.
pub open spec fn separators(s: Seq<char>, n: int) -> int
    decreases n,
{
    if n <= 0 {
        0
    } else {
        separators(s, n - 1) + if is_separator(s[n - 1]) {
            1int
        } else {
            0int
        }
    }
}

/// The platform's main path separator (`std::path::MAIN_SEPARATOR`).
#[verifier::external_body]
fn main_separator() -> (c: char)
    ensures
        c == '/' || c == '\\',
{
    std::path::MAIN_SEPARATOR
}

/// What a candidate holds for a row, given the platform's separator.
pub open spec fn candidate_matches(c: Candidate, row: DuplicateRow, entries: Seq<FolderPenalty>, separator: char) -> bool {
    let ancs = ancestors(row.parent_relative_path@);
    let (penalty, marker) = worst_penalty(entries, row.source_root_id@, ancs, ancs.len() as int);
    let copy = copy_marked(row.normalized_name@);
    let depth = separators(row.relative_path@, row.relative_path@.len() as int);
    &&& c.occurrence_id@ == row.occurrence_id@
    &&& c.absolute_path@ == (if row.relative_path@.len() == 0 {
        row.root_path@
    } else {
        row.root_path@ + seq![separator] + row.relative_path@
    })
    &&& c.cost == cost_of(penalty, copy, depth as i64)
    &&& c.reason@ == reason_text(penalty, marker, copy, depth as i64)
}

fn count_separators(s: &str) -> (n: i64)
    requires
        s@.len() < i64::MAX,
    ensures
        n == separators(s@, s@.len() as int),
        0 <= n <= s@.len(),
{
    let chars = str_chars(s);
    let mut n: i64 = 0;
    let mut i: usize = 0;
    while i < chars.len()
        invariant
            0 <= i <= chars@.len(),
            chars@ == s@,
            s@.len() < i64::MAX,
            n == separators(s@, i as int),
            0 <= n <= i,
        decreases chars@.len() - i,
    {
        if chars[i] == '/' || chars[i] == '\\' {
            n = n + 1;
        }
        i = i + 1;
    }
    n
}

/// Score one occurrence: worst ancestor penalty, copy marker and depth.
pub fn score_occurrence(row: &DuplicateRow, entries: &Vec<FolderPenalty>, separator: char) -> (c: Candidate)
    requires
        row.relative_path@.len() + u32::MAX * LOCATION_WEIGHT + COPY_MARKER_COST <= i64::MAX,
        row.normalized_name@.len() < i64::MAX,
    ensures
        candidate_matches(c, *row, entries@, separator),
{
    let (penalty, marker) = worst_ancestor_penalty(
        entries,
        row.source_root_id.as_str(),
        row.parent_relative_path.as_str(),
    );
    let copy = has_copy_marker(row.normalized_name.as_str());
    let depth = count_separators(row.relative_path.as_str());
    let relative = str_chars(row.relative_path.as_str());
    let absolute_path = if relative.len() == 0 {
        crate::text::copy_str(row.root_path.as_str())
    } else {
        let mut out: Vec<char> = Vec::new();
        push_str(&mut out, row.root_path.as_str());
        out.push(separator);
        push_str(&mut out, row.relative_path.as_str());
        assert(out@ =~= row.root_path@ + seq![separator] + row.relative_path@);
        string_from_chars(out.as_slice())
    };
    let reason = match &marker {
        Some(m) => reason_for(penalty, Some(m.as_str()), copy, depth),
        None => reason_for(penalty, None, copy, depth),
    };
    let candidate = Candidate {
        occurrence_id: crate::text::copy_str(row.occurrence_id.as_str()),
        absolute_path,
        cost: location_cost(penalty, copy, depth),
        reason,
    };
    candidate
}

} // verus!

verus! {

/// Whether candidate `a` ranks before `b`: lower cost, then the path that
/// sorts first.
pub open spec fn ranks_before(a: Candidate, b: Candidate) -> bool {
    a.cost < b.cost || (a.cost == b.cost && chars_lt(a.absolute_path@, b.absolute_path@))
}

pub open spec fn same_rank(a: Candidate, b: Candidate) -> bool {
    a.cost == b.cost && a.absolute_path@ == b.absolute_path@
}

/// Position `r` holds the representative: no candidate ranks before it,
/// and it is the first of the candidates that rank the same.
pub open spec fn is_representative(cs: Seq<Candidate>, r: int) -> bool {
    &&& 0 <= r < cs.len()
    &&& forall|j: int| 0 <= j < cs.len() ==> !ranks_before(#[trigger] cs[j], cs[r])
    &&& forall|j: int| 0 <= j < r ==> !same_rank(#[trigger] cs[j], cs[r])
}

proof fn lemma_ranks_before_transitive(a: Candidate, b: Candidate, c: Candidate)
    requires
        ranks_before(a, b),
        ranks_before(b, c),
    ensures
        ranks_before(a, c),
{
    if a.cost == b.cost && b.cost == c.cost {
        lemma_chars_lt_transitive(a.absolute_path@, b.absolute_path@, c.absolute_path@);
    }
}

fn ranks_before_exec(a: &Candidate, b: &Candidate) -> (lt: bool)
    ensures
        lt == ranks_before(*a, *b),
{
    if a.cost != b.cost {
        a.cost < b.cost
    } else {
        let x = str_chars(a.absolute_path.as_str());
        let y = str_chars(b.absolute_path.as_str());
        chars_less(&x, &y)
    }
}

/// The position of the set's representative: the lowest cost wins, and
/// ties break on the path so the choice is stable.
pub fn choose_representative(candidates: &Vec<Candidate>) -> (r: usize)
    requires
        candidates@.len() > 0,
    ensures
        is_representative(candidates@, r as int),
{
    let ghost cs = candidates@;
    let mut best: usize = 0;
    let mut i: usize = 1;
    proof {
        lemma_chars_lt_irreflexive(cs[0].absolute_path@);
    }
    while i < candidates.len()
        invariant
            cs == candidates@,
            1 <= i <= cs.len(),
            0 <= best < i,
            forall|j: int| 0 <= j < i ==> !ranks_before(#[trigger] cs[j], cs[best as int]),
            forall|j: int| 0 <= j < best ==> !same_rank(#[trigger] cs[j], cs[best as int]),
        decreases cs.len() - i,
    {
        if ranks_before_exec(&candidates[i], &candidates[best]) {
            let ghost old_best = best as int;
            assert forall|j: int| 0 <= j < i implies !ranks_before(#[trigger] cs[j], cs[i as int]) by {
                if ranks_before(cs[j], cs[i as int]) {
                    lemma_ranks_before_transitive(cs[j], cs[i as int], cs[old_best]);
                }
            }
            assert forall|j: int| 0 <= j < i implies !same_rank(#[trigger] cs[j], cs[i as int]) by {
                if same_rank(cs[j], cs[i as int]) {
                    assert(ranks_before(cs[j], cs[old_best]));
                }
            }
            proof {
                lemma_chars_lt_irreflexive(cs[i as int].absolute_path@);
            }
            best = i;
        } else {
            assert(!ranks_before(cs[i as int], cs[best as int]));
        }
        i = i + 1;
    }
    best
}

/// Every candidate is its row scored with the separator.
pub open spec fn scored_with(cs: Seq<Candidate>, rows: Seq<DuplicateRow>, entries: Seq<FolderPenalty>, separator: char) -> bool {
    &&& separator == '/' || separator == '\\'
    &&& cs.len() == rows.len()
    &&& forall|i: int| 0 <= i < cs.len() ==> candidate_matches(#[trigger] cs[i], rows[i], entries, separator)
}

/// `c` is the representative of the rows scored with one of the two path
/// separators.
pub open spec fn represents(c: Candidate, rows: Seq<DuplicateRow>, entries: Seq<FolderPenalty>) -> bool {
    exists|separator: char, cs: Seq<Candidate>, k: int|
        #[trigger] scored_with(cs, rows, entries, separator) && #[trigger] is_representative(cs, k)
            && c == cs[k]
}

/// The logical representative of one duplicate set, scored from its rows
/// with the platform's path separator; `None` for an empty set.
pub fn representative(rows: &Vec<DuplicateRow>, entries: &Vec<FolderPenalty>) -> (r: Option<Candidate>)
    requires
        forall|i: int|
            0 <= i < rows@.len() ==> (#[trigger] rows@[i]).relative_path@.len() + u32::MAX
                * LOCATION_WEIGHT + COPY_MARKER_COST <= i64::MAX && rows@[i].normalized_name@.len()
                < i64::MAX,
    ensures
        r is None <==> rows@.len() == 0,
        r matches Some(c) ==> represents(c, rows@, entries@),
{
    if rows.len() == 0 {
        return None;
    }
    let separator = main_separator();
    let mut candidates: Vec<Candidate> = Vec::new();
    let mut i: usize = 0;
    while i < rows.len()
        invariant
            0 <= i <= rows@.len(),
            candidates@.len() == i,
            forall|x: int|
                0 <= x < rows@.len() ==> (#[trigger] rows@[x]).relative_path@.len() + u32::MAX
                    * LOCATION_WEIGHT + COPY_MARKER_COST <= i64::MAX && rows@[x].normalized_name@.len()
                    < i64::MAX,
            forall|x: int|
                0 <= x < i ==> candidate_matches(#[trigger] candidates@[x], rows@[x], entries@, separator),
        decreases rows@.len() - i,
    {
        let c = score_occurrence(&rows[i], entries, separator);
        candidates.push(c);
        i = i + 1;
    }
    let k = choose_representative(&candidates);
    let ghost cs = candidates@;
    let best = candidates.swap_remove(k);
    assert(best == cs[k as int]);
    assert(candidate_matches(best, rows@[k as int], entries@, separator));
    assert(is_representative(cs, k as int));
    assert(scored_with(cs, rows@, entries@, separator));
    assert(represents(best, rows@, entries@));
    Some(best)
}

} // verus!
