//! A small JSON document model with two writers: `emit`, which keeps object
//! members in the order given (as a serializer of a struct does), and
//! `canonical`, which writes every object with its keys sorted (as the
//! digests of the disclosure manifest and policy require).

use vstd::prelude::*;
use crate::text::{str_chars, string_from_chars, copy_str, push_str, chars_lt, chars_less, digit_char, decimal, decimal_string};

verus! {

broadcast use vstd::std_specs::vec::axiom_vec_index_decreases;

/// A JSON document. Numbers keep their textual form.
#[derive(Debug)]
pub enum JsonValue {
    Null,
    Bool(bool),
    Number(String),
    Str(String),
    Array(Vec<JsonValue>),
    Object(Vec<(String, JsonValue)>),
    /// A fragment that is already JSON text, written verbatim.
    Raw(String),
}

/// The escape sequence JSON uses for one character inside a string: quote
/// and backslash are escaped, control characters below U+0020 use their
/// short form when they have one and `\u00XX` otherwise, everything else is
/// written as it is.
pub open spec fn escape_char(c: char) -> Seq<char> {
    let u = c as u32;
    if c == '"' {
        seq!['\\', '"']
    } else if c == '\\' {
        seq!['\\', '\\']
    } else if u == 0x08 {
        seq!['\\', 'b']
    } else if u == 0x0c {
        seq!['\\', 'f']
    } else if c == '\n' {
        seq!['\\', 'n']
    } else if c == '\r' {
        seq!['\\', 'r']
    } else if c == '\t' {
        seq!['\\', 't']
    } else if u < 0x20 {
        seq!['\\', 'u', '0', '0', hex_digit((u / 16) as nat), hex_digit((u % 16) as nat)]
    } else {
        seq![c]
    }
}

/// Lower-case hexadecimal digit.
pub open spec fn hex_digit(d: nat) -> char {
    if d < 10 {
        digit_char(d)
    } else if d == 10 {
        'a'
    } else if d == 11 {
        'b'
    } else if d == 12 {
        'c'
    } else if d == 13 {
        'd'
    } else if d == 14 {
        'e'
    } else {
        'f'
    }
}

/// The escaped body of a string.
pub open spec fn escape_seq(s: Seq<char>) -> Seq<char>
    decreases s.len(),
{
    if s.len() == 0 {
        Seq::empty()
    } else {
        escape_seq(s.drop_last()) + escape_char(s.last())
    }
}

/// A JSON string literal.
pub open spec fn quote(s: Seq<char>) -> Seq<char> {
    seq!['"'] + escape_seq(s) + seq!['"']
}

/// The abstract form of a JSON document.
#[verifier::ext_equal]
pub enum Json {
    Null,
    Bool(bool),
    Number(Seq<char>),
    Str(Seq<char>),
    Array(Seq<Json>),
    Object(Seq<(Seq<char>, Json)>),
    Raw(Seq<char>),
}

impl JsonValue {
    /// The abstract document this value holds.
    pub open spec fn view(self) -> Json
        decreases self, 0int,
    {
        match self {
            JsonValue::Null => Json::Null,
            JsonValue::Bool(b) => Json::Bool(b),
            JsonValue::Number(n) => Json::Number(n@),
            JsonValue::Str(s) => Json::Str(s@),
            JsonValue::Array(items) => Json::Array(view_items(items@)),
            JsonValue::Object(members) => Json::Object(view_members(members@)),
            JsonValue::Raw(t) => Json::Raw(t@),
        }
    }
}

pub open spec fn view_items(items: Seq<JsonValue>) -> Seq<Json>
    decreases items, 0int,
{
    if items.len() == 0 {
        Seq::empty()
    } else {
        view_items(items.drop_last()).push(items.last().view())
    }
}

pub open spec fn view_member(member: (String, JsonValue)) -> (Seq<char>, Json)
    decreases member, 0int,
{
    (member.0@, member.1.view())
}

pub open spec fn view_members(members: Seq<(String, JsonValue)>) -> Seq<(Seq<char>, Json)>
    decreases members, 0int,
{
    if members.len() == 0 {
        Seq::empty()
    } else {
        view_members(members.drop_last()).push(view_member(members.last()))
    }
}

pub proof fn lemma_view_items(items: Seq<JsonValue>)
    ensures
        view_items(items).len() == items.len(),
        forall|i: int| 0 <= i < items.len() ==> view_items(items)[i] == (#[trigger] items[i]).view(),
    decreases items.len(),
{
    if items.len() > 0 {
        lemma_view_items(items.drop_last());
        assert forall|i: int| 0 <= i < items.len() implies view_items(items)[i] == (
        #[trigger] items[i]).view() by {
            if i < items.len() - 1 {
                assert(items.drop_last()[i] == items[i]);
            }
        }
    }
}

pub proof fn lemma_view_members(members: Seq<(String, JsonValue)>)
    ensures
        view_members(members).len() == members.len(),
        forall|i: int|
            0 <= i < members.len() ==> view_members(members)[i] == view_member(
                #[trigger] members[i],
            ),
    decreases members.len(),
{
    if members.len() > 0 {
        lemma_view_members(members.drop_last());
        assert forall|i: int| 0 <= i < members.len() implies view_members(members)[i]
            == view_member(#[trigger] members[i]) by {
            if i < members.len() - 1 {
                assert(members.drop_last()[i] == members[i]);
            }
        }
    }
}

/// Insertion point for `key` among the already ordered member indices:
/// after every member whose key does not sort after it.
pub open spec fn insert_pos(order: Seq<int>, keys: Seq<Seq<char>>, key: Seq<char>) -> int
    decreases order.len(),
{
    if order.len() == 0 {
        0
    } else if 0 <= order.last() < keys.len() && chars_lt(key, keys[order.last()]) {
        insert_pos(order.drop_last(), keys, key)
    } else {
        order.len() as int
    }
}

/// Indices of the first `n` keys, ordered by key (insertion sort, stable).
pub open spec fn sorted_order(keys: Seq<Seq<char>>, n: nat) -> Seq<int>
    decreases n,
{
    if n == 0 {
        Seq::empty()
    } else {
        let order = sorted_order(keys, (n - 1) as nat);
        order.insert(insert_pos(order, keys, keys[n - 1]), n - 1)
    }
}

/// The natural order of `n` members.
pub open spec fn identity_order(n: nat) -> Seq<int> {
    Seq::new(n, |i: int| i)
}

pub open spec fn member_keys(members: Seq<(Seq<char>, Json)>) -> Seq<Seq<char>> {
    members.map_values(|m: (Seq<char>, Json)| m.0)
}

/// The order in which an object's members are written.
pub open spec fn member_order(members: Seq<(Seq<char>, Json)>, sorted: bool) -> Seq<int> {
    if sorted {
        sorted_order(member_keys(members), members.len())
    } else {
        identity_order(members.len())
    }
}

/// The text of a document. With `sorted`, every object is written with its
/// keys in order; without it, members keep the order given.
pub open spec fn json_text(v: Json, sorted: bool) -> Seq<char>
    decreases v, 0int,
{
    match v {
        Json::Null => seq!['n', 'u', 'l', 'l'],
        Json::Bool(b) => if b {
            seq!['t', 'r', 'u', 'e']
        } else {
            seq!['f', 'a', 'l', 's', 'e']
        },
        Json::Number(n) => n,
        Json::Str(s) => quote(s),
        Json::Array(items) => seq!['['] + write_items(items, sorted) + seq![']'],
        Json::Object(members) => seq!['{'] + write_members(
            members,
            member_order(members, sorted),
            sorted,
        ) + seq!['}'],
        Json::Raw(t) => t,
    }
}

/// The comma-separated text of a list of documents.
pub open spec fn write_items(items: Seq<Json>, sorted: bool) -> Seq<char>
    decreases items, 0int,
{
    if items.len() == 0 {
        Seq::empty()
    } else {
        write_items(items.drop_last(), sorted) + (if items.len() > 1 {
            seq![',']
        } else {
            Seq::empty()
        }) + json_text(items.last(), sorted)
    }
}

/// The text of one object member.
pub open spec fn write_member(member: (Seq<char>, Json), sorted: bool) -> Seq<char>
    decreases member, 0int,
{
    quote(member.0) + seq![':'] + json_text(member.1, sorted)
}

/// The comma-separated members of an object, taken in the given order.
pub open spec fn write_members(
    members: Seq<(Seq<char>, Json)>,
    order: Seq<int>,
    sorted: bool,
) -> Seq<char>
    decreases members, order.len(),
{
    if order.len() == 0 {
        Seq::empty()
    } else {
        let k = order.last();
        write_members(members, order.drop_last(), sorted) + (if order.len() > 1 {
            seq![',']
        } else {
            Seq::empty()
        }) + (if 0 <= k < members.len() {
            write_member(members[k], sorted)
        } else {
            Seq::empty()
        })
    }
}

/// Append the escaped form of one character.
fn push_escaped_char(out: &mut Vec<char>, c: char)
    ensures
        final(out)@ == old(out)@ + escape_char(c),
{
    let u = c as u32;
    if c == '"' {
        out.push('\\');
        out.push('"');
    } else if c == '\\' {
        out.push('\\');
        out.push('\\');
    } else if u == 0x08 {
        out.push('\\');
        out.push('b');
    } else if u == 0x0c {
        out.push('\\');
        out.push('f');
    } else if c == '\n' {
        out.push('\\');
        out.push('n');
    } else if c == '\r' {
        out.push('\\');
        out.push('r');
    } else if c == '\t' {
        out.push('\\');
        out.push('t');
    } else if u < 0x20 {
        out.push('\\');
        out.push('u');
        out.push('0');
        out.push('0');
        out.push(hex_char(u / 16));
        out.push(hex_char(u % 16));
    } else {
        out.push(c);
    }
    assert(final(out)@ =~= old(out)@ + escape_char(c));
}

/// The lower-case hexadecimal digit of `d`.
pub fn hex_char(d: u32) -> (c: char)
    requires
        d < 16,
    ensures
        c == hex_digit(d as nat),
{
    if d == 0 {
        '0'
    } else if d == 1 {
        '1'
    } else if d == 2 {
        '2'
    } else if d == 3 {
        '3'
    } else if d == 4 {
        '4'
    } else if d == 5 {
        '5'
    } else if d == 6 {
        '6'
    } else if d == 7 {
        '7'
    } else if d == 8 {
        '8'
    } else if d == 9 {
        '9'
    } else if d == 10 {
        'a'
    } else if d == 11 {
        'b'
    } else if d == 12 {
        'c'
    } else if d == 13 {
        'd'
    } else if d == 14 {
        'e'
    } else {
        'f'
    }
}

/// Append a JSON string literal.
pub fn push_quoted(out: &mut Vec<char>, s: &str)
    ensures
        final(out)@ == old(out)@ + quote(s@),
{
    let chars = str_chars(s);
    out.push('"');
    let ghost start = out@;
    let mut i: usize = 0;
    while i < chars.len()
        invariant
            0 <= i <= chars@.len(),
            chars@ == s@,
            out@ == start + escape_seq(chars@.take(i as int)),
        decreases chars@.len() - i,
    {
        push_escaped_char(out, chars[i]);
        i = i + 1;
        assert(chars@.take(i as int).drop_last() =~= chars@.take((i - 1) as int));
    }
    assert(chars@.take(i as int) =~= chars@);
    out.push('"');
    assert(out@ =~= old(out)@ + quote(s@));
}

/// Insertion point of `key` in `order`, searching from the end.
fn find_insert_pos(order: &Vec<usize>, keys: &Vec<Vec<char>>, key: &Vec<char>) -> (p: usize)
    requires
        forall|i: int| 0 <= i < order@.len() ==> order@[i] < keys@.len(),
    ensures
        p == insert_pos(order@.map_values(|x: usize| x as int), keys@.map_values(|k: Vec<char>| k@), key@),
        p <= order@.len(),
{
    let ghost ord = order@.map_values(|x: usize| x as int);
    let ghost ks = keys@.map_values(|k: Vec<char>| k@);
    let mut p = order.len();
    assert(ord.take(p as int) =~= ord);
    while p > 0 && chars_less(key, &keys[order[p - 1]])
        invariant
            p <= order@.len(),
            ord == order@.map_values(|x: usize| x as int),
            ks == keys@.map_values(|k: Vec<char>| k@),
            forall|i: int| 0 <= i < order@.len() ==> order@[i] < keys@.len(),
            insert_pos(ord, ks, key@) == insert_pos(ord.take(p as int), ks, key@),
        decreases p,
    {
        assert(ord.take(p as int).drop_last() =~= ord.take(p - 1));
        p = p - 1;
    }
    if p > 0 {
        assert(ord.take(p as int).last() == order@[p - 1] as int);
    }
    p
}

/// The member indices of an object in key order.
fn sorted_member_order(members: &Vec<(String, JsonValue)>) -> (order: Vec<usize>)
    ensures
        order@.map_values(|x: usize| x as int) == sorted_order(member_keys(view_members(members@)), members@.len()),
        forall|i: int| 0 <= i < order@.len() ==> order@[i] < members@.len(),
{
    let mut keys: Vec<Vec<char>> = Vec::new();
    let mut j: usize = 0;
    while j < members.len()
        invariant
            0 <= j <= members@.len(),
            keys@.len() == j,
            forall|i: int| 0 <= i < j ==> (#[trigger] keys@[i])@ == members@[i].0@,
        decreases members@.len() - j,
    {
        keys.push(str_chars(members[j].0.as_str()));
        j = j + 1;
    }
    let ghost ks = keys@.map_values(|k: Vec<char>| k@);
    proof {
        lemma_view_members(members@);
    }
    assert(ks =~= member_keys(view_members(members@)));
    let mut order: Vec<usize> = Vec::new();
    let mut n: usize = 0;
    while n < members.len()
        invariant
            0 <= n <= members@.len(),
            keys@.len() == members@.len(),
            ks == keys@.map_values(|k: Vec<char>| k@),
            ks == member_keys(view_members(members@)),
            order@.len() == n,
            order@.map_values(|x: usize| x as int) == sorted_order(ks, n as nat),
            forall|i: int| 0 <= i < order@.len() ==> order@[i] < n,
        decreases members@.len() - n,
    {
        let p = find_insert_pos(&order, &keys, &keys[n]);
        let ghost before = order@;
        order.insert(p, n);
        assert(order@.map_values(|x: usize| x as int) =~= before.map_values(|x: usize| x as int).insert(
            p as int,
            n as int,
        ));
        n = n + 1;
        assert forall|i: int| 0 <= i < order@.len() implies order@[i] < n by {
            if i < p {
                assert(order@[i] == before[i]);
            } else if i > p {
                assert(order@[i] == before[i - 1]);
            }
        }
    }
    order
}

/// Append the text of a value.
pub fn write_value(out: &mut Vec<char>, v: &JsonValue, sorted: bool)
    ensures
        final(out)@ == old(out)@ + json_text(v@, sorted),
    decreases v,
{
    match v {
        JsonValue::Null => {
            push_str(out, "null");
            proof { reveal_strlit("null"); }
            assert(final(out)@ =~= old(out)@ + json_text(v@, sorted));
        },
        JsonValue::Bool(b) => {
            if *b {
                push_str(out, "true");
                proof { reveal_strlit("true"); }
            } else {
                push_str(out, "false");
                proof { reveal_strlit("false"); }
            }
            assert(final(out)@ =~= old(out)@ + json_text(v@, sorted));
        },
        JsonValue::Number(n) => {
            push_str(out, n.as_str());
        },
        JsonValue::Str(s) => {
            push_quoted(out, s.as_str());
        },
        JsonValue::Raw(t) => {
            push_str(out, t.as_str());
        },
        JsonValue::Array(items) => {
            out.push('[');
            let ghost start = out@;
            let ghost vitems = view_items(items@);
            proof {
                lemma_view_items(items@);
            }
            let mut i: usize = 0;
            while i < items.len()
                invariant
                    0 <= i <= items@.len(),
                    out@ == start + write_items(vitems.take(i as int), sorted),
                    vitems == view_items(items@),
                    vitems.len() == items@.len(),
                    forall|j: int| 0 <= j < items@.len() ==> vitems[j] == (#[trigger] items@[j]).view(),
                    *v == JsonValue::Array(*items),
                decreases items@.len() - i,
            {
                if i > 0 {
                    out.push(',');
                }
                proof {
                    assert(*v == JsonValue::Array(*items));
                    assert(decreases_to!(*v => (*v)->Array_0));
                    assert(decreases_to!(*items => items@[i as int]));
                }
                write_value(out, &items[i], sorted);
                i = i + 1;
                assert(vitems.take(i as int).drop_last() =~= vitems.take((i - 1) as int));
                assert(vitems.take(i as int).last() == items@[i - 1].view());
                assert(out@ =~= start + write_items(vitems.take(i as int), sorted));
            }
            assert(vitems.take(i as int) =~= vitems);
            out.push(']');
            assert(final(out)@ =~= old(out)@ + json_text(v@, sorted));
        },
        JsonValue::Object(members) => {
            out.push('{');
            let ghost start = out@;
            let order: Vec<usize> = if sorted {
                sorted_member_order(members)
            } else {
                identity(members.len())
            };
            let ghost ord = order@.map_values(|x: usize| x as int);
            let ghost vmembers = view_members(members@);
            proof {
                lemma_view_members(members@);
            }
            assert(ord =~= member_order(vmembers, sorted));
            let mut i: usize = 0;
            while i < order.len()
                invariant
                    0 <= i <= order@.len(),
                    ord == order@.map_values(|x: usize| x as int),
                    forall|j: int| 0 <= j < order@.len() ==> order@[j] < members@.len(),
                    out@ == start + write_members(vmembers, ord.take(i as int), sorted),
                    vmembers == view_members(members@),
                    vmembers.len() == members@.len(),
                    forall|j: int| 0 <= j < members@.len() ==> vmembers[j] == view_member(#[trigger] members@[j]),
                    *v == JsonValue::Object(*members),
                decreases order@.len() - i,
            {
                if i > 0 {
                    out.push(',');
                }
                let k = order[i];
                push_quoted(out, members[k].0.as_str());
                out.push(':');
                proof {
                    assert(*v == JsonValue::Object(*members));
                    assert(decreases_to!(*v => (*v)->Object_0));
                    assert(decreases_to!(*members => members@[k as int]));
                    assert(decreases_to!(members@[k as int] => members@[k as int].1));
                }
                write_value(out, &members[k].1, sorted);
                assert(vmembers[k as int] == view_member(members@[k as int]));
                assert(write_member(vmembers[k as int], sorted) == quote(members@[k as int].0@)
                    + seq![':'] + json_text(members@[k as int].1.view(), sorted));
                i = i + 1;
                assert(ord.take(i as int).drop_last() =~= ord.take((i - 1) as int));
                assert(ord.take(i as int).last() == k as int);
                assert(out@ =~= start + write_members(vmembers, ord.take(i as int), sorted));
            }
            assert(ord.take(i as int) =~= ord);
            out.push('}');
            assert(final(out)@ =~= old(out)@ + json_text(v@, sorted));
        },
    }
}

/// The indices `0..n` in order.
fn identity(n: usize) -> (order: Vec<usize>)
    ensures
        order@.map_values(|x: usize| x as int) == identity_order(n as nat),
        forall|j: int| 0 <= j < order@.len() ==> order@[j] < n,
{
    let mut order: Vec<usize> = Vec::new();
    let mut i: usize = 0;
    while i < n
        invariant
            0 <= i <= n,
            order@.len() == i,
            forall|j: int| 0 <= j < i ==> order@[j] == j,
        decreases n - i,
    {
        order.push(i);
        i = i + 1;
    }
    assert(order@.map_values(|x: usize| x as int) =~= identity_order(n as nat));
    order
}

/// The text of a value with members in the order given.
pub fn emit(v: &JsonValue) -> (text: String)
    ensures
        text@ == json_text(v@, false),
{
    let mut out: Vec<char> = Vec::new();
    write_value(&mut out, v, false);
    assert(out@ =~= json_text(v@, false));
    string_from_chars(&out)
}

/// The canonical text of a value: every object with its keys sorted.
pub fn canonical(v: &JsonValue) -> (text: String)
    ensures
        text@ == json_text(v@, true),
{
    let mut out: Vec<char> = Vec::new();
    write_value(&mut out, v, true);
    assert(out@ =~= json_text(v@, true));
    string_from_chars(&out)
}

impl JsonValue {
    /// A JSON string holding a copy of `s`.
    pub fn string(s: &str) -> (v: JsonValue)
        ensures
            v@ == Json::Str(s@),
    {
        JsonValue::Str(copy_str(s))
    }

    /// A JSON number holding `n`.
    pub fn number(n: u64) -> (v: JsonValue)
        ensures
            v@ == Json::Number(decimal(n as nat)),
    {
        JsonValue::Number(decimal_string(n))
    }
}

} // verus!

verus! {

impl JsonValue {
    /// A JSON array of the given values.
    pub fn array(items: Vec<JsonValue>) -> (v: JsonValue)
        ensures
            v@ == Json::Array(view_items(items@)),
    {
        JsonValue::Array(items)
    }

    /// A JSON object with the given members, in the given order.
    pub fn object(members: Vec<(String, JsonValue)>) -> (v: JsonValue)
        ensures
            v@ == Json::Object(view_members(members@)),
    {
        JsonValue::Object(members)
    }

    /// A JSON boolean.
    pub fn boolean(b: bool) -> (v: JsonValue)
        ensures
            v@ == Json::Bool(b),
    {
        JsonValue::Bool(b)
    }
}

/// Append a member to an object under construction.
pub fn push_member(members: &mut Vec<(String, JsonValue)>, key: &str, value: JsonValue)
    ensures
        view_members(final(members)@) == view_members(old(members)@).push((key@, value@)),
{
    let k = copy_str(key);
    let ghost vv = value@;
    members.push((k, value));
    assert(members@.drop_last() =~= old(members)@);
    assert(view_member(members@.last()) == (key@, vv));
}

/// Append an item to an array under construction.
pub fn push_item(items: &mut Vec<JsonValue>, value: JsonValue)
    ensures
        view_items(final(items)@) == view_items(old(items)@).push(value@),
{
    items.push(value);
    assert(final(items)@.drop_last() =~= old(items)@);
}

/// A JSON array of strings.
pub open spec fn strings_json(items: Seq<Seq<char>>) -> Seq<Json>
    decreases items.len(),
{
    if items.len() == 0 {
        Seq::empty()
    } else {
        strings_json(items.drop_last()).push(Json::Str(items.last()))
    }
}

pub open spec fn string_views(items: Seq<String>) -> Seq<Seq<char>> {
    items.map_values(|s: String| s@)
}

/// A JSON array holding copies of the given strings.
pub fn string_array(items: &Vec<String>) -> (v: JsonValue)
    ensures
        v@ == Json::Array(strings_json(string_views(items@))),
{
    let mut out: Vec<JsonValue> = Vec::new();
    let mut i: usize = 0;
    while i < items.len()
        invariant
            0 <= i <= items@.len(),
            view_items(out@) == strings_json(string_views(items@.take(i as int))),
        decreases items@.len() - i,
    {
        push_item(&mut out, JsonValue::string(items[i].as_str()));
        i = i + 1;
        assert(string_views(items@.take(i as int)).drop_last() =~= string_views(
            items@.take((i - 1) as int),
        ));
    }
    assert(items@.take(i as int) =~= items@);
    JsonValue::array(out)
}

} // verus!
