//! A JSON value held as plain data, its mathematical view, field access, and
//! the canonical (sorted-key, compact) rendering that digests are taken over.
use vstd::prelude::*;
use crate::text::{owned, seq_le, seq_lt, str_eq, str_lt};
use vstd::string::StringExecFns;

verus! {

/// The mathematical form of a JSON value.
pub enum JsonView {
    Null,
    Bool(bool),
    /// A number, as the JSON text that writes it.
    Number(Seq<char>),
    Str(Seq<char>),
    Array(Seq<JsonView>),
    /// Members in document order.
    Object(Seq<(Seq<char>, JsonView)>),
}

/// A JSON value. Numbers are kept as their JSON text, so no value is ever
/// re-rounded on its way through the library.
pub enum Json {
    Null,
    Bool(bool),
    Number(String),
    Str(String),
    Array(Vec<Json>),
    Object(Vec<(String, Json)>),
}

pub open spec fn json_view(j: Json) -> JsonView
    decreases j, 0int,
{
    match j {
        Json::Null => JsonView::Null,
        Json::Bool(b) => JsonView::Bool(b),
        Json::Number(n) => JsonView::Number(n@),
        Json::Str(s) => JsonView::Str(s@),
        Json::Array(items) => JsonView::Array(items_view(items@, items@.len() as int)),
        Json::Object(e) => JsonView::Object(entries_view(e@, e@.len() as int)),
    }
}

pub open spec fn items_view(s: Seq<Json>, n: int) -> Seq<JsonView>
    decreases s, n,
{
    if n <= 0 || n > s.len() {
        Seq::empty()
    } else {
        items_view(s, n - 1).push(json_view(s[n - 1]))
    }
}

pub open spec fn entries_view(s: Seq<(String, Json)>, n: int) -> Seq<(Seq<char>, JsonView)>
    decreases s, n,
{
    if n <= 0 || n > s.len() {
        Seq::empty()
    } else {
        entries_view(s, n - 1).push((s[n - 1].0@, json_view(s[n - 1].1)))
    }
}

impl View for Json {
    type V = JsonView;

    open spec fn view(&self) -> JsonView {
        json_view(*self)
    }
}

pub proof fn lemma_items_view(s: Seq<Json>, n: int)
    requires
        0 <= n <= s.len(),
    ensures
        items_view(s, n).len() == n,
        forall|i: int| 0 <= i < n ==> #[trigger] items_view(s, n)[i] == json_view(s[i]),
    decreases n,
{
    if n > 0 {
        lemma_items_view(s, n - 1);
    }
}

pub proof fn lemma_entries_view(s: Seq<(String, Json)>, n: int)
    requires
        0 <= n <= s.len(),
    ensures
        entries_view(s, n).len() == n,
        forall|i: int| 0 <= i < n ==> #[trigger] entries_view(s, n)[i] == (s[i].0@, json_view(s[i].1)),
    decreases n,
{
    if n > 0 {
        lemma_entries_view(s, n - 1);
    }
}

/// The view of an array built from `items`.
pub proof fn lemma_array_view(items: Vec<Json>)
    ensures
        Json::Array(items)@ matches JsonView::Array(v) && v.len() == items@.len() && forall|i: int| 0 <= i < v.len() ==> #[trigger] v[i] == items@[i]@,
{
    lemma_items_view(items@, items@.len() as int);
}

/// A deep copy.
pub fn json_clone(v: &Json) -> (r: Json)
    ensures
        r@ == v@,
    decreases v,
{
    match v {
        Json::Null => Json::Null,
        Json::Bool(b) => Json::Bool(*b),
        Json::Number(n) => Json::Number(n.clone()),
        Json::Str(s) => Json::Str(s.clone()),
        Json::Array(items) => {
            let mut out: Vec<Json> = Vec::new();
            let mut i: usize = 0;
            while i < items.len()
                invariant
                    *v == Json::Array(*items),
                    i <= items@.len(),
                    out@.len() == i,
                    forall|j: int| 0 <= j < i ==> (#[trigger] out@[j])@ == items@[j]@,
                decreases items@.len() - i,
            {
                proof {
                    assert(decreases_to!(*v => (*v)->Array_0));
                    assert(decreases_to!(*items => items[i as int]));
                }
                let c = json_clone(&items[i]);
                out.push(c);
                i += 1;
            }
            proof {
                lemma_items_view(out@, out@.len() as int);
                lemma_items_view(items@, items@.len() as int);
                assert(items_view(out@, out@.len() as int) =~= items_view(items@, items@.len() as int));
            }
            Json::Array(out)
        },
        Json::Object(e) => {
            let mut out: Vec<(String, Json)> = Vec::new();
            let mut i: usize = 0;
            while i < e.len()
                invariant
                    *v == Json::Object(*e),
                    i <= e@.len(),
                    out@.len() == i,
                    forall|j: int| 0 <= j < i ==> (#[trigger] out@[j]).0@ == e@[j].0@ && out@[j].1@ == e@[j].1@,
                decreases e@.len() - i,
            {
                proof {
                    assert(decreases_to!(*v => (*v)->Object_0));
                    assert(decreases_to!(*e => e[i as int]));
                    assert(decreases_to!(e[i as int] => e[i as int].1));
                }
                let k = e[i].0.clone();
                let c = json_clone(&e[i].1);
                out.push((k, c));
                i += 1;
            }
            proof {
                lemma_entries_view(out@, out@.len() as int);
                lemma_entries_view(e@, e@.len() as int);
                assert(entries_view(out@, out@.len() as int) =~= entries_view(e@, e@.len() as int));
            }
            Json::Object(out)
        },
    }
}

// ---------------------------------------------------------------------------
// Field access
// ---------------------------------------------------------------------------

/// The first member named `k`.
pub open spec fn entries_get(e: Seq<(Seq<char>, JsonView)>, k: Seq<char>) -> Option<JsonView>
    decreases e.len(),
{
    if e.len() == 0 {
        None
    } else if e[0].0 == k {
        Some(e[0].1)
    } else {
        entries_get(e.drop_first(), k)
    }
}

/// `value.get(k)`: the member `k` of an object; nothing for any other value.
pub open spec fn jget(v: JsonView, k: Seq<char>) -> Option<JsonView> {
    match v {
        JsonView::Object(e) => entries_get(e, k),
        _ => None,
    }
}

/// `get` through an optional value.
pub open spec fn jget_opt(v: Option<JsonView>, k: Seq<char>) -> Option<JsonView> {
    match v {
        Some(x) => jget(x, k),
        None => None,
    }
}

/// `as_str` of an optional value.
pub open spec fn jstr(v: Option<JsonView>) -> Option<Seq<char>> {
    match v {
        Some(JsonView::Str(s)) => Some(s),
        _ => None,
    }
}

pub open spec fn is_object(v: JsonView) -> bool {
    v is Object
}

pub open spec fn is_array(v: JsonView) -> bool {
    v is Array
}

pub open spec fn opt_view(r: Option<&Json>) -> Option<JsonView> {
    match r {
        Some(x) => Some(x@),
        None => None,
    }
}

pub open spec fn opt_str_view(r: Option<&str>) -> Option<Seq<char>> {
    match r {
        Some(x) => Some(x@),
        None => None,
    }
}

pub proof fn lemma_entries_get_skip(e: Seq<(Seq<char>, JsonView)>, k: Seq<char>, i: int)
    requires
        0 <= i <= e.len(),
        forall|j: int| 0 <= j < i ==> e[j].0 != k,
    ensures
        entries_get(e, k) == entries_get(e.skip(i), k),
    decreases i,
{
    if i > 0 {
        let t = e.drop_first();
        assert forall|j: int| 0 <= j < i - 1 implies t[j].0 != k by {
            assert(t[j] == e[j + 1]);
        }
        lemma_entries_get_skip(t, k, i - 1);
        assert(t.skip(i - 1) =~= e.skip(i));
    } else {
        assert(e.skip(0) =~= e);
    }
}


/// The member found for `k` is the first one named `k`.
pub proof fn lemma_entries_get_first(e: Seq<(Seq<char>, JsonView)>, k: Seq<char>, i: int)
    requires
        0 <= i < e.len(),
        e[i].0 == k,
        forall|j: int| 0 <= j < i ==> e[j].0 != k,
    ensures
        entries_get(e, k) == Some(e[i].1),
{
    lemma_entries_get_skip(e, k, i);
    assert(e.skip(i)[0] == e[i]);
}

/// The value an `Object` view gives for `k` when `k` is its `i`-th member
/// and no earlier member is named `k`.
pub proof fn lemma_jget_member(m: Seq<(Seq<char>, JsonView)>, k: Seq<char>, i: int)
    requires
        0 <= i < m.len(),
        m[i].0 == k,
        forall|j: int| 0 <= j < i ==> m[j].0 != k,
    ensures
        jget(JsonView::Object(m), k) == Some(m[i].1),
{
    lemma_entries_get_first(m, k, i);
}

/// The member `key` of an object value.
pub fn get<'a>(v: &'a Json, key: &str) -> (r: Option<&'a Json>)
    ensures
        opt_view(r) == jget(v@, key@),
{
    match v {
        Json::Object(e) => {
            let ghost ev = entries_view(e@, e@.len() as int);
            proof {
                lemma_entries_view(e@, e@.len() as int);
            }
            let mut i: usize = 0;
            while i < e.len()
                invariant
                    *v == Json::Object(*e),
                    ev == entries_view(e@, e@.len() as int),
                    ev.len() == e@.len(),
                    forall|j: int| 0 <= j < ev.len() ==> #[trigger] ev[j] == (e@[j].0@, e@[j].1@),
                    i <= e@.len(),
                    forall|j: int| 0 <= j < i ==> ev[j].0 != key@,
                decreases e@.len() - i,
            {
                if str_eq(e[i].0.as_str(), key) {
                    proof {
                        lemma_entries_get_skip(ev, key@, i as int);
                        assert(ev.skip(i as int)[0] == ev[i as int]);
                        assert(ev[i as int].0 == key@);
                        assert(entries_get(ev.skip(i as int), key@) == Some(ev[i as int].1));
                        assert(v@ == JsonView::Object(ev));
                        assert(ev[i as int].1 == e@[i as int].1@);
                    }
                    return Some(&e[i].1);
                }
                i += 1;
            }
            proof {
                lemma_entries_get_skip(ev, key@, i as int);
                assert(ev.skip(i as int).len() == 0);
                assert(v@ == JsonView::Object(ev));
            }
            None
        },
        _ => None,
    }
}

/// `as_str` of an optional value.
pub fn as_str<'a>(v: Option<&'a Json>) -> (r: Option<&'a str>)
    ensures
        opt_str_view(r) == jstr(opt_view(v)),
{
    match v {
        Some(Json::Str(s)) => Some(s.as_str()),
        _ => None,
    }
}

/// `v.get(key).and_then(as_str)`.
pub fn get_str<'a>(v: &'a Json, key: &str) -> (r: Option<&'a str>)
    ensures
        opt_str_view(r) == jstr(jget(v@, key@)),
{
    as_str(get(v, key))
}

/// `v.get(key)` through an optional value.
pub fn get_opt<'a>(v: Option<&'a Json>, key: &str) -> (r: Option<&'a Json>)
    ensures
        opt_view(r) == jget_opt(opt_view(v), key@),
{
    match v {
        Some(x) => get(x, key),
        None => None,
    }
}

pub fn is_object_exec(v: &Json) -> (r: bool)
    ensures
        r == is_object(v@),
{
    match v {
        Json::Object(_) => true,
        _ => false,
    }
}

/// The members of an object under construction, as a view.
pub open spec fn members_view(e: Seq<(String, Json)>) -> Seq<(Seq<char>, JsonView)> {
    entries_view(e, e.len() as int)
}

/// Appends the member `k: v`.
pub fn push_member(e: &mut Vec<(String, Json)>, k: &str, v: Json)
    ensures
        members_view(final(e)@) == members_view(old(e)@).push((k@, v@)),
{
    let ghost before = e@;
    e.push((owned(k), v));
    proof {
        lemma_entries_view(before, before.len() as int);
        lemma_entries_view(e@, e@.len() as int);
        assert(members_view(e@) =~= members_view(before).push((k@, e@.last().1@)));
    }
}

/// The object holding `e`'s members.
pub fn object_of(e: Vec<(String, Json)>) -> (r: Json)
    ensures
        r@ == JsonView::Object(members_view(e@)),
{
    Json::Object(e)
}

/// A JSON array of strings.
pub fn string_array(v: &Vec<String>) -> (r: Json)
    ensures
        r@ == JsonView::Array(v@.map_values(|s: String| JsonView::Str(s@))),
{
    let mut out: Vec<Json> = Vec::new();
    let mut i: usize = 0;
    while i < v.len()
        invariant
            i <= v@.len(),
            out@.len() == i,
            forall|j: int| 0 <= j < i ==> (#[trigger] out@[j])@ == JsonView::Str(v@[j]@),
        decreases v@.len() - i,
    {
        out.push(Json::Str(v[i].clone()));
        i += 1;
    }
    proof {
        lemma_items_view(out@, out@.len() as int);
        assert(items_view(out@, out@.len() as int) =~= v@.map_values(|s: String| JsonView::Str(s@)));
    }
    Json::Array(out)
}

// ---------------------------------------------------------------------------
// Canonical rendering
// ---------------------------------------------------------------------------

/// A lower-case hexadecimal digit.
pub open spec fn hex_lower(d: u32) -> char {
    if d == 0 { '0' } else if d == 1 { '1' } else if d == 2 { '2' } else if d == 3 { '3' }
    else if d == 4 { '4' } else if d == 5 { '5' } else if d == 6 { '6' } else if d == 7 { '7' }
    else if d == 8 { '8' } else if d == 9 { '9' } else if d == 10 { 'a' } else if d == 11 { 'b' }
    else if d == 12 { 'c' } else if d == 13 { 'd' } else if d == 14 { 'e' } else { 'f' }
}

fn hex_lower_exec(d: u32) -> (c: char)
    ensures
        c == hex_lower(d),
{
    if d == 0 { '0' } else if d == 1 { '1' } else if d == 2 { '2' } else if d == 3 { '3' }
    else if d == 4 { '4' } else if d == 5 { '5' } else if d == 6 { '6' } else if d == 7 { '7' }
    else if d == 8 { '8' } else if d == 9 { '9' } else if d == 10 { 'a' } else if d == 11 { 'b' }
    else if d == 12 { 'c' } else if d == 13 { 'd' } else if d == 14 { 'e' } else { 'f' }
}

/// How serde_json writes one character inside a string: `"` and `\` and the
/// control characters below U+0020 escaped (`\b \t \n \f \r` by name, the
/// others as `\u00XX` in lower-case hex), every other character as itself.
pub open spec fn escape_char(c: char) -> Seq<char> {
    let u = c as u32;
    if c == '"' {
        seq!['\\', '"']
    } else if c == '\\' {
        seq!['\\', '\\']
    } else if u == 8 {
        seq!['\\', 'b']
    } else if u == 9 {
        seq!['\\', 't']
    } else if u == 10 {
        seq!['\\', 'n']
    } else if u == 12 {
        seq!['\\', 'f']
    } else if u == 13 {
        seq!['\\', 'r']
    } else if u < 32 {
        seq!['\\', 'u', '0', '0', hex_lower(u / 16), hex_lower(u % 16)]
    } else {
        seq![c]
    }
}

/// The characters of `s`, each written as `escape_char` writes it.
pub open spec fn escaped(s: Seq<char>) -> Seq<char>
    decreases s.len(),
{
    if s.len() == 0 {
        Seq::empty()
    } else {
        escaped(s.drop_last()) + escape_char(s.last())
    }
}

/// The JSON string literal for `s` as serde_json writes it: quoted, escaped.
pub open spec fn json_quoted(s: Seq<char>) -> Seq<char> {
    seq!['"'] + escaped(s) + seq!['"']
}

fn push_escaped(out: &mut String, c: char)
    ensures
        final(out)@ == old(out)@ + escape_char(c),
{
    let u = c as u32;
    if c == '"' {
        crate::text::push_char(out, '\\');
        crate::text::push_char(out, '"');
    } else if c == '\\' {
        crate::text::push_char(out, '\\');
        crate::text::push_char(out, '\\');
    } else if u == 8 {
        crate::text::push_char(out, '\\');
        crate::text::push_char(out, 'b');
    } else if u == 9 {
        crate::text::push_char(out, '\\');
        crate::text::push_char(out, 't');
    } else if u == 10 {
        crate::text::push_char(out, '\\');
        crate::text::push_char(out, 'n');
    } else if u == 12 {
        crate::text::push_char(out, '\\');
        crate::text::push_char(out, 'f');
    } else if u == 13 {
        crate::text::push_char(out, '\\');
        crate::text::push_char(out, 'r');
    } else if u < 32 {
        crate::text::push_char(out, '\\');
        crate::text::push_char(out, 'u');
        crate::text::push_char(out, '0');
        crate::text::push_char(out, '0');
        crate::text::push_char(out, hex_lower_exec(u / 16));
        crate::text::push_char(out, hex_lower_exec(u % 16));
    } else {
        crate::text::push_char(out, c);
    }
    proof {
        assert(final(out)@ =~= old(out)@ + escape_char(c)) by {
            if u < 32 && !(c == '"' || c == '\\' || u == 8 || u == 9 || u == 10 || u == 12 || u == 13) {
                assert(escape_char(c) =~= seq!['\\', 'u', '0', '0', hex_lower(u / 16), hex_lower(u % 16)]);
            }
        }
    }
}

/// The JSON string literal for `s`, as serde_json writes it.
fn json_string_literal(s: &str) -> (r: String)
    ensures
        r@ == json_quoted(s@),
{
    let mut out = String::new();
    crate::text::push_char(&mut out, '"');
    let n = s.unicode_len();
    let mut i: usize = 0;
    while i < n
        invariant
            n == s@.len(),
            i <= n,
            out@ == seq!['"'] + escaped(s@.take(i as int)),
        decreases n - i,
    {
        let c = s.get_char(i);
        push_escaped(&mut out, c);
        proof {
            assert(s@.take(i + 1).drop_last() =~= s@.take(i as int));
            assert(s@.take(i + 1).last() == c);
            assert(out@ =~= seq!['"'] + escaped(s@.take(i + 1)));
        }
        i += 1;
    }
    crate::text::push_char(&mut out, '"');
    proof {
        assert(s@.take(n as int) =~= s@);
    }
    out
}

pub open spec fn key_le(e: Seq<(Seq<char>, JsonView)>, a: usize, b: usize) -> bool {
    seq_le(e[a as int].0, e[b as int].0)
}

/// Stable insertion of member index `x` into an order sorted by key.
pub open spec fn insert_by_key(e: Seq<(Seq<char>, JsonView)>, s: Seq<usize>, x: usize) -> Seq<usize>
    decreases s.len(),
{
    if s.len() == 0 {
        seq![x]
    } else if key_le(e, s.last(), x) {
        s.push(x)
    } else {
        insert_by_key(e, s.drop_last(), x).push(s.last())
    }
}

pub open spec fn sort_order_upto(e: Seq<(Seq<char>, JsonView)>, n: nat) -> Seq<usize>
    decreases n,
{
    if n == 0 {
        Seq::empty()
    } else {
        insert_by_key(e, sort_order_upto(e, (n - 1) as nat), (n - 1) as usize)
    }
}

/// Member indices of `e` in ascending key order (ties keep document order).
pub open spec fn sort_order(e: Seq<(Seq<char>, JsonView)>) -> Seq<usize> {
    sort_order_upto(e, e.len())
}

/// The compact JSON text of `v` with object members in ascending key order;
/// with `drop_sig`, members named `signature` are left out at every depth.
pub open spec fn render(v: JsonView, drop_sig: bool) -> Seq<char>
    decreases v, 0int,
{
    match v {
        JsonView::Null => "null"@,
        JsonView::Bool(b) => if b {
            "true"@
        } else {
            "false"@
        },
        JsonView::Number(n) => n,
        JsonView::Str(s) => json_quoted(s),
        JsonView::Array(items) => "["@ + render_items(items, drop_sig, 0) + "]"@,
        JsonView::Object(e) => "{"@ + render_entries(e, sort_order(e), drop_sig, 0, true) + "}"@,
    }
}

pub open spec fn render_items(s: Seq<JsonView>, drop_sig: bool, i: int) -> Seq<char>
    decreases s, s.len() - i,
{
    if i < 0 || i >= s.len() {
        Seq::empty()
    } else {
        (if i > 0 {
            ","@
        } else {
            Seq::empty()
        }) + render(s[i], drop_sig) + render_items(s, drop_sig, i + 1)
    }
}

pub open spec fn render_entries(
    e: Seq<(Seq<char>, JsonView)>,
    order: Seq<usize>,
    drop_sig: bool,
    k: int,
    first: bool,
) -> Seq<char>
    decreases e, order.len() - k,
{
    if k < 0 || k >= order.len() {
        Seq::empty()
    } else if order[k] as int >= e.len() || (drop_sig && e[order[k] as int].0 == "signature"@) {
        render_entries(e, order, drop_sig, k + 1, first)
    } else {
        (if first {
            Seq::empty()
        } else {
            ","@
        }) + json_quoted(e[order[k] as int].0) + ":"@ + render(e[order[k] as int].1, drop_sig)
            + render_entries(e, order, drop_sig, k + 1, false)
    }
}

proof fn lemma_insert_at(e: Seq<(Seq<char>, JsonView)>, s: Seq<usize>, x: usize, p: int)
    requires
        0 <= p <= s.len(),
        forall|j: int| p <= j < s.len() ==> !key_le(e, #[trigger] s[j], x),
        p == 0 || key_le(e, s[p - 1], x),
    ensures
        insert_by_key(e, s, x) == s.take(p) + seq![x] + s.skip(p),
    decreases s.len(),
{
    if s.len() == 0 {
        assert(s.take(p) + seq![x] + s.skip(p) =~= seq![x]);
    } else if key_le(e, s.last(), x) {
        assert(p == s.len());
        assert(s.take(p) + seq![x] + s.skip(p) =~= s.push(x));
    } else {
        let t = s.drop_last();
        assert(p < s.len());
        lemma_insert_at(e, t, x, p);
        assert(t.take(p) + seq![x] + t.skip(p) + seq![s.last()] =~= s.take(p) + seq![x] + s.skip(p));
    }
}

fn key_le_exec(e: &Vec<(String, Json)>, a: usize, b: usize) -> (r: bool)
    requires
        a < e@.len(),
        b < e@.len(),
    ensures
        r == seq_le(e@[a as int].0@, e@[b as int].0@),
{
    str_eq(e[a].0.as_str(), e[b].0.as_str()) || str_lt(e[a].0.as_str(), e[b].0.as_str())
}

/// Member indices of an object in ascending key order.
pub fn sort_order_exec(e: &Vec<(String, Json)>) -> (r: Vec<usize>)
    ensures
        r@ == sort_order(entries_view(e@, e@.len() as int)),
        r@.len() == e@.len(),
        forall|t: int| 0 <= t < r@.len() ==> (#[trigger] r@[t]) < e@.len(),
{
    let ghost ev = entries_view(e@, e@.len() as int);
    proof {
        lemma_entries_view(e@, e@.len() as int);
    }
    let mut s: Vec<usize> = Vec::new();
    let mut n: usize = 0;
    while n < e.len()
        invariant
            ev == entries_view(e@, e@.len() as int),
            ev.len() == e@.len(),
            forall|j: int| 0 <= j < ev.len() ==> #[trigger] ev[j] == (e@[j].0@, e@[j].1@),
            n <= e@.len(),
            s@ == sort_order_upto(ev, n as nat),
            s@.len() == n,
            forall|t: int| 0 <= t < s@.len() ==> (#[trigger] s@[t]) < n,
        decreases e@.len() - n,
    {
        let mut p: usize = s.len();
        while p > 0 && !key_le_exec(e, s[p - 1], n)
            invariant
                ev.len() == e@.len(),
                forall|j: int| 0 <= j < ev.len() ==> #[trigger] ev[j] == (e@[j].0@, e@[j].1@),
                n < e@.len(),
                s@.len() == n,
                forall|t: int| 0 <= t < s@.len() ==> (#[trigger] s@[t]) < n,
                p <= s@.len(),
                forall|j: int| p <= j < s@.len() ==> !key_le(ev, #[trigger] s@[j], n),
            decreases p,
        {
            p -= 1;
        }
        proof {
            lemma_insert_at(ev, s@, n, p as int);
        }
        let ghost old_s = s@;
        s.insert(p, n);
        proof {
            assert(s@ =~= old_s.take(p as int) + seq![n] + old_s.skip(p as int));
            assert forall|t: int| 0 <= t < s@.len() implies (#[trigger] s@[t]) < n + 1 by {
                if t < p {
                    assert(s@[t] == old_s[t]);
                } else if t > p {
                    assert(s@[t] == old_s[t - 1]);
                }
            }
        }
        n += 1;
    }
    s
}

/// The canonical text of `v`: compact, object members in ascending key
/// order, members named `signature` dropped at every depth when `drop_sig`.
pub fn render_exec(v: &Json, drop_sig: bool) -> (r: String)
    ensures
        r@ == render(v@, drop_sig),
    decreases v,
{
    match v {
        Json::Null => owned("null"),
        Json::Bool(b) => if *b {
            owned("true")
        } else {
            owned("false")
        },
        Json::Number(n) => n.clone(),
        Json::Str(s) => json_string_literal(s.as_str()),
        Json::Array(items) => {
            let ghost iv = items_view(items@, items@.len() as int);
            proof {
                lemma_items_view(items@, items@.len() as int);
            }
            let mut out = String::new();
            let mut i: usize = 0;
            while i < items.len()
                invariant
                    *v == Json::Array(*items),
                    iv == items_view(items@, items@.len() as int),
                    iv.len() == items@.len(),
                    forall|j: int| 0 <= j < iv.len() ==> #[trigger] iv[j] == items@[j]@,
                    i <= items@.len(),
                    out@ + render_items(iv, drop_sig, i as int) == render_items(iv, drop_sig, 0),
                decreases items@.len() - i,
            {
                proof {
                    assert(decreases_to!(*v => (*v)->Array_0));
                    assert(decreases_to!(*items => items[i as int]));
                }
                let ghost before = out@;
                if i > 0 {
                    out.append(",");
                }
                let part = render_exec(&items[i], drop_sig);
                out.append(part.as_str());
                proof {
                    assert(before + render_items(iv, drop_sig, i as int) == out@ + render_items(iv, drop_sig, i + 1));
                }
                i += 1;
            }
            let mut r = owned("[");
            r.append(out.as_str());
            r.append("]");
            r
        },
        Json::Object(e) => {
            let ghost ev = entries_view(e@, e@.len() as int);
            proof {
                lemma_entries_view(e@, e@.len() as int);
            }
            let order = sort_order_exec(e);
            let mut out = String::new();
            let mut first = true;
            let mut k: usize = 0;
            while k < order.len()
                invariant
                    *v == Json::Object(*e),
                    ev == entries_view(e@, e@.len() as int),
                    ev.len() == e@.len(),
                    forall|j: int| 0 <= j < ev.len() ==> #[trigger] ev[j] == (e@[j].0@, e@[j].1@),
                    order@ == sort_order(ev),
                    forall|t: int| 0 <= t < order@.len() ==> (#[trigger] order@[t]) < e@.len(),
                    k <= order@.len(),
                    out@ + render_entries(ev, order@, drop_sig, k as int, first) == render_entries(ev, order@, drop_sig, 0, true),
                decreases order@.len() - k,
            {
                let idx = order[k];
                let ghost before = out@;
                let ghost before_first = first;
                if drop_sig && str_eq(e[idx].0.as_str(), "signature") {
                    proof {
                        assert(ev[idx as int].0 == e@[idx as int].0@);
                    }
                } else {
                    proof {
                        assert(decreases_to!(*v => (*v)->Object_0));
                        assert(decreases_to!(*e => e[idx as int]));
                        assert(decreases_to!(e[idx as int] => e[idx as int].1));
                    }
                    if !first {
                        out.append(",");
                    }
                    let q = json_string_literal(e[idx].0.as_str());
                    out.append(q.as_str());
                    out.append(":");
                    let part = render_exec(&e[idx].1, drop_sig);
                    out.append(part.as_str());
                    first = false;
                    proof {
                        assert(before + render_entries(ev, order@, drop_sig, k as int, before_first) == out@ + render_entries(ev, order@, drop_sig, k + 1, false));
                    }
                }
                k += 1;
            }
            let mut r = owned("{");
            r.append(out.as_str());
            r.append("}");
            r
        },
    }
}


// ---------------------------------------------------------------------------
// Key order does not matter
// ---------------------------------------------------------------------------

/// No two members of `e` share a key.
pub open spec fn distinct_keys(e: Seq<(Seq<char>, JsonView)>) -> bool {
    forall|i: int, j: int| 0 <= i < j < e.len() ==> (#[trigger] e[i]).0 != (#[trigger] e[j]).0
}

/// A sequence of member indices of `e`, each below `n`, none repeated, in
/// ascending key order.
pub open spec fn sorted_indices(e: Seq<(Seq<char>, JsonView)>, s: Seq<usize>, n: int) -> bool {
    &&& forall|k: int| 0 <= k < s.len() ==> (#[trigger] s[k]) < n
    &&& forall|k1: int, k2: int| 0 <= k1 < k2 < s.len() ==> #[trigger] s[k1] != #[trigger] s[k2]
    &&& forall|k1: int, k2: int| 0 <= k1 < k2 < s.len() ==> seq_le(e[(#[trigger] s[k1]) as int].0, e[(#[trigger] s[k2]) as int].0)
}

proof fn lemma_seq_le_transitive(a: Seq<char>, b: Seq<char>, c: Seq<char>)
    requires
        seq_le(a, b),
        seq_le(b, c),
    ensures
        seq_le(a, c),
{
    if seq_lt(a, b) && seq_lt(b, c) {
        crate::order::lemma_seq_lt_transitive(a, b, c);
    }
}

#[verifier::spinoff_prover]
proof fn lemma_insert_sorted(e: Seq<(Seq<char>, JsonView)>, s: Seq<usize>, x: usize, n: int)
    requires
        sorted_indices(e, s, n),
        x < n,
        n <= e.len(),
        !s.contains(x),
    ensures
        sorted_indices(e, insert_by_key(e, s, x), n),
        insert_by_key(e, s, x).len() == s.len() + 1,
        forall|v: usize| insert_by_key(e, s, x).contains(v) <==> (s.contains(v) || v == x),
    decreases s.len(),
{
    let r = insert_by_key(e, s, x);
    if s.len() == 0 {
        assert(r =~= seq![x]);
        assert forall|v: usize| r.contains(v) <==> (s.contains(v) || v == x) by {
            if r.contains(v) {
                let k = choose|k: int| 0 <= k < r.len() && r[k] == v;
                assert(k == 0);
            }
            if v == x {
                assert(r[0] == x);
            }
        }
    } else if key_le(e, s.last(), x) {
        assert(r == s.push(x));
        assert forall|k1: int, k2: int| 0 <= k1 < k2 < r.len() implies seq_le(e[(#[trigger] r[k1]) as int].0, e[(#[trigger] r[k2]) as int].0) by {
            if k2 == s.len() && k1 < s.len() - 1 {
                assert(seq_le(e[s[k1] as int].0, e[s[s.len() - 1] as int].0));
                lemma_seq_le_transitive(e[s[k1] as int].0, e[s.last() as int].0, e[x as int].0);
            }
        }
        assert forall|k1: int, k2: int| 0 <= k1 < k2 < r.len() implies #[trigger] r[k1] != #[trigger] r[k2] by {
            if k2 == s.len() {
                assert(s.contains(s[k1]));
            }
        }
        assert forall|v: usize| r.contains(v) <==> (s.contains(v) || v == x) by {
            if r.contains(v) {
                let k = choose|k: int| 0 <= k < r.len() && r[k] == v;
                if k < s.len() {
                    assert(s[k] == v);
                }
            }
            if s.contains(v) {
                let k = choose|k: int| 0 <= k < s.len() && s[k] == v;
                assert(r[k] == v);
            }
            if v == x {
                assert(r[s.len() as int] == x);
            }
        }
    } else {
        let t = s.drop_last();
        let l = s.last();
        assert forall|k1: int, k2: int| 0 <= k1 < k2 < t.len() implies #[trigger] t[k1] != #[trigger] t[k2] by {
            assert(t[k1] == s[k1] && t[k2] == s[k2]);
        }
        assert forall|k1: int, k2: int| 0 <= k1 < k2 < t.len() implies seq_le(e[(#[trigger] t[k1]) as int].0, e[(#[trigger] t[k2]) as int].0) by {
            assert(t[k1] == s[k1] && t[k2] == s[k2]);
        }
        assert(!t.contains(x)) by {
            if t.contains(x) {
                let k = choose|k: int| 0 <= k < t.len() && t[k] == x;
                assert(s[k] == x);
            }
        }
        lemma_insert_sorted(e, t, x, n);
        let r1 = insert_by_key(e, t, x);
        assert(r == r1.push(l));
        crate::order::lemma_seq_lt_total(e[l as int].0, e[x as int].0);
        assert(seq_lt(e[x as int].0, e[l as int].0));
        assert forall|k: int| 0 <= k < r1.len() implies seq_le(e[(#[trigger] r1[k]) as int].0, e[l as int].0) by {
            let v = r1[k];
            assert(r1.contains(v));
            if v != x {
                assert(t.contains(v));
                let j = choose|j: int| 0 <= j < t.len() && t[j] == v;
                assert(s[j] == v);
                assert(seq_le(e[s[j] as int].0, e[s[s.len() - 1] as int].0));
            }
        }
        assert forall|k: int| 0 <= k < r1.len() implies (#[trigger] r1[k]) != l by {
            let v = r1[k];
            assert(r1.contains(v));
            if v == x {
                assert(s.contains(l));
            } else {
                assert(t.contains(v));
                let j = choose|j: int| 0 <= j < t.len() && t[j] == v;
                assert(s[j] == v);
                assert(s[j] != s[s.len() - 1]);
            }
        }
        assert forall|k1: int, k2: int| 0 <= k1 < k2 < r.len() implies seq_le(e[(#[trigger] r[k1]) as int].0, e[(#[trigger] r[k2]) as int].0) by {
            if k2 == r1.len() {
                assert(r[k1] == r1[k1]);
            } else {
                assert(r[k1] == r1[k1] && r[k2] == r1[k2]);
            }
        }
        assert forall|k1: int, k2: int| 0 <= k1 < k2 < r.len() implies #[trigger] r[k1] != #[trigger] r[k2] by {
            if k2 == r1.len() {
                assert(r[k1] == r1[k1]);
            } else {
                assert(r[k1] == r1[k1] && r[k2] == r1[k2]);
            }
        }
        assert forall|k: int| 0 <= k < r.len() implies (#[trigger] r[k]) < n by {
            if k < r1.len() {
                assert(r[k] == r1[k]);
            }
        }
        assert forall|v: usize| r.contains(v) <==> (s.contains(v) || v == x) by {
            if r.contains(v) {
                let k = choose|k: int| 0 <= k < r.len() && r[k] == v;
                if k < r1.len() {
                    assert(r1[k] == v);
                    assert(r1.contains(v));
                    if t.contains(v) {
                        let j = choose|j: int| 0 <= j < t.len() && t[j] == v;
                        assert(s[j] == v);
                    }
                } else {
                    assert(s[s.len() - 1] == v);
                }
            }
            if s.contains(v) {
                let k = choose|k: int| 0 <= k < s.len() && s[k] == v;
                if k < t.len() {
                    assert(t[k] == v);
                    assert(t.contains(v));
                    assert(r1.contains(v));
                    let j = choose|j: int| 0 <= j < r1.len() && r1[j] == v;
                    assert(r[j] == v);
                } else {
                    assert(r[r1.len() as int] == v);
                }
            }
            if v == x {
                assert(r1.contains(x));
                let j = choose|j: int| 0 <= j < r1.len() && r1[j] == x;
                assert(r[j] == x);
            }
        }
    }
}

proof fn lemma_sort_order_upto(e: Seq<(Seq<char>, JsonView)>, n: nat)
    requires
        n <= e.len(),
        e.len() <= usize::MAX,
    ensures
        sorted_indices(e, sort_order_upto(e, n), n as int),
        sort_order_upto(e, n).len() == n,
        forall|v: usize| sort_order_upto(e, n).contains(v) <==> v < n,
    decreases n,
{
    if n == 0 {
        assert(sort_order_upto(e, n) =~= Seq::<usize>::empty());
        assert forall|v: usize| !sort_order_upto(e, n).contains(v) by {}
    } else {
        let m = (n - 1) as nat;
        lemma_sort_order_upto(e, m);
        let s = sort_order_upto(e, m);
        assert forall|k: int| 0 <= k < s.len() implies (#[trigger] s[k]) < n by {}
        assert(!s.contains(m as usize));
        lemma_insert_sorted(e, s, m as usize, n as int);
        assert forall|v: usize| sort_order_upto(e, n).contains(v) <==> v < n by {
            assert(s.contains(v) <==> v < m);
        }
    }
}


#[verifier::spinoff_prover]
proof fn lemma_strictly_sorted_unique(a: Seq<Seq<char>>, b: Seq<Seq<char>>)
    requires
        forall|i: int, j: int| 0 <= i < j < a.len() ==> seq_lt(#[trigger] a[i], #[trigger] a[j]),
        forall|i: int, j: int| 0 <= i < j < b.len() ==> seq_lt(#[trigger] b[i], #[trigger] b[j]),
        forall|k: Seq<char>| a.contains(k) <==> b.contains(k),
    ensures
        a == b,
    decreases a.len(),
{
    if a.len() == 0 {
        if b.len() > 0 {
            assert(b.contains(b[0]));
        }
        assert(a =~= b);
    } else {
        assert(a.contains(a[0]));
        assert(b.len() > 0);
        assert(b.contains(b[0]));
        let i = choose|i: int| 0 <= i < a.len() && a[i] == b[0];
        let j = choose|j: int| 0 <= j < b.len() && b[j] == a[0];
        if i > 0 && j > 0 {
            assert(seq_lt(a[0], a[i]));
            assert(seq_lt(b[0], b[j]));
            crate::order::lemma_seq_lt_asymmetric(a[0], b[0]);
        }
        assert(a[0] == b[0]) by {
            if i > 0 && j == 0 {
            } else if i == 0 {
            }
        }
        let a1 = a.drop_first();
        let b1 = b.drop_first();
        assert forall|i1: int, j1: int| 0 <= i1 < j1 < a1.len() implies seq_lt(#[trigger] a1[i1], #[trigger] a1[j1]) by {
            assert(a1[i1] == a[i1 + 1] && a1[j1] == a[j1 + 1]);
        }
        assert forall|i1: int, j1: int| 0 <= i1 < j1 < b1.len() implies seq_lt(#[trigger] b1[i1], #[trigger] b1[j1]) by {
            assert(b1[i1] == b[i1 + 1] && b1[j1] == b[j1 + 1]);
        }
        assert forall|k: Seq<char>| a1.contains(k) <==> b1.contains(k) by {
            if a1.contains(k) {
                let p = choose|p: int| 0 <= p < a1.len() && a1[p] == k;
                assert(a[p + 1] == k);
                assert(seq_lt(a[0], a[p + 1]));
                crate::order::lemma_seq_lt_irreflexive(k);
                assert(a.contains(k));
                assert(b.contains(k));
                let q = choose|q: int| 0 <= q < b.len() && b[q] == k;
                assert(q != 0);
                assert(b1[q - 1] == k);
            }
            if b1.contains(k) {
                let p = choose|p: int| 0 <= p < b1.len() && b1[p] == k;
                assert(b[p + 1] == k);
                assert(seq_lt(b[0], b[p + 1]));
                crate::order::lemma_seq_lt_irreflexive(k);
                assert(b.contains(k));
                assert(a.contains(k));
                let q = choose|q: int| 0 <= q < a.len() && a[q] == k;
                assert(q != 0);
                assert(a1[q - 1] == k);
            }
        }
        lemma_strictly_sorted_unique(a1, b1);
        assert(a =~= seq![a[0]] + a1);
        assert(b =~= seq![b[0]] + b1);
    }
}

/// The keys of `e` in the order `sort_order` gives.
pub open spec fn sorted_keys(e: Seq<(Seq<char>, JsonView)>) -> Seq<Seq<char>> {
    sort_order(e).map_values(|i: usize| e[i as int].0)
}

#[verifier::spinoff_prover]
proof fn lemma_sorted_keys(e: Seq<(Seq<char>, JsonView)>)
    requires
        distinct_keys(e),
        e.len() <= usize::MAX,
    ensures
        sorted_keys(e).len() == e.len(),
        forall|i: int, j: int| 0 <= i < j < e.len() ==> seq_lt(#[trigger] sorted_keys(e)[i], #[trigger] sorted_keys(e)[j]),
        forall|k: Seq<char>| sorted_keys(e).contains(k) <==> exists|i: int| 0 <= i < e.len() && (#[trigger] e[i]).0 == k,
        forall|k: int| 0 <= k < e.len() ==> (#[trigger] sort_order(e)[k]) < e.len(),
{
    lemma_sort_order_upto(e, e.len());
    let o = sort_order(e);
    let ks = sorted_keys(e);
    assert forall|i: int, j: int| 0 <= i < j < e.len() implies seq_lt(#[trigger] ks[i], #[trigger] ks[j]) by {
        assert(seq_le(e[o[i] as int].0, e[o[j] as int].0));
        assert(o[i] != o[j]);
        if o[i] < o[j] {
            assert(e[o[i] as int].0 != e[o[j] as int].0);
        } else {
            assert(e[o[j] as int].0 != e[o[i] as int].0);
        }
    }
    assert forall|k: Seq<char>| ks.contains(k) <==> exists|i: int| 0 <= i < e.len() && (#[trigger] e[i]).0 == k by {
        if ks.contains(k) {
            let p = choose|p: int| 0 <= p < ks.len() && ks[p] == k;
            assert(e[o[p] as int].0 == k);
        }
        if exists|i: int| 0 <= i < e.len() && (#[trigger] e[i]).0 == k {
            let i = choose|i: int| 0 <= i < e.len() && (#[trigger] e[i]).0 == k;
            assert(o.contains(i as usize));
            let p = choose|p: int| 0 <= p < o.len() && o[p] == i as usize;
            assert(ks[p] == k);
        }
    }
}


/// `a` and `b` are one JSON value written with object members in any order:
/// arrays item by item; objects (no key twice, no larger than memory holds)
/// with the same keys, each key's values alike; anything else equal.
pub open spec fn same_json(a: JsonView, b: JsonView) -> bool
    decreases a,
{
    match a {
        JsonView::Array(x) => match b {
            JsonView::Array(y) => x.len() == y.len() && forall|i: int| 0 <= i < x.len() ==> same_json(#[trigger] x[i], y[i]),
            _ => false,
        },
        JsonView::Object(x) => match b {
            JsonView::Object(y) => {
                &&& x.len() == y.len()
                &&& x.len() <= usize::MAX
                &&& distinct_keys(x)
                &&& distinct_keys(y)
                &&& forall|i: int| 0 <= i < x.len() ==> exists|j: int| 0 <= j < y.len() && (#[trigger] y[j]).0 == (#[trigger] x[i]).0 && same_json(x[i].1, y[j].1)
                &&& forall|j: int| 0 <= j < y.len() ==> exists|i: int| 0 <= i < x.len() && (#[trigger] x[i]).0 == (#[trigger] y[j]).0
            },
            _ => false,
        },
        _ => a == b,
    }
}

#[verifier::spinoff_prover]
proof fn lemma_object_keys_align(x: Seq<(Seq<char>, JsonView)>, y: Seq<(Seq<char>, JsonView)>)
    requires
        same_json(JsonView::Object(x), JsonView::Object(y)),
    ensures
        sorted_keys(x) == sorted_keys(y),
        sorted_keys(x).len() == x.len(),
        forall|p: int| 0 <= p < x.len() ==> (#[trigger] sort_order(x)[p]) < x.len(),
        forall|p: int| 0 <= p < y.len() ==> (#[trigger] sort_order(y)[p]) < y.len(),
{
    lemma_sorted_keys(x);
    lemma_sorted_keys(y);
    assert forall|k: Seq<char>| sorted_keys(x).contains(k) <==> sorted_keys(y).contains(k) by {
        if sorted_keys(x).contains(k) {
            let i = choose|i: int| 0 <= i < x.len() && (#[trigger] x[i]).0 == k;
            let j = choose|j: int| 0 <= j < y.len() && (#[trigger] y[j]).0 == (#[trigger] x[i]).0 && same_json(x[i].1, y[j].1);
            assert(y[j].0 == k);
        }
        if sorted_keys(y).contains(k) {
            let j = choose|j: int| 0 <= j < y.len() && (#[trigger] y[j]).0 == k;
            let i = choose|i: int| 0 <= i < x.len() && (#[trigger] x[i]).0 == (#[trigger] y[j]).0;
            assert(x[i].0 == k);
        }
    }
    lemma_strictly_sorted_unique(sorted_keys(x), sorted_keys(y));
}

proof fn lemma_render_same(a: JsonView, b: JsonView, drop_sig: bool)
    requires
        same_json(a, b),
    ensures
        render(a, drop_sig) == render(b, drop_sig),
    decreases a, 0int,
{
    match a {
        JsonView::Array(x) => {
            lemma_items_same(x, b->Array_0, drop_sig, 0);
        },
        JsonView::Object(x) => {
            lemma_object_keys_align(x, b->Object_0);
            lemma_entries_same(x, b->Object_0, drop_sig, 0, true);
        },
        _ => {},
    }
}

proof fn lemma_items_same(x: Seq<JsonView>, y: Seq<JsonView>, drop_sig: bool, i: int)
    requires
        x.len() == y.len(),
        forall|k: int| 0 <= k < x.len() ==> same_json(#[trigger] x[k], y[k]),
    ensures
        render_items(x, drop_sig, i) == render_items(y, drop_sig, i),
    decreases x, x.len() - i,
{
    if 0 <= i < x.len() {
        lemma_render_same(x[i], y[i], drop_sig);
        lemma_items_same(x, y, drop_sig, i + 1);
    }
}

#[verifier::spinoff_prover]
proof fn lemma_entries_same(x: Seq<(Seq<char>, JsonView)>, y: Seq<(Seq<char>, JsonView)>, drop_sig: bool, k: int, first: bool)
    requires
        same_json(JsonView::Object(x), JsonView::Object(y)),
        sorted_keys(x) == sorted_keys(y),
        sorted_keys(x).len() == x.len(),
        forall|p: int| 0 <= p < x.len() ==> (#[trigger] sort_order(x)[p]) < x.len(),
        forall|p: int| 0 <= p < y.len() ==> (#[trigger] sort_order(y)[p]) < y.len(),
    ensures
        render_entries(x, sort_order(x), drop_sig, k, first) == render_entries(y, sort_order(y), drop_sig, k, first),
    decreases x, sort_order(x).len() - k,
{
    let ox = sort_order(x);
    let oy = sort_order(y);
    if 0 <= k < ox.len() {
        let i = ox[k] as int;
        let j0 = oy[k] as int;
        assert(sorted_keys(x)[k] == x[i].0);
        assert(sorted_keys(y)[k] == y[j0].0);
        assert(x[i].0 == y[j0].0);
        let j = choose|j: int| 0 <= j < y.len() && (#[trigger] y[j]).0 == (#[trigger] x[i]).0 && same_json(x[i].1, y[j].1);
        if j != j0 {
            if j < j0 {
                assert(y[j].0 != y[j0].0);
            } else {
                assert(y[j0].0 != y[j].0);
            }
        }
        assert(decreases_to!(x => x[i]));
        assert(decreases_to!(x[i] => x[i].1));
        assert(decreases_to!(x => x[i].1));
        lemma_render_same(x[i].1, y[j0].1, drop_sig);
        lemma_entries_same(x, y, drop_sig, k + 1, first);
        lemma_entries_same(x, y, drop_sig, k + 1, false);
    }
}

/// Rendering ignores the order of object members: one JSON value written
/// with its members in any order renders to the same text.
pub proof fn law_render_ignores_member_order(a: JsonView, b: JsonView, drop_sig: bool)
    requires
        same_json(a, b),
    ensures
        render(a, drop_sig) == render(b, drop_sig),
{
    lemma_render_same(a, b, drop_sig);
}

} // verus!
