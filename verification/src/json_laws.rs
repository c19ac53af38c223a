//! What reading JSON back promises of what this library writes: a value
//! rendered compactly, or indented, parses back to the same value.
use vstd::prelude::*;
use crate::json::{
    digits_end, escape, escape_char, escaped_char, hex_digit, hex_digits, hex_value, short_escape, string_body,
    string_spec, is_digit, json_ws, number_end, parse_spec, render_fields, render_items,
    render_spec, skip_ws, value_spec, Json, JsonV, array_spec, elements_spec, object_spec, members_spec,
    expect_spec, pretty_spec, pretty_items, pretty_fields, indent, separator,
};
use crate::text::{decimal, digit_char, signed_decimal};

verus! {

/// Every number in `v` is an `i64`.
pub open spec fn numbers_fit(v: JsonV) -> bool
    decreases v,
{
    match v {
        JsonV::Number(n) => i64::MIN <= n <= i64::MAX,
        JsonV::Array(items) => forall|i: int| 0 <= i < items.len() ==> numbers_fit(#[trigger] items[i]),
        JsonV::Object(fields) => forall|i: int| 0 <= i < fields.len() ==> numbers_fit(#[trigger] fields[i].1),
        _ => true,
    }
}

/// The converter reads back every number of `v` from its decimal text.
pub open spec fn reads_numbers(v: JsonV, nums: spec_fn(Seq<char>) -> Option<i64>) -> bool
    decreases v,
{
    match v {
        JsonV::Number(n) => nums(signed_decimal(n)) == Some(n as i64),
        JsonV::Array(items) => forall|i: int| 0 <= i < items.len() ==> reads_numbers(#[trigger] items[i], nums),
        JsonV::Object(fields) => forall|i: int| 0 <= i < fields.len() ==> reads_numbers(#[trigger] fields[i].1, nums),
        _ => true,
    }
}

/// Every number of `v` is an `i64` that the converter reads back from its
/// decimal text.
pub open spec fn numbers_read(v: JsonV, nums: spec_fn(Seq<char>) -> Option<i64>) -> bool
    decreases v,
{
    match v {
        JsonV::Number(n) => i64::MIN <= n <= i64::MAX && nums(signed_decimal(n)) == Some(n as i64),
        JsonV::Array(items) => forall|i: int| 0 <= i < items.len() ==> numbers_read(#[trigger] items[i], nums),
        JsonV::Object(fields) => forall|i: int| 0 <= i < fields.len() ==> numbers_read(#[trigger] fields[i].1, nums),
        _ => true,
    }
}

proof fn lemma_numbers_read(v: JsonV, nums: spec_fn(Seq<char>) -> Option<i64>)
    requires
        numbers_fit(v),
        reads_numbers(v, nums),
    ensures
        numbers_read(v, nums),
    decreases v,
{
    match v {
        JsonV::Array(items) => {
            assert forall|i: int| 0 <= i < items.len() implies numbers_read(#[trigger] items[i], nums) by {
                lemma_numbers_read(items[i], nums);
            }
        },
        JsonV::Object(fields) => {
            assert forall|i: int| 0 <= i < fields.len() implies numbers_read(#[trigger] fields[i].1, nums) by {
                lemma_numbers_read(fields[i].1, nums);
            }
        },
        _ => {},
    }
}

/// What may follow a rendered value inside a document: nothing, the `,`,
/// `]` or `}` that the enclosing array or object writes, or the white space
/// of an indented rendering.
pub open spec fn ends_value(s: Seq<char>, e: int) -> bool {
    e == s.len() || (0 <= e < s.len() && (s[e] == ',' || s[e] == ']' || s[e] == '}' || json_ws(s[e])))
}

/// `s` holds `t` at position `p`.
pub open spec fn holds_at(s: Seq<char>, p: int, t: Seq<char>) -> bool {
    0 <= p && p + t.len() <= s.len() && s.subrange(p, p + t.len()) == t
}

proof fn lemma_holds_char(s: Seq<char>, p: int, t: Seq<char>, k: int)
    requires
        holds_at(s, p, t),
        0 <= k < t.len(),
    ensures
        s[p + k] == t[k],
{
    assert(s.subrange(p, p + t.len())[k] == s[p + k]);
}

proof fn lemma_holds_split(s: Seq<char>, p: int, a: Seq<char>, b: Seq<char>)
    requires
        holds_at(s, p, a + b),
    ensures
        holds_at(s, p, a),
        holds_at(s, p + a.len(), b),
{
    assert(s.subrange(p, p + a.len()) =~= (a + b).subrange(0, a.len() as int)) by {
        assert(s.subrange(p, p + a.len()) =~= s.subrange(p, p + (a + b).len()).subrange(0, a.len() as int));
    }
    assert((a + b).subrange(0, a.len() as int) =~= a);
    assert(s.subrange(p + a.len(), p + a.len() + b.len()) =~= s.subrange(p, p + (a + b).len()).subrange(
        a.len() as int,
        (a + b).len() as int,
    ));
    assert((a + b).subrange(a.len() as int, (a + b).len() as int) =~= b);
}

proof fn lemma_decimal_digits(n: nat)
    ensures
        decimal(n).len() >= 1,
        forall|i: int| 0 <= i < decimal(n).len() ==> is_digit(#[trigger] decimal(n)[i]),
    decreases n,
{
    if n >= 10 {
        lemma_decimal_digits(n / 10);
        assert forall|i: int| 0 <= i < decimal(n).len() implies is_digit(#[trigger] decimal(n)[i]) by {
            if i < decimal(n / 10).len() {
                assert(decimal(n)[i] == decimal(n / 10)[i]);
            } else {
                assert(decimal(n)[i] == digit_char(n % 10));
            }
        }
    }
}

proof fn lemma_digits_end(s: Seq<char>, a: int, k: int)
    requires
        0 <= a,
        0 <= k,
        a + k <= s.len(),
        forall|j: int| a <= j < a + k ==> is_digit(#[trigger] s[j]),
        a + k == s.len() || !is_digit(s[a + k]),
    ensures
        digits_end(s, a) == a + k,
    decreases k,
{
    if k > 0 {
        lemma_digits_end(s, a + 1, k - 1);
    }
}

proof fn lemma_number_roundtrip(s: Seq<char>, p: int, n: int, nums: spec_fn(Seq<char>) -> Option<i64>)
    requires
        i64::MIN <= n <= i64::MAX,
        nums(signed_decimal(n)) == Some(n as i64),
        holds_at(s, p, signed_decimal(n)),
        ends_value(s, p + signed_decimal(n).len()),
    ensures
        value_spec(s, p, nums) == Ok::<(JsonV, int), Seq<char>>((JsonV::Number(n), p + signed_decimal(n).len())),
{
    let t = signed_decimal(n);
    let e = p + t.len();
    let m: nat = if n < 0 { (-n) as nat } else { n as nat };
    lemma_decimal_digits(m);
    let a = if n < 0 { p + 1 } else { p };
    assert(t == if n < 0 { seq!['-'] + decimal(m) } else { decimal(m) });
    assert forall|j: int| a <= j < e implies is_digit(#[trigger] s[j]) by {
        lemma_holds_char(s, p, t, j - p);
        if n < 0 {
            assert(t[j - p] == decimal(m)[j - p - 1]);
        }
    }
    lemma_holds_char(s, p, t, 0);
    if n < 0 {
        assert(t[0] == '-');
    } else {
        assert(is_digit(t[0]));
    }
    assert(skip_ws(s, p) == p);
    lemma_digits_end(s, a, e - a);
    assert(number_end(s, p) == e);
    assert(s.subrange(p, e) == t);
    let k = n as i64;
    assert(nums(signed_decimal(k as int)) == Some(k));
}


proof fn lemma_escape_concat(a: Seq<char>, b: Seq<char>)
    ensures
        escape(a + b) == escape(a) + escape(b),
    decreases b.len(),
{
    if b.len() == 0 {
        assert(a + b =~= a);
        assert(escape(a) + escape(b) =~= escape(a));
    } else {
        assert((a + b).drop_last() =~= a + b.drop_last());
        assert((a + b).last() == b.last());
        lemma_escape_concat(a, b.drop_last());
        assert(escape(a) + escape(b) =~= escape(a) + escape(b.drop_last()) + escape_char(b.last()));
    }
}

proof fn lemma_escape_front(t: Seq<char>)
    requires
        t.len() > 0,
    ensures
        escape(t) == escape_char(t[0]) + escape(t.drop_first()),
{
    assert(t =~= seq![t[0]] + t.drop_first());
    lemma_escape_concat(seq![t[0]], t.drop_first());
    assert(seq![t[0]].drop_last() =~= Seq::<char>::empty());
    assert(seq![t[0]].last() == t[0]);
    assert(escape(Seq::<char>::empty()) =~= Seq::<char>::empty());
    assert(escape(seq![t[0]]) == escape(Seq::<char>::empty()) + escape_char(t[0]));
    assert(escape(seq![t[0]]) =~= escape_char(t[0]));
}

proof fn lemma_hex_digit(d: nat)
    requires
        d < 16,
    ensures
        hex_value(hex_digit(d)) == Some(d),
{
}

/// One escaped character: reading it at `i` moves past it with the
/// character appended.
proof fn lemma_body_step(s: Seq<char>, i: int, acc: Seq<char>, c: char)
    requires
        holds_at(s, i, escape_char(c)),
    ensures
        string_body(s, i, acc) == string_body(s, i + escape_char(c).len(), acc.push(c)),
{
    let e = escape_char(c);
    lemma_holds_char(s, i, e, 0);
    if c == '"' || c == '\\' || c == '\n' || c == '\r' || c == '\t' {
        lemma_holds_char(s, i, e, 1);
    } else if (c as u32) < 0x20 {
        lemma_holds_char(s, i, e, 1);
        lemma_holds_char(s, i, e, 2);
        lemma_holds_char(s, i, e, 3);
        lemma_holds_char(s, i, e, 4);
        lemma_holds_char(s, i, e, 5);
        let h1 = (c as u32 / 16) as nat;
        let h2 = (c as u32 % 16) as nat;
        lemma_hex_digit(0);
        lemma_hex_digit(h1);
        lemma_hex_digit(h2);
        assert(hex_value('0') == Some(0nat));
        reveal_with_fuel(hex_digits, 5);
        assert(hex_digits(s, i + 2, 4, 0) == Ok::<nat, Seq<char>>(((0 * 16 + 0) * 16 + h1) * 16 + h2));
        assert(((0 * 16 + 0) * 16 + h1) * 16 + h2 == c as u32);
        assert(escaped_char(c as u32 as nat) == c);
    } else {
        assert(s[i] == c);
    }
}

/// A string's escaped text followed by a quote reads back as the string.
proof fn lemma_body_roundtrip(s: Seq<char>, i: int, acc: Seq<char>, t: Seq<char>)
    requires
        holds_at(s, i, escape(t) + seq!['"']),
    ensures
        string_body(s, i, acc) == Ok::<(Seq<char>, int), Seq<char>>((acc + t, i + escape(t).len() + 1)),
    decreases t.len(),
{
    if t.len() == 0 {
        assert(escape(t) =~= Seq::<char>::empty());
        lemma_holds_char(s, i, escape(t) + seq!['"'], 0);
        assert(acc + t =~= acc);
    } else {
        lemma_escape_front(t);
        let c = t[0];
        let rest = t.drop_first();
        assert(escape(t) + seq!['"'] =~= escape_char(c) + (escape(rest) + seq!['"']));
        lemma_holds_split(s, i, escape_char(c), escape(rest) + seq!['"']);
        lemma_body_step(s, i, acc, c);
        lemma_body_roundtrip(s, i + escape_char(c).len(), acc.push(c), rest);
        assert(acc.push(c) + rest =~= acc + t);
    }
}

/// A rendered string reads back as itself.
proof fn lemma_string_roundtrip(s: Seq<char>, p: int, t: Seq<char>)
    requires
        holds_at(s, p, seq!['"'] + escape(t) + seq!['"']),
    ensures
        string_spec(s, p) == Ok::<(Seq<char>, int), Seq<char>>((t, p + escape(t).len() + 2)),
{
    lemma_holds_char(s, p, seq!['"'] + escape(t) + seq!['"'], 0);
    assert(skip_ws(s, p) == p);
    assert(seq!['"'] + escape(t) + seq!['"'] =~= seq!['"'] + (escape(t) + seq!['"']));
    lemma_holds_split(s, p, seq!['"'], escape(t) + seq!['"']);
    lemma_body_roundtrip(s, p + 1, Seq::empty(), t);
    assert(Seq::<char>::empty() + t =~= t);
}


/// A rendering never starts with white space or a closing bracket.
proof fn lemma_render_first(v: JsonV)
    ensures
        render_spec(v).len() > 0,
        !json_ws(render_spec(v)[0]),
        render_spec(v)[0] != ']',
        render_spec(v)[0] != '}',
        render_spec(v)[0] != ',',
{
    reveal_strlit("null");
    reveal_strlit("true");
    reveal_strlit("false");
    match v {
        JsonV::Number(n) => {
            let m: nat = if n < 0 { (-n) as nat } else { n as nat };
            lemma_decimal_digits(m);
            if n >= 0 {
                assert(is_digit(decimal(m)[0]));
            }
        },
        _ => {},
    }
}

/// The rendering of the first `j` items is a prefix of that of all.
proof fn lemma_items_prefix(items: Seq<JsonV>, j: int)
    requires
        0 <= j <= items.len(),
    ensures
        render_items(items.take(j)).len() <= render_items(items).len(),
        render_items(items).subrange(0, render_items(items.take(j)).len() as int) == render_items(items.take(j)),
    decreases items.len() - j,
{
    if j == items.len() {
        assert(items.take(j) =~= items);
    } else {
        lemma_items_prefix(items, j + 1);
        assert(items.take(j + 1).drop_last() =~= items.take(j));
        let a = render_items(items.take(j));
        let b = render_items(items.take(j + 1));
        assert(b.subrange(0, a.len() as int) =~= a);
        assert(render_items(items).subrange(0, a.len() as int) =~= render_items(items).subrange(0, b.len() as int).subrange(0, a.len() as int));
    }
}

/// The rendering of the first `j` members is a prefix of that of all.
proof fn lemma_fields_prefix(fields: Seq<(Seq<char>, JsonV)>, j: int)
    requires
        0 <= j <= fields.len(),
    ensures
        render_fields(fields.take(j)).len() <= render_fields(fields).len(),
        render_fields(fields).subrange(0, render_fields(fields.take(j)).len() as int) == render_fields(fields.take(j)),
    decreases fields.len() - j,
{
    if j == fields.len() {
        assert(fields.take(j) =~= fields);
    } else {
        lemma_fields_prefix(fields, j + 1);
        assert(fields.take(j + 1).drop_last() =~= fields.take(j));
        let a = render_fields(fields.take(j));
        let b = render_fields(fields.take(j + 1));
        assert(b.subrange(0, a.len() as int) =~= a);
        assert(render_fields(fields).subrange(0, a.len() as int) =~= render_fields(fields).subrange(0, b.len() as int).subrange(0, a.len() as int));
    }
}

proof fn lemma_holds_prefix(s: Seq<char>, p: int, t: Seq<char>, n: int)
    requires
        holds_at(s, p, t),
        0 <= n <= t.len(),
    ensures
        holds_at(s, p, t.subrange(0, n)),
{
    assert(s.subrange(p, p + n) =~= s.subrange(p, p + t.len()).subrange(0, n));
}

/// Where item `k` starts in the rendering of the items.
pub open spec fn item_start(items: Seq<JsonV>, k: int) -> int {
    render_items(items.take(k)).len() + if k > 0 { 1int } else { 0int }
}

/// Where member `k` starts in the rendering of the members.
pub open spec fn member_start(fields: Seq<(Seq<char>, JsonV)>, k: int) -> int {
    render_fields(fields.take(k)).len() + if k > 0 { 1int } else { 0int }
}

proof fn lemma_value_roundtrip(s: Seq<char>, p: int, v: JsonV, nums: spec_fn(Seq<char>) -> Option<i64>)
    requires
        numbers_read(v, nums),
        holds_at(s, p, render_spec(v)),
        ends_value(s, p + render_spec(v).len()),
    ensures
        value_spec(s, p, nums) == Ok::<(JsonV, int), Seq<char>>((v, p + render_spec(v).len())),
    decreases v, 0int,
{
    lemma_render_first(v);
    lemma_holds_char(s, p, render_spec(v), 0);
    assert(skip_ws(s, p) == p);
    reveal_strlit("null");
    reveal_strlit("true");
    reveal_strlit("false");
    match v {
        JsonV::Null => {
            assert(render_spec(v) == "null"@);
            assert("null"@.len() == 4);
            assert(s.subrange(p, p + 4) == "null"@);
            assert(s.skip(p).subrange(0, 4) =~= s.subrange(p, p + 4));
            assert(crate::text::starts_with(s.skip(p), "null"@));
        },
        JsonV::Bool(b) => {
            if b {
                assert(s.skip(p).subrange(0, 4) =~= s.subrange(p, p + 4));
            } else {
                assert(s.skip(p).subrange(0, 5) =~= s.subrange(p, p + 5));
            }
            assert(value_spec(s, p, nums) == Ok::<(JsonV, int), Seq<char>>((v, p + render_spec(v).len())));
        },
        JsonV::Number(n) => {
            lemma_number_roundtrip(s, p, n, nums);
            assert(value_spec(s, p, nums) == Ok::<(JsonV, int), Seq<char>>((v, p + render_spec(v).len())));
        },
        JsonV::Str(t) => {
            lemma_string_roundtrip(s, p, t);
            assert(value_spec(s, p, nums) == Ok::<(JsonV, int), Seq<char>>((v, p + render_spec(v).len())));
        },
        JsonV::Array(items) => {
            lemma_array_roundtrip(s, p, items, nums);
        },
        JsonV::Object(fields) => {
            lemma_object_roundtrip(s, p, fields, nums);
        },
    }
}

proof fn lemma_array_roundtrip(s: Seq<char>, p: int, items: Seq<JsonV>, nums: spec_fn(Seq<char>) -> Option<i64>)
    requires
        forall|i: int| 0 <= i < items.len() ==> numbers_read(#[trigger] items[i], nums),
        holds_at(s, p, render_spec(JsonV::Array(items))),
        ends_value(s, p + render_spec(JsonV::Array(items)).len()),
    ensures
        value_spec(s, p, nums) == Ok::<(JsonV, int), Seq<char>>((JsonV::Array(items), p + render_spec(JsonV::Array(items)).len())),
    decreases items, items.len() + 1,
{
    lemma_holds_char(s, p, render_spec(JsonV::Array(items)), 0);
    assert(skip_ws(s, p) == p);
    let v = JsonV::Array(items);
    let r = render_spec(v);
    assert(expect_spec(s, p, '[') == Ok::<int, Seq<char>>(p + 1));
    if items.len() == 0 {
        assert(render_items(items) =~= Seq::<char>::empty());
        lemma_holds_char(s, p, r, 1);
        assert(s[p + 1] == ']');
        assert(skip_ws(s, p + 1) == p + 1);
        assert(items =~= Seq::<JsonV>::empty());
        assert(array_spec(s, p, nums) == Ok::<(JsonV, int), Seq<char>>((JsonV::Array(Seq::empty()), p + 2)));
    } else {
        assert(r =~= seq!['['] + (render_items(items) + seq![']']));
        lemma_holds_split(s, p, seq!['['], render_items(items) + seq![']']);
        assert(items.take(0) =~= Seq::<JsonV>::empty());
        assert(render_items(items.take(0)) =~= Seq::<char>::empty());
        lemma_items_roundtrip(s, p + 1, items, 0, nums);
        lemma_items_prefix(items, 1);
        assert(items.take(1).drop_last() =~= Seq::<JsonV>::empty());
        assert(items.take(1).last() == items[0]);
        lemma_render_first(items[0]);
        assert(render_items(items.take(1)) =~= render_spec(items[0]));
        let ri = render_items(items);
        assert(ri[0] == ri.subrange(0, render_items(items.take(1)).len() as int)[0]);
        assert(ri[0] == render_spec(items[0])[0]);
        lemma_holds_char(s, p + 1, ri + seq![']'], 0);
        assert((ri + seq![']'])[0] == ri[0]);
        assert(s[p + 1] == render_spec(items[0])[0]);
        assert(skip_ws(s, p + 1) == p + 1);
        assert(item_start(items, 0) == 0);
        assert(array_spec(s, p, nums) == elements_spec(s, p + 1, Seq::empty(), nums));
    }
    assert(value_spec(s, p, nums) == array_spec(s, p, nums));
}

proof fn lemma_object_roundtrip(s: Seq<char>, p: int, fields: Seq<(Seq<char>, JsonV)>, nums: spec_fn(Seq<char>) -> Option<i64>)
    requires
        forall|i: int| 0 <= i < fields.len() ==> numbers_read(#[trigger] fields[i].1, nums),
        holds_at(s, p, render_spec(JsonV::Object(fields))),
        ends_value(s, p + render_spec(JsonV::Object(fields)).len()),
    ensures
        value_spec(s, p, nums) == Ok::<(JsonV, int), Seq<char>>((JsonV::Object(fields), p + render_spec(JsonV::Object(fields)).len())),
    decreases fields, fields.len() + 1,
{
    lemma_holds_char(s, p, render_spec(JsonV::Object(fields)), 0);
    assert(skip_ws(s, p) == p);
    let v = JsonV::Object(fields);
    let r = render_spec(v);
    assert(expect_spec(s, p, '{') == Ok::<int, Seq<char>>(p + 1));
    if fields.len() == 0 {
        assert(render_fields(fields) =~= Seq::<char>::empty());
        lemma_holds_char(s, p, r, 1);
        assert(s[p + 1] == '}');
        assert(skip_ws(s, p + 1) == p + 1);
        assert(fields =~= Seq::<(Seq<char>, JsonV)>::empty());
        assert(object_spec(s, p, nums) == Ok::<(JsonV, int), Seq<char>>((JsonV::Object(Seq::empty()), p + 2)));
    } else {
        assert(r =~= seq!['{'] + (render_fields(fields) + seq!['}']));
        lemma_holds_split(s, p, seq!['{'], render_fields(fields) + seq!['}']);
        assert(fields.take(0) =~= Seq::<(Seq<char>, JsonV)>::empty());
        assert(render_fields(fields.take(0)) =~= Seq::<char>::empty());
        lemma_fields_roundtrip(s, p + 1, fields, 0, nums);
        lemma_fields_prefix(fields, 1);
        assert(fields.take(1).drop_last() =~= Seq::<(Seq<char>, JsonV)>::empty());
        let rf = render_fields(fields);
        assert(render_fields(fields.take(1))[0] == '"');
        assert(rf[0] == rf.subrange(0, render_fields(fields.take(1)).len() as int)[0]);
        lemma_holds_char(s, p + 1, rf + seq!['}'], 0);
        assert((rf + seq!['}'])[0] == rf[0]);
        assert(s[p + 1] == '"');
        assert(skip_ws(s, p + 1) == p + 1);
        assert(member_start(fields, 0) == 0);
        assert(object_spec(s, p, nums) == members_spec(s, p + 1, Seq::empty(), nums));
    }
    assert(value_spec(s, p, nums) == object_spec(s, p, nums));
}

proof fn lemma_items_roundtrip(s: Seq<char>, base: int, items: Seq<JsonV>, k: int, nums: spec_fn(Seq<char>) -> Option<i64>)
    requires
        0 <= k < items.len(),
        forall|i: int| 0 <= i < items.len() ==> numbers_read(#[trigger] items[i], nums),
        holds_at(s, base, render_items(items) + seq![']']),
    ensures
        elements_spec(s, base + item_start(items, k), items.take(k), nums)
            == Ok::<(JsonV, int), Seq<char>>((JsonV::Array(items), base + render_items(items).len() + 1)),
    decreases items, items.len() - k,
{
    let n = items.len();
    let all = render_items(items);
    let pre = render_items(items.take(k));
    let upto = render_items(items.take(k + 1));
    let rk = render_spec(items[k]);
    let i = base + item_start(items, k);
    assert(items.take(k + 1).drop_last() =~= items.take(k));
    assert(items.take(k + 1).last() == items[k]);
    let sep: Seq<char> = if k > 0 { seq![','] } else { Seq::empty() };
    assert(upto == pre + sep + rk);
    lemma_items_prefix(items, k + 1);
    lemma_holds_split(s, base, all, seq![']']);
    lemma_holds_prefix(s, base, all, upto.len() as int);
    assert(pre + sep + rk =~= (pre + sep) + rk);
    lemma_holds_split(s, base, pre + sep, rk);
    let e = i + rk.len();
    assert(e == base + upto.len());
    // What follows item k: the next comma, or the closing bracket.
    if k + 1 < n {
        lemma_items_prefix(items, k + 2);
        assert(items.take(k + 2).drop_last() =~= items.take(k + 1));
        let upto2 = render_items(items.take(k + 2));
        assert(upto2 == upto + seq![','] + render_spec(items[k + 1])) by {
            assert(items.take(k + 2).last() == items[k + 1]);
        }
        lemma_holds_prefix(s, base, all, upto2.len() as int);
        lemma_holds_char(s, base, upto2, upto.len() as int);
        assert(s[e] == ',');
    } else {
        assert(items.take(k + 1) =~= items);
        lemma_holds_char(s, base + all.len(), seq![']'], 0);
        assert(s[e] == ']');
    }
    lemma_value_roundtrip(s, i, items[k], nums);
    assert(skip_ws(s, e) == e);
    assert(items.take(k).push(items[k]) =~= items.take(k + 1));
    if k + 1 < n {
        lemma_items_roundtrip(s, base, items, k + 1, nums);
        assert(item_start(items, k + 1) == upto.len() + 1);
    } else {
        assert(items.take(k + 1) =~= items);
    }
}

proof fn lemma_fields_roundtrip(
    s: Seq<char>,
    base: int,
    fields: Seq<(Seq<char>, JsonV)>,
    k: int,
    nums: spec_fn(Seq<char>) -> Option<i64>,
)
    requires
        0 <= k < fields.len(),
        forall|i: int| 0 <= i < fields.len() ==> numbers_read(#[trigger] fields[i].1, nums),
        holds_at(s, base, render_fields(fields) + seq!['}']),
    ensures
        members_spec(s, base + member_start(fields, k), fields.take(k), nums)
            == Ok::<(JsonV, int), Seq<char>>((JsonV::Object(fields), base + render_fields(fields).len() + 1)),
    decreases fields, fields.len() - k,
{
    let n = fields.len();
    let all = render_fields(fields);
    let pre = render_fields(fields.take(k));
    let upto = render_fields(fields.take(k + 1));
    let key = fields[k].0;
    let val = fields[k].1;
    let quoted = seq!['"'] + escape(key) + seq!['"'];
    let rk = render_spec(val);
    let i = base + member_start(fields, k);
    assert(fields.take(k + 1).drop_last() =~= fields.take(k));
    assert(fields.take(k + 1).last() == fields[k]);
    let sep: Seq<char> = if k > 0 { seq![','] } else { Seq::empty() };
    assert(upto =~= (pre + sep) + (quoted + (seq![':'] + rk)));
    lemma_fields_prefix(fields, k + 1);
    lemma_holds_split(s, base, all, seq!['}']);
    lemma_holds_prefix(s, base, all, upto.len() as int);
    lemma_holds_split(s, base, pre + sep, quoted + (seq![':'] + rk));
    lemma_holds_split(s, i, quoted, seq![':'] + rk);
    lemma_holds_split(s, i + quoted.len(), seq![':'], rk);
    lemma_string_roundtrip(s, i, key);
    let p1 = i + escape(key).len() + 2;
    lemma_holds_char(s, p1, seq![':'], 0);
    assert(skip_ws(s, p1) == p1);
    assert(expect_spec(s, p1, ':') == Ok::<int, Seq<char>>(p1 + 1));
    let p2 = p1 + 1;
    let e = p2 + rk.len();
    assert(e == base + upto.len());
    if k + 1 < n {
        lemma_fields_prefix(fields, k + 2);
        assert(fields.take(k + 2).drop_last() =~= fields.take(k + 1));
        let upto2 = render_fields(fields.take(k + 2));
        assert(upto2 == upto + seq![','] + seq!['"'] + escape(fields[k + 1].0) + seq!['"', ':'] + render_spec(fields[k + 1].1)) by {
            assert(fields.take(k + 2).last() == fields[k + 1]);
        }
        lemma_holds_prefix(s, base, all, upto2.len() as int);
        lemma_holds_char(s, base, upto2, upto.len() as int);
        assert(s[e] == ',');
    } else {
        assert(fields.take(k + 1) =~= fields);
        lemma_holds_char(s, base + all.len(), seq!['}'], 0);
        assert(s[e] == '}');
    }
    lemma_value_roundtrip(s, p2, val, nums);
    assert(skip_ws(s, e) == e);
    assert(fields.take(k).push((key, val)) =~= fields.take(k + 1));
    if k + 1 < n {
        lemma_fields_roundtrip(s, base, fields, k + 1, nums);
        assert(member_start(fields, k + 1) == upto.len() + 1);
    } else {
        assert(fields.take(k + 1) =~= fields);
    }
}


proof fn lemma_jv_fits(j: Json)
    ensures
        numbers_fit(j.jv()),
    decreases j,
{
    match j {
        Json::Array(items) => {
            crate::json::lemma_jv_items(items@);
            assert forall|i: int| 0 <= i < items@.len() implies numbers_fit(#[trigger] Json::jv_items(items@)[i]) by {
                lemma_jv_fits(items@[i]);
            }
        },
        Json::Object(fields) => {
            crate::json::lemma_jv_fields(fields@);
            assert forall|i: int| 0 <= i < fields@.len() implies numbers_fit(#[trigger] Json::jv_fields(fields@)[i].1) by {
                lemma_jv_fits(fields@[i].1);
            }
        },
        _ => {},
    }
}

/// What this library writes it reads back: the compact rendering of any
/// JSON value parses to that same value, given a number converter that
/// reads back each number of the value from its decimal text (as
/// `str::parse::<i64>` does for every number, and a conversion through
/// `f64` does for those of at most 2^53 in size).
pub proof fn law_render_then_parse(j: Json, nums: spec_fn(Seq<char>) -> Option<i64>)
    requires
        reads_numbers(j.jv(), nums),
    ensures
        parse_spec(render_spec(j.jv()), nums) == Ok::<JsonV, Seq<char>>(j.jv()),
{
    let v = j.jv();
    let s = render_spec(v);
    lemma_jv_fits(j);
    lemma_numbers_read(v, nums);
    assert(s.subrange(0, s.len() as int) =~= s);
    lemma_value_roundtrip(s, 0, v, nums);
}

/// Rendering is stable under a round trip: what a rendering parses back
/// to renders to the same text.
pub proof fn law_parse_then_render_is_stable(j: Json, nums: spec_fn(Seq<char>) -> Option<i64>)
    requires
        reads_numbers(j.jv(), nums),
    ensures
        parse_spec(render_spec(j.jv()), nums) matches Ok(w) && render_spec(w) == render_spec(j.jv()),
{
    law_render_then_parse(j, nums);
}


proof fn lemma_skip_run(s: Seq<char>, a: int, b: int)
    requires
        0 <= a <= b <= s.len(),
        forall|j: int| a <= j < b ==> json_ws(#[trigger] s[j]),
        b == s.len() || !json_ws(s[b]),
    ensures
        skip_ws(s, a) == b,
    decreases b - a,
{
    if a < b {
        lemma_skip_run(s, a + 1, b);
    }
}

proof fn lemma_indent(level: nat)
    ensures
        indent(level).len() == 2 * level,
        forall|i: int| 0 <= i < indent(level).len() ==> #[trigger] indent(level)[i] == ' ',
    decreases level,
{
    if level > 0 {
        lemma_indent((level - 1) as nat);
        let a = indent((level - 1) as nat);
        assert forall|i: int| 0 <= i < indent(level).len() implies #[trigger] indent(level)[i] == ' ' by {
            if i < a.len() {
                assert(indent(level)[i] == a[i]);
            }
        }
    }
}

proof fn lemma_value_skip(s: Seq<char>, p: int, nums: spec_fn(Seq<char>) -> Option<i64>)
    requires
        0 <= p <= s.len(),
    ensures
        value_spec(s, p, nums) == value_spec(s, skip_ws(s, p), nums),
{
    crate::json::lemma_skip_ws_bounds(s, p);
    crate::json::lemma_skip_ws_idempotent(s, p);
}

proof fn lemma_string_skip(s: Seq<char>, p: int)
    requires
        0 <= p <= s.len(),
    ensures
        string_spec(s, p) == string_spec(s, skip_ws(s, p)),
{
    crate::json::lemma_skip_ws_bounds(s, p);
    crate::json::lemma_skip_ws_idempotent(s, p);
}

/// An indented rendering never starts with white space or a closing
/// bracket.
proof fn lemma_pretty_first(v: JsonV, level: nat)
    ensures
        pretty_spec(v, level).len() > 0,
        !json_ws(pretty_spec(v, level)[0]),
        pretty_spec(v, level)[0] != ']',
        pretty_spec(v, level)[0] != '}',
        pretty_spec(v, level)[0] != ',',
{
    lemma_render_first(v);
}

/// The first `k` lines of the items are a prefix of the first `n`.
proof fn lemma_pretty_items_prefix(items: Seq<JsonV>, k: nat, n: nat, level: nat)
    requires
        k <= n <= items.len(),
    ensures
        pretty_items(items, k, level).len() <= pretty_items(items, n, level).len(),
        pretty_items(items, n, level).subrange(0, pretty_items(items, k, level).len() as int) == pretty_items(items, k, level),
    decreases n - k,
{
    if k < n {
        lemma_pretty_items_prefix(items, k, (n - 1) as nat, level);
        let a = pretty_items(items, k, level);
        let b = pretty_items(items, (n - 1) as nat, level);
        let c = pretty_items(items, n, level);
        assert(c.subrange(0, b.len() as int) =~= b);
        assert(c.subrange(0, a.len() as int) =~= c.subrange(0, b.len() as int).subrange(0, a.len() as int));
    }
}

/// The first `k` lines of the members are a prefix of the first `n`.
proof fn lemma_pretty_fields_prefix(fields: Seq<(Seq<char>, JsonV)>, k: nat, n: nat, level: nat)
    requires
        k <= n <= fields.len(),
    ensures
        pretty_fields(fields, k, level).len() <= pretty_fields(fields, n, level).len(),
        pretty_fields(fields, n, level).subrange(0, pretty_fields(fields, k, level).len() as int) == pretty_fields(fields, k, level),
    decreases n - k,
{
    if k < n {
        lemma_pretty_fields_prefix(fields, k, (n - 1) as nat, level);
        let a = pretty_fields(fields, k, level);
        let b = pretty_fields(fields, (n - 1) as nat, level);
        let c = pretty_fields(fields, n, level);
        assert(c.subrange(0, b.len() as int) =~= b);
        assert(c.subrange(0, a.len() as int) =~= c.subrange(0, b.len() as int).subrange(0, a.len() as int));
    }
}

proof fn lemma_holds_spaces(s: Seq<char>, a: int, level: nat)
    requires
        holds_at(s, a, indent(level)),
    ensures
        forall|j: int| a <= j < a + 2 * level ==> #[trigger] s[j] == ' ',
{
    lemma_indent(level);
    assert forall|j: int| a <= j < a + 2 * level implies #[trigger] s[j] == ' ' by {
        lemma_holds_char(s, a, indent(level), j - a);
    }
}

/// What the text holds around line `k` of an indented array: the line's
/// indentation, its item, and after it a comma and a line break, or (on
/// the last line) a line break, the closing indentation and `]`.
#[verifier::spinoff_prover]
#[verifier::rlimit(50)]
proof fn lemma_item_layout(s: Seq<char>, base: int, items: Seq<JsonV>, k: int, level: nat)
    requires
        0 <= k < items.len(),
        holds_at(s, base, pretty_items(items, items.len() as nat, level + 1) + (indent(level) + seq![']'])),
    ensures
        ({
            let pk = pretty_items(items, k as nat, level + 1);
            let start = base + pk.len() + 2 * (level + 1);
            let v = pretty_spec(items[k], level + 1);
            let e = start + v.len();
            &&& pretty_items(items, (k + 1) as nat, level + 1).len() == pk.len() + 2 * (level + 1) + v.len()
                + (if k + 1 < items.len() { 1int } else { 0int }) + 1
            &&& forall|j: int| base + pk.len() <= j < start ==> #[trigger] s[j] == ' '
            &&& holds_at(s, start, v)
            &&& k + 1 < items.len() ==> s[e] == ',' && s[e + 1] == '\n'
            &&& k + 1 == items.len() ==> s[e] == '\n' && (forall|j: int| e + 1 <= j < e + 1 + 2 * level ==> #[trigger] s[j] == ' ')
                && s[e + 1 + 2 * level] == ']' && e + 2 + 2 * level <= s.len()
        }),
{
    let n = items.len();
    let l1 = level + 1;
    let all = pretty_items(items, n as nat, l1);
    let tail = indent(level) + seq![']'];
    let pk = pretty_items(items, k as nat, l1);
    let pk1 = pretty_items(items, (k + 1) as nat, l1);
    let v = pretty_spec(items[k], l1);
    let sep = separator(k, n as int);
    lemma_indent(l1);
    lemma_indent(level);
    assert(pk1 == pk + indent(l1) + v + sep + seq!['\n']);
    lemma_pretty_items_prefix(items, (k + 1) as nat, n as nat, l1);
    lemma_holds_split(s, base, all, tail);
    lemma_holds_prefix(s, base, all, pk1.len() as int);
    assert(all.subrange(0, pk1.len() as int) == pk1);
    assert(pk1 =~= (pk + indent(l1)) + (v + (sep + seq!['\n'])));
    lemma_holds_split(s, base, pk + indent(l1), v + (sep + seq!['\n']));
    lemma_holds_split(s, base, pk, indent(l1));
    lemma_holds_spaces(s, base + pk.len(), l1);
    let start = base + pk.len() + 2 * l1;
    lemma_holds_split(s, start, v, sep + seq!['\n']);
    let e = start + v.len();
    if k + 1 < n {
        assert(sep == seq![',']);
        lemma_holds_char(s, e, sep + seq!['\n'], 0);
        lemma_holds_char(s, e, sep + seq!['\n'], 1);
    } else {
        assert(sep =~= Seq::<char>::empty());
        lemma_holds_char(s, e, sep + seq!['\n'], 0);
        assert(pk1 == all);
        lemma_holds_split(s, base + all.len(), indent(level), seq![']']);
        lemma_holds_spaces(s, base + all.len(), level);
        lemma_holds_char(s, base + all.len() + indent(level).len(), seq![']'], 0);
    }
}

/// What the text holds around line `k` of an indented object.
#[verifier::spinoff_prover]
#[verifier::rlimit(50)]
proof fn lemma_member_layout(s: Seq<char>, base: int, fields: Seq<(Seq<char>, JsonV)>, k: int, level: nat)
    requires
        0 <= k < fields.len(),
        holds_at(s, base, pretty_fields(fields, fields.len() as nat, level + 1) + (indent(level) + seq!['}'])),
    ensures
        ({
            let pk = pretty_fields(fields, k as nat, level + 1);
            let start = base + pk.len() + 2 * (level + 1);
            let q = seq!['"'] + escape(fields[k].0) + seq!['"'];
            let v = pretty_spec(fields[k].1, level + 1);
            let vs = start + q.len() + 2;
            let e = vs + v.len();
            &&& pretty_fields(fields, (k + 1) as nat, level + 1).len() == pk.len() + 2 * (level + 1) + q.len() + 2 + v.len()
                + (if k + 1 < fields.len() { 1int } else { 0int }) + 1
            &&& forall|j: int| base + pk.len() <= j < start ==> #[trigger] s[j] == ' '
            &&& holds_at(s, start, q)
            &&& s[start + q.len()] == ':'
            &&& s[start + q.len() + 1] == ' '
            &&& holds_at(s, vs, v)
            &&& k + 1 < fields.len() ==> s[e] == ',' && s[e + 1] == '\n'
            &&& k + 1 == fields.len() ==> s[e] == '\n' && (forall|j: int| e + 1 <= j < e + 1 + 2 * level ==> #[trigger] s[j] == ' ')
                && s[e + 1 + 2 * level] == '}' && e + 2 + 2 * level <= s.len()
        }),
{
    let n = fields.len();
    let l1 = level + 1;
    let all = pretty_fields(fields, n as nat, l1);
    let tail = indent(level) + seq!['}'];
    let pk = pretty_fields(fields, k as nat, l1);
    let pk1 = pretty_fields(fields, (k + 1) as nat, l1);
    let q = seq!['"'] + escape(fields[k].0) + seq!['"'];
    let v = pretty_spec(fields[k].1, l1);
    let sep = separator(k, n as int);
    lemma_indent(l1);
    lemma_indent(level);
    assert(pk1 =~= (pk + indent(l1)) + (q + (seq![':', ' '] + (v + (sep + seq!['\n'])))));
    lemma_pretty_fields_prefix(fields, (k + 1) as nat, n as nat, l1);
    lemma_holds_split(s, base, all, tail);
    lemma_holds_prefix(s, base, all, pk1.len() as int);
    assert(all.subrange(0, pk1.len() as int) == pk1);
    lemma_holds_split(s, base, pk + indent(l1), q + (seq![':', ' '] + (v + (sep + seq!['\n']))));
    lemma_holds_split(s, base, pk, indent(l1));
    lemma_holds_spaces(s, base + pk.len(), l1);
    let start = base + pk.len() + 2 * l1;
    lemma_holds_split(s, start, q, seq![':', ' '] + (v + (sep + seq!['\n'])));
    lemma_holds_split(s, start + q.len(), seq![':', ' '], v + (sep + seq!['\n']));
    lemma_holds_char(s, start + q.len(), seq![':', ' '], 0);
    lemma_holds_char(s, start + q.len(), seq![':', ' '], 1);
    let vs = start + q.len() + 2;
    lemma_holds_split(s, vs, v, sep + seq!['\n']);
    let e = vs + v.len();
    if k + 1 < n {
        assert(sep == seq![',']);
        lemma_holds_char(s, e, sep + seq!['\n'], 0);
        lemma_holds_char(s, e, sep + seq!['\n'], 1);
    } else {
        assert(sep =~= Seq::<char>::empty());
        lemma_holds_char(s, e, sep + seq!['\n'], 0);
        assert(pk1 == all);
        lemma_holds_split(s, base + all.len(), indent(level), seq!['}']);
        lemma_holds_spaces(s, base + all.len(), level);
        lemma_holds_char(s, base + all.len() + indent(level).len(), seq!['}'], 0);
    }
}

/// Where the parser stands before line `k` of an indented array or
/// object: at the first line's first item, or just past the last comma.
pub open spec fn line_pos(lines: Seq<char>, k: int, level: nat, base: int) -> int {
    if k == 0 {
        base + 2 * (level + 1)
    } else {
        base + lines.len() - 1
    }
}

proof fn lemma_pretty_value(s: Seq<char>, p: int, v: JsonV, level: nat, nums: spec_fn(Seq<char>) -> Option<i64>)
    requires
        numbers_read(v, nums),
        holds_at(s, p, pretty_spec(v, level)),
        ends_value(s, p + pretty_spec(v, level).len()),
    ensures
        value_spec(s, p, nums) == Ok::<(JsonV, int), Seq<char>>((v, p + pretty_spec(v, level).len())),
    decreases v, 0int,
{
    match v {
        JsonV::Array(items) => {
            if items.len() > 0 {
                lemma_pretty_array(s, p, items, level, nums);
            } else {
                lemma_value_roundtrip(s, p, v, nums);
            }
        },
        JsonV::Object(fields) => {
            if fields.len() > 0 {
                lemma_pretty_object(s, p, fields, level, nums);
            } else {
                lemma_value_roundtrip(s, p, v, nums);
            }
        },
        _ => {
            lemma_value_roundtrip(s, p, v, nums);
        },
    }
}

#[verifier::spinoff_prover]
#[verifier::rlimit(50)]
proof fn lemma_pretty_array(s: Seq<char>, p: int, items: Seq<JsonV>, level: nat, nums: spec_fn(Seq<char>) -> Option<i64>)
    requires
        items.len() > 0,
        forall|i: int| 0 <= i < items.len() ==> numbers_read(#[trigger] items[i], nums),
        holds_at(s, p, pretty_spec(JsonV::Array(items), level)),
    ensures
        value_spec(s, p, nums) == Ok::<(JsonV, int), Seq<char>>((JsonV::Array(items), p + pretty_spec(JsonV::Array(items), level).len())),
    decreases items, items.len() + 1,
{
    let l1 = level + 1;
    let n = items.len();
    let r = pretty_spec(JsonV::Array(items), level);
    let body = pretty_items(items, n as nat, l1);
    lemma_indent(level);
    assert(r =~= seq!['[', '\n'] + (body + (indent(level) + seq![']'])));
    lemma_holds_char(s, p, r, 0);
    lemma_holds_char(s, p, r, 1);
    assert(skip_ws(s, p) == p);
    assert(expect_spec(s, p, '[') == Ok::<int, Seq<char>>(p + 1));
    lemma_holds_split(s, p, seq!['[', '\n'], body + (indent(level) + seq![']']));
    let base = p + 2;
    lemma_item_layout(s, base, items, 0, level);
    assert(pretty_items(items, 0, l1) =~= Seq::<char>::empty());
    let start = base + 2 * l1;
    lemma_pretty_first(items[0], l1);
    lemma_holds_char(s, start, pretty_spec(items[0], l1), 0);
    assert(forall|j: int| p + 1 <= j < start ==> json_ws(#[trigger] s[j]));
    lemma_skip_run(s, p + 1, start);
    assert(s[start] != ']');
    lemma_pretty_items(s, base, items, 0, level, nums);
    assert(items.take(0) =~= Seq::<JsonV>::empty());
    assert(array_spec(s, p, nums) == elements_spec(s, start, Seq::empty(), nums));
    assert(value_spec(s, p, nums) == array_spec(s, p, nums));
}

#[verifier::spinoff_prover]
#[verifier::rlimit(50)]
proof fn lemma_pretty_items(s: Seq<char>, base: int, items: Seq<JsonV>, k: int, level: nat, nums: spec_fn(Seq<char>) -> Option<i64>)
    requires
        0 <= k < items.len(),
        forall|i: int| 0 <= i < items.len() ==> numbers_read(#[trigger] items[i], nums),
        holds_at(s, base, pretty_items(items, items.len() as nat, level + 1) + (indent(level) + seq![']'])),
    ensures
        elements_spec(s, line_pos(pretty_items(items, k as nat, level + 1), k, level, base), items.take(k), nums)
            == Ok::<(JsonV, int), Seq<char>>((JsonV::Array(items), base + pretty_items(items, items.len() as nat, level + 1).len() + 2 * level + 1)),
    decreases items, items.len() - k,
{
    let n = items.len();
    let l1 = level + 1;
    let pk = pretty_items(items, k as nat, l1);
    let pos = line_pos(pk, k, level, base);
    let start = base + pk.len() + 2 * l1;
    let v = pretty_spec(items[k], l1);
    let e = start + v.len();
    lemma_item_layout(s, base, items, k, level);
    lemma_pretty_first(items[k], l1);
    lemma_holds_char(s, start, v, 0);
    lemma_holds_split(s, base, pretty_items(items, n as nat, l1), indent(level) + seq![']']);
    if k > 0 {
        lemma_item_layout(s, base, items, k - 1, level);
        assert(s[pos] == '\n');
    }
    assert(forall|j: int| pos <= j < start ==> json_ws(#[trigger] s[j]));
    lemma_skip_run(s, pos, start);
    lemma_value_skip(s, pos, nums);
    lemma_pretty_value(s, start, items[k], l1, nums);
    assert(value_spec(s, pos, nums) == Ok::<(JsonV, int), Seq<char>>((items[k], e)));
    assert(items.take(k).push(items[k]) =~= items.take(k + 1));
    if k + 1 < n {
        lemma_skip_run(s, e, e);
        lemma_pretty_items(s, base, items, k + 1, level, nums);
        assert(line_pos(pretty_items(items, (k + 1) as nat, l1), k + 1, level, base) == e + 1);
    } else {
        assert(forall|j: int| e <= j < e + 1 + 2 * level ==> json_ws(#[trigger] s[j]));
        lemma_skip_run(s, e, e + 1 + 2 * level);
        assert(items.take(k + 1) =~= items);
    }
}

#[verifier::spinoff_prover]
#[verifier::rlimit(50)]
proof fn lemma_pretty_object(s: Seq<char>, p: int, fields: Seq<(Seq<char>, JsonV)>, level: nat, nums: spec_fn(Seq<char>) -> Option<i64>)
    requires
        fields.len() > 0,
        forall|i: int| 0 <= i < fields.len() ==> numbers_read(#[trigger] fields[i].1, nums),
        holds_at(s, p, pretty_spec(JsonV::Object(fields), level)),
    ensures
        value_spec(s, p, nums) == Ok::<(JsonV, int), Seq<char>>((JsonV::Object(fields), p + pretty_spec(JsonV::Object(fields), level).len())),
    decreases fields, fields.len() + 1,
{
    let l1 = level + 1;
    let n = fields.len();
    let r = pretty_spec(JsonV::Object(fields), level);
    let body = pretty_fields(fields, n as nat, l1);
    lemma_indent(level);
    assert(r =~= seq!['{', '\n'] + (body + (indent(level) + seq!['}'])));
    lemma_holds_char(s, p, r, 0);
    lemma_holds_char(s, p, r, 1);
    assert(skip_ws(s, p) == p);
    assert(expect_spec(s, p, '{') == Ok::<int, Seq<char>>(p + 1));
    lemma_holds_split(s, p, seq!['{', '\n'], body + (indent(level) + seq!['}']));
    let base = p + 2;
    lemma_member_layout(s, base, fields, 0, level);
    assert(pretty_fields(fields, 0, l1) =~= Seq::<char>::empty());
    let start = base + 2 * l1;
    lemma_holds_char(s, start, seq!['"'] + escape(fields[0].0) + seq!['"'], 0);
    assert(forall|j: int| p + 1 <= j < start ==> json_ws(#[trigger] s[j]));
    lemma_skip_run(s, p + 1, start);
    assert(s[start] != '}');
    lemma_pretty_members(s, base, fields, 0, level, nums);
    assert(fields.take(0) =~= Seq::<(Seq<char>, JsonV)>::empty());
    assert(object_spec(s, p, nums) == members_spec(s, start, Seq::empty(), nums));
    assert(value_spec(s, p, nums) == object_spec(s, p, nums));
}

#[verifier::spinoff_prover]
#[verifier::rlimit(50)]
proof fn lemma_pretty_members(s: Seq<char>, base: int, fields: Seq<(Seq<char>, JsonV)>, k: int, level: nat, nums: spec_fn(Seq<char>) -> Option<i64>)
    requires
        0 <= k < fields.len(),
        forall|i: int| 0 <= i < fields.len() ==> numbers_read(#[trigger] fields[i].1, nums),
        holds_at(s, base, pretty_fields(fields, fields.len() as nat, level + 1) + (indent(level) + seq!['}'])),
    ensures
        members_spec(s, line_pos(pretty_fields(fields, k as nat, level + 1), k, level, base), fields.take(k), nums)
            == Ok::<(JsonV, int), Seq<char>>((JsonV::Object(fields), base + pretty_fields(fields, fields.len() as nat, level + 1).len() + 2 * level + 1)),
    decreases fields, fields.len() - k,
{
    let n = fields.len();
    let l1 = level + 1;
    let pk = pretty_fields(fields, k as nat, l1);
    let pos = line_pos(pk, k, level, base);
    let start = base + pk.len() + 2 * l1;
    let key = fields[k].0;
    let val = fields[k].1;
    let q = seq!['"'] + escape(key) + seq!['"'];
    let v = pretty_spec(val, l1);
    let p1 = start + q.len();
    let vs = p1 + 2;
    let e = vs + v.len();
    lemma_member_layout(s, base, fields, k, level);
    lemma_holds_char(s, start, q, 0);
    lemma_holds_split(s, base, pretty_fields(fields, n as nat, l1), indent(level) + seq!['}']);
    if k > 0 {
        lemma_member_layout(s, base, fields, k - 1, level);
        assert(s[pos] == '\n');
    }
    assert(forall|j: int| pos <= j < start ==> json_ws(#[trigger] s[j]));
    lemma_skip_run(s, pos, start);
    lemma_string_skip(s, pos);
    lemma_string_roundtrip(s, start, key);
    assert(string_spec(s, pos) == Ok::<(Seq<char>, int), Seq<char>>((key, p1)));
    assert(skip_ws(s, p1) == p1);
    assert(expect_spec(s, p1, ':') == Ok::<int, Seq<char>>(p1 + 1));
    lemma_pretty_first(val, l1);
    lemma_holds_char(s, vs, v, 0);
    lemma_skip_run(s, p1 + 1, vs);
    lemma_value_skip(s, p1 + 1, nums);
    lemma_pretty_value(s, vs, val, l1, nums);
    assert(value_spec(s, p1 + 1, nums) == Ok::<(JsonV, int), Seq<char>>((val, e)));
    assert(fields.take(k).push((key, val)) =~= fields.take(k + 1));
    if k + 1 < n {
        lemma_skip_run(s, e, e);
        lemma_pretty_members(s, base, fields, k + 1, level, nums);
        assert(line_pos(pretty_fields(fields, (k + 1) as nat, l1), k + 1, level, base) == e + 1);
    } else {
        assert(forall|j: int| e <= j < e + 1 + 2 * level ==> json_ws(#[trigger] s[j]));
        lemma_skip_run(s, e, e + 1 + 2 * level);
        assert(fields.take(k + 1) =~= fields);
    }
}

/// What this library writes for people it reads back too: the indented
/// rendering of any JSON value parses to that same value (and so renders
/// compactly to the same text as the value), given a number converter that
/// reads back each number of the value from its decimal text.
pub proof fn law_pretty_render_then_parse(j: Json, nums: spec_fn(Seq<char>) -> Option<i64>)
    requires
        reads_numbers(j.jv(), nums),
    ensures
        parse_spec(pretty_spec(j.jv(), 0), nums) == Ok::<JsonV, Seq<char>>(j.jv()),
        parse_spec(pretty_spec(j.jv(), 0), nums) matches Ok(w) && render_spec(w) == render_spec(j.jv()),
{
    let v = j.jv();
    let s = pretty_spec(v, 0);
    lemma_jv_fits(j);
    lemma_numbers_read(v, nums);
    assert(s.subrange(0, s.len() as int) =~= s);
    lemma_pretty_value(s, 0, v, 0, nums);
}

} // verus!
