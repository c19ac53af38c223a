//! Minimal JSON: rendering deft's own payloads (compact and indented) and
//! parsing documents back.
use vstd::prelude::*;

verus! {

/// A JSON value restricted to what deft's payloads need.
#[derive(Debug)]
pub enum Json {
    Null,
    Bool(bool),
    Number(i64),
    String(String),
    Array(Vec<Json>),
    Object(Vec<(String, Json)>),
}

/// A JSON value as a mathematical object.
pub enum JsonV {
    Null,
    Bool(bool),
    Number(int),
    Str(Seq<char>),
    Array(Seq<JsonV>),
    Object(Seq<(Seq<char>, JsonV)>),
}

impl Json {
    pub open spec fn jv(self) -> JsonV
        decreases self,
    {
        match self {
            Json::Null => JsonV::Null,
            Json::Bool(b) => JsonV::Bool(b),
            Json::Number(n) => JsonV::Number(n as int),
            Json::String(s) => JsonV::Str(s@),
            Json::Array(items) => JsonV::Array(Json::jv_items(items@)),
            Json::Object(fields) => JsonV::Object(Json::jv_fields(fields@)),
        }
    }

    pub open spec fn jv_items(items: Seq<Json>) -> Seq<JsonV>
        decreases items,
    {
        if items.len() == 0 {
            Seq::empty()
        } else {
            Json::jv_items(items.drop_last()).push(items.last().jv())
        }
    }

    pub open spec fn jv_fields(fields: Seq<(String, Json)>) -> Seq<(Seq<char>, JsonV)>
        decreases fields,
    {
        if fields.len() == 0 {
            Seq::empty()
        } else {
            Json::jv_fields(fields.drop_last()).push((fields.last().0@, fields.last().1.jv()))
        }
    }
}

} // verus!

verus! {

/// The lower-case hexadecimal digit for `d < 16`.
pub open spec fn hex_digit(d: nat) -> char {
    if d < 10 {
        ((d + 48) as u32) as char
    } else {
        ((d + 87) as u32) as char
    }
}

/// How one character of a string is written inside a JSON string literal:
/// quote, backslash and the common controls by their short escapes, other
/// control characters as `\u00XX`, everything else as itself.
pub open spec fn escape_char(c: char) -> Seq<char> {
    if c == '"' {
        seq!['\\', '"']
    } else if c == '\\' {
        seq!['\\', '\\']
    } else if c == '\n' {
        seq!['\\', 'n']
    } else if c == '\r' {
        seq!['\\', 'r']
    } else if c == '\t' {
        seq!['\\', 't']
    } else if (c as u32) < 0x20 {
        seq!['\\', 'u', '0', '0', hex_digit((c as u32 / 16) as nat), hex_digit((c as u32 % 16) as nat)]
    } else {
        seq![c]
    }
}

/// The escaped form of a whole string.
pub open spec fn escape(s: Seq<char>) -> Seq<char>
    decreases s.len(),
{
    if s.len() == 0 {
        Seq::empty()
    } else {
        escape(s.drop_last()) + escape_char(s.last())
    }
}

/// The compact rendering of a JSON value.
pub open spec fn render_spec(v: JsonV) -> Seq<char>
    decreases v,
{
    match v {
        JsonV::Null => "null"@,
        JsonV::Bool(b) => if b { "true"@ } else { "false"@ },
        JsonV::Number(n) => crate::text::signed_decimal(n),
        JsonV::Str(s) => seq!['"'] + escape(s) + seq!['"'],
        JsonV::Array(items) => seq!['['] + render_items(items) + seq![']'],
        JsonV::Object(fields) => seq!['{'] + render_fields(fields) + seq!['}'],
    }
}

/// Array items rendered compactly, comma separated.
pub open spec fn render_items(items: Seq<JsonV>) -> Seq<char>
    decreases items,
{
    if items.len() == 0 {
        Seq::empty()
    } else {
        render_items(items.drop_last()) + (if items.len() > 1 { seq![','] } else { Seq::empty() })
            + render_spec(items.last())
    }
}

/// Object members rendered compactly, comma separated.
pub open spec fn render_fields(fields: Seq<(Seq<char>, JsonV)>) -> Seq<char>
    decreases fields,
{
    if fields.len() == 0 {
        Seq::empty()
    } else {
        render_fields(fields.drop_last()) + (if fields.len() > 1 { seq![','] } else { Seq::empty() })
            + seq!['"'] + escape(fields.last().0) + seq!['"', ':'] + render_spec(fields.last().1)
    }
}

/// `2 * level` spaces.
pub open spec fn indent(level: nat) -> Seq<char>
    decreases level,
{
    if level == 0 {
        Seq::empty()
    } else {
        indent((level - 1) as nat) + seq![' ', ' ']
    }
}

/// The indented rendering of a JSON value at nesting `level`: non-empty
/// arrays and objects one member per line, indented two spaces deeper;
/// everything else as in the compact form.
pub open spec fn pretty_spec(v: JsonV, level: nat) -> Seq<char>
    decreases v, 0nat,
{
    match v {
        JsonV::Array(items) => if items.len() > 0 {
            seq!['[', '\n'] + pretty_items(items, items.len(), level + 1) + indent(level) + seq![']']
        } else {
            render_spec(v)
        },
        JsonV::Object(fields) => if fields.len() > 0 {
            seq!['{', '\n'] + pretty_fields(fields, fields.len(), level + 1) + indent(level) + seq!['}']
        } else {
            render_spec(v)
        },
        _ => render_spec(v),
    }
}

/// The index of the first member named `key`, if any.
pub open spec fn member_index(fields: Seq<(String, Json)>, key: Seq<char>) -> Option<int> {
    if exists|i: int| 0 <= i < fields.len() && fields[i].0@ == key {
        Some(choose|i: int| 0 <= i < fields.len() && fields[i].0@ == key && forall|j: int| 0 <= j < i ==> fields[j].0@ != key)
    } else {
        None
    }
}

/// How deeply arrays and objects nest inside a value.
pub open spec fn depth(v: JsonV) -> nat
    decreases v, 0nat,
{
    match v {
        JsonV::Array(items) => 1 + items_depth(items, items.len()),
        JsonV::Object(fields) => 1 + fields_depth(fields, fields.len()),
        _ => 0,
    }
}

/// The greatest depth among the first `n` items.
pub open spec fn items_depth(items: Seq<JsonV>, n: nat) -> nat
    decreases items, n,
{
    if n == 0 || n > items.len() {
        0
    } else {
        let a = items_depth(items, (n - 1) as nat);
        let b = depth(items[n - 1]);
        if a < b { b } else { a }
    }
}

/// The greatest depth among the values of the first `n` members.
pub open spec fn fields_depth(fields: Seq<(Seq<char>, JsonV)>, n: nat) -> nat
    decreases fields, n,
{
    if n == 0 || n > fields.len() {
        0
    } else {
        let a = fields_depth(fields, (n - 1) as nat);
        let b = depth(fields[n - 1].1);
        if a < b { b } else { a }
    }
}

/// `","` after every member of a list of `len` but the last.
pub open spec fn separator(i: int, len: int) -> Seq<char> {
    if i + 1 < len {
        seq![',']
    } else {
        Seq::empty()
    }
}

/// The first `n` array items, one per line at `level`.
pub open spec fn pretty_items(items: Seq<JsonV>, n: nat, level: nat) -> Seq<char>
    decreases items, n,
{
    if n == 0 || n > items.len() {
        Seq::empty()
    } else {
        pretty_items(items, (n - 1) as nat, level) + indent(level) + pretty_spec(items[n - 1], level)
            + separator(n - 1, items.len() as int) + seq!['\n']
    }
}

/// The first `n` object members, one per line at `level`.
pub open spec fn pretty_fields(fields: Seq<(Seq<char>, JsonV)>, n: nat, level: nat) -> Seq<char>
    decreases fields, n,
{
    if n == 0 || n > fields.len() {
        Seq::empty()
    } else {
        pretty_fields(fields, (n - 1) as nat, level) + indent(level) + seq!['"'] + escape(fields[n - 1].0)
            + seq!['"', ':', ' '] + pretty_spec(fields[n - 1].1, level) + separator(n - 1, fields.len() as int)
            + seq!['\n']
    }
}

} // verus!

verus! {

proof fn lemma_items_depth(items: Seq<JsonV>, n: nat, k: int)
    requires
        0 <= k < n <= items.len(),
    ensures
        depth(items[k]) <= items_depth(items, n),
    decreases n,
{
    if k < n - 1 {
        lemma_items_depth(items, (n - 1) as nat, k);
    }
}

proof fn lemma_fields_depth(fields: Seq<(Seq<char>, JsonV)>, n: nat, k: int)
    requires
        0 <= k < n <= fields.len(),
    ensures
        depth(fields[k].1) <= fields_depth(fields, n),
    decreases n,
{
    if k < n - 1 {
        lemma_fields_depth(fields, (n - 1) as nat, k);
    }
}

pub proof fn lemma_jv_items(items: Seq<Json>)
    ensures
        Json::jv_items(items).len() == items.len(),
        forall|i: int| 0 <= i < items.len() ==> #[trigger] Json::jv_items(items)[i] == items[i].jv(),
    decreases items.len(),
{
    if items.len() > 0 {
        lemma_jv_items(items.drop_last());
    }
}

pub proof fn lemma_jv_fields(fields: Seq<(String, Json)>)
    ensures
        Json::jv_fields(fields).len() == fields.len(),
        forall|i: int| 0 <= i < fields.len() ==> #[trigger] Json::jv_fields(fields)[i] == (fields[i].0@, fields[i].1.jv()),
    decreases fields.len(),
{
    if fields.len() > 0 {
        lemma_jv_fields(fields.drop_last());
    }
}

fn hex_char(d: u32) -> (c: char)
    requires
        d < 16,
    ensures
        c == hex_digit(d as nat),
{
    if d < 10 {
        ((d as u8) + 48) as char
    } else {
        ((d as u8) + 87) as char
    }
}

/// Escape a string's contents for embedding inside a JSON string literal.
pub fn escape_into(s: &str, out: &mut String)
    ensures
        final(out)@ == old(out)@ + escape(s@),
{
    let cs = crate::text::chars_of(s);
    let ghost start = out@;
    let mut i: usize = 0;
    proof {
        assert(escape(s@.subrange(0, 0)) =~= Seq::<char>::empty());
        assert(start + Seq::<char>::empty() =~= start);
    }
    while i < cs.len()
        invariant
            cs@ == s@,
            i <= cs@.len(),
            out@ == start + escape(s@.subrange(0, i as int)),
        decreases cs@.len() - i,
    {
        let c = cs[i];
        let ghost before = out@;
        if c == '"' {
            crate::text::push_str(out, "\\\"");
        } else if c == '\\' {
            crate::text::push_str(out, "\\\\");
        } else if c == '\n' {
            crate::text::push_str(out, "\\n");
        } else if c == '\r' {
            crate::text::push_str(out, "\\r");
        } else if c == '\t' {
            crate::text::push_str(out, "\\t");
        } else if (c as u32) < 0x20 {
            crate::text::push_str(out, "\\u00");
            crate::text::push_char(out, hex_char((c as u32) / 16));
            crate::text::push_char(out, hex_char((c as u32) % 16));
        } else {
            crate::text::push_char(out, c);
        }
        proof {
            reveal_strlit("\\\"");
            reveal_strlit("\\\\");
            reveal_strlit("\\n");
            reveal_strlit("\\r");
            reveal_strlit("\\t");
            reveal_strlit("\\u00");
            assert(out@ =~= before + escape_char(c));
            assert(s@.subrange(0, i + 1).drop_last() =~= s@.subrange(0, i as int));
        }
        i = i + 1;
    }
    proof {
        assert(s@.subrange(0, cs@.len() as int) =~= s@);
    }
}

/// Appends `2 * level` spaces.
pub fn push_indent(out: &mut String, level: usize)
    ensures
        final(out)@ == old(out)@ + indent(level as nat),
{
    let ghost start = out@;
    let mut i: usize = 0;
    proof {
        assert(start + indent(0) =~= start);
    }
    while i < level
        invariant
            i <= level,
            out@ == start + indent(i as nat),
        decreases level - i,
    {
        crate::text::push_str(out, "  ");
        proof {
            reveal_strlit("  ");
            assert(out@ =~= start + indent((i + 1) as nat));
        }
        i = i + 1;
    }
}

impl Json {
    /// A JSON string holding `s`.
    pub fn str(s: &str) -> (j: Json)
        ensures
            j.jv() == JsonV::Str(s@),
    {
        Json::String(String::from_str(s))
    }

    /// A copy of this value.
    pub fn copy(&self) -> (j: Json)
        ensures
            j.jv() == self.jv(),
        decreases self,
    {
        match self {
            Json::Null => Json::Null,
            Json::Bool(b) => Json::Bool(*b),
            Json::Number(n) => Json::Number(*n),
            Json::String(t) => Json::String(crate::text::owned(t.as_str())),
            Json::Array(items) => {
                let mut out: Vec<Json> = Vec::new();
                let mut i: usize = 0;
                while i < items.len()
                    invariant
                        i <= items@.len(),
                        *self == Json::Array(*items),
                        Json::jv_items(out@) == Json::jv_items(items@.subrange(0, i as int)),
                    decreases items@.len() - i,
                {
                    proof {
                        assert(decreases_to!(*self => (*self)->Array_0));
                        assert(decreases_to!(*items => items@));
                        assert(decreases_to!(items@ => items@[i as int]));
                    }
                    let c = items[i].copy();
                    let ghost before = out@;
                    out.push(c);
                    proof {
                        assert(out@.drop_last() == before);
                        assert(items@.subrange(0, i + 1).drop_last() =~= items@.subrange(0, i as int));
                    }
                    i = i + 1;
                }
                proof {
                    assert(items@.subrange(0, items@.len() as int) =~= items@);
                }
                Json::Array(out)
            },
            Json::Object(fields) => {
                let mut out: Vec<(String, Json)> = Vec::new();
                let mut i: usize = 0;
                while i < fields.len()
                    invariant
                        i <= fields@.len(),
                        *self == Json::Object(*fields),
                        Json::jv_fields(out@) == Json::jv_fields(fields@.subrange(0, i as int)),
                    decreases fields@.len() - i,
                {
                    proof {
                        assert(decreases_to!(*self => (*self)->Object_0));
                        assert(decreases_to!(*fields => fields@));
                        assert(decreases_to!(fields@ => fields@[i as int]));
                        assert(decreases_to!(fields@[i as int] => fields@[i as int].1));
                    }
                    let c = fields[i].1.copy();
                    let k = crate::text::owned(fields[i].0.as_str());
                    let ghost before = out@;
                    out.push((k, c));
                    proof {
                        assert(out@.drop_last() == before);
                        assert(fields@.subrange(0, i + 1).drop_last() =~= fields@.subrange(0, i as int));
                    }
                    i = i + 1;
                }
                proof {
                    assert(fields@.subrange(0, fields@.len() as int) =~= fields@);
                }
                Json::Object(out)
            },
        }
    }

    /// Appends the compact rendering of this value.
    pub fn write(&self, out: &mut String)
        ensures
            final(out)@ == old(out)@ + render_spec(self.jv()),
        decreases self,
    {
        let ghost start = out@;
        match self {
            Json::Null => crate::text::push_str(out, "null"),
            Json::Bool(b) => crate::text::push_str(out, if *b { "true" } else { "false" }),
            Json::Number(n) => {
                let t = crate::text::i64_to_string(*n);
                crate::text::push_str(out, t.as_str());
            },
            Json::String(s) => {
                crate::text::push_char(out, '"');
                escape_into(s.as_str(), out);
                crate::text::push_char(out, '"');
                proof {
                    assert(out@ =~= start + render_spec(self.jv()));
                }
            },
            Json::Array(items) => {
                crate::text::push_char(out, '[');
                let ghost vs = Json::jv_items(items@);
                proof {
                    lemma_jv_items(items@);
                    assert(render_items(vs.subrange(0, 0)) =~= Seq::<char>::empty());
                    assert(out@ =~= start + seq!['['] + render_items(vs.subrange(0, 0)));
                }
                let mut i: usize = 0;
                while i < items.len()
                    invariant
                        i <= items@.len(),
                        vs == Json::jv_items(items@),
                        *self == Json::Array(*items),
                        vs.len() == items@.len(),
                        forall|k: int| 0 <= k < items@.len() ==> #[trigger] vs[k] == items@[k].jv(),
                        out@ == start + seq!['['] + render_items(vs.subrange(0, i as int)),
                    decreases items@.len() - i,
                {
                    if i > 0 {
                        crate::text::push_char(out, ',');
                    }
                    proof {
                        assert(decreases_to!(*self => (*self)->Array_0));
                        assert(decreases_to!(*self => (*self)->Array_0));
                        assert(decreases_to!(*items => items@));
                        assert(decreases_to!(items@ => items@[i as int]));
                        assert(decreases_to!(*self => (*self)->Array_0));
                        assert(decreases_to!(*items => items@));
                        assert(decreases_to!(items@ => items@[i as int]));
                    }
                    items[i].write(out);
                    proof {
                        let p = vs.subrange(0, i + 1);
                        assert(p.drop_last() =~= vs.subrange(0, i as int));
                        assert(p.last() == items@[i as int].jv());
                        assert(out@ =~= start + seq!['['] + render_items(p));
                    }
                    i = i + 1;
                }
                crate::text::push_char(out, ']');
                proof {
                    assert(vs.subrange(0, items@.len() as int) =~= vs);
                    assert(out@ =~= start + render_spec(self.jv()));
                }
            },
            Json::Object(fields) => {
                crate::text::push_char(out, '{');
                let ghost vs = Json::jv_fields(fields@);
                proof {
                    lemma_jv_fields(fields@);
                    assert(render_fields(vs.subrange(0, 0)) =~= Seq::<char>::empty());
                    assert(out@ =~= start + seq!['{'] + render_fields(vs.subrange(0, 0)));
                }
                let mut i: usize = 0;
                while i < fields.len()
                    invariant
                        i <= fields@.len(),
                        vs == Json::jv_fields(fields@),
                        *self == Json::Object(*fields),
                        vs.len() == fields@.len(),
                        forall|k: int| 0 <= k < fields@.len() ==> #[trigger] vs[k] == (fields@[k].0@, fields@[k].1.jv()),
                        out@ == start + seq!['{'] + render_fields(vs.subrange(0, i as int)),
                    decreases fields@.len() - i,
                {
                    if i > 0 {
                        crate::text::push_char(out, ',');
                    }
                    crate::text::push_char(out, '"');
                    escape_into(fields[i].0.as_str(), out);
                    crate::text::push_str(out, "\":");
                    proof {
                        assert(decreases_to!(*self => (*self)->Object_0));
                        assert(decreases_to!(*self => (*self)->Object_0));
                        assert(decreases_to!(*fields => fields@));
                        assert(decreases_to!(fields@ => fields@[i as int]));
                        assert(decreases_to!(fields@[i as int] => fields@[i as int].1));
                        assert(decreases_to!(*self => (*self)->Object_0));
                        assert(decreases_to!(*fields => fields@));
                        assert(decreases_to!(fields@ => fields@[i as int]));
                        assert(decreases_to!(fields@[i as int] => fields@[i as int].1));
                    }
                    fields[i].1.write(out);
                    proof {
                        reveal_strlit("\":");
                        let p = vs.subrange(0, i + 1);
                        assert(p.drop_last() =~= vs.subrange(0, i as int));
                        assert(p.last() == (fields@[i as int].0@, fields@[i as int].1.jv()));
                        assert(out@ =~= start + seq!['{'] + render_fields(p));
                    }
                    i = i + 1;
                }
                crate::text::push_char(out, '}');
                proof {
                    assert(vs.subrange(0, fields@.len() as int) =~= vs);
                    assert(out@ =~= start + render_spec(self.jv()));
                }
            },
        }
    }

    /// Serialize to a compact, single-line JSON string.
    pub fn render(&self) -> (s: String)
        ensures
            s@ == render_spec(self.jv()),
    {
        let mut out = String::new();
        self.write(&mut out);
        proof {
            assert(out@ =~= render_spec(self.jv()));
        }
        out
    }
}

} // verus!

verus! {

impl Json {
    /// Appends the indented rendering of this value at nesting `level`.
    #[verifier::rlimit(40)]
    pub fn write_pretty(&self, out: &mut String, level: usize)
        requires
            level + depth(self.jv()) < usize::MAX,
        ensures
            final(out)@ == old(out)@ + pretty_spec(self.jv(), level as nat),
        decreases self,
    {
        let ghost start = out@;
        match self {
            Json::Array(items) if items.len() > 0 => {
                crate::text::push_str(out, "[\n");
                let ghost vs = Json::jv_items(items@);
                proof {
                    reveal_strlit("[\n");
                    lemma_jv_items(items@);
                    assert(out@ =~= start + seq!['[', '\n'] + pretty_items(vs, 0, (level + 1) as nat));
                }
                let mut i: usize = 0;
                while i < items.len()
                    invariant
                        i <= items@.len(),
                        level + depth(self.jv()) < usize::MAX,
                        vs == Json::jv_items(items@),
                        *self == Json::Array(*items),
                        vs.len() == items@.len(),
                        forall|k: int| 0 <= k < items@.len() ==> #[trigger] vs[k] == items@[k].jv(),
                        out@ == start + seq!['[', '\n'] + pretty_items(vs, i as nat, (level + 1) as nat),
                    decreases items@.len() - i,
                {
                    push_indent(out, level + 1);
                    proof {
                        assert(decreases_to!(*self => (*self)->Array_0));
                        assert(decreases_to!(*self => (*self)->Array_0));
                        assert(decreases_to!(*items => items@));
                        assert(decreases_to!(items@ => items@[i as int]));
                        lemma_items_depth(vs, vs.len(), i as int);
                    }
                    items[i].write_pretty(out, level + 1);
                    if i + 1 < items.len() {
                        crate::text::push_char(out, ',');
                    }
                    crate::text::push_char(out, '\n');
                    proof {
                        assert(out@ =~= start + seq!['[', '\n'] + pretty_items(vs, (i + 1) as nat, (level + 1) as nat));
                    }
                    i = i + 1;
                }
                push_indent(out, level);
                crate::text::push_char(out, ']');
                proof {
                    assert(out@ =~= start + pretty_spec(self.jv(), level as nat));
                }
            },
            Json::Object(fields) if fields.len() > 0 => {
                crate::text::push_str(out, "{\n");
                let ghost vs = Json::jv_fields(fields@);
                proof {
                    reveal_strlit("{\n");
                    lemma_jv_fields(fields@);
                    assert(out@ =~= start + seq!['{', '\n'] + pretty_fields(vs, 0, (level + 1) as nat));
                }
                let mut i: usize = 0;
                while i < fields.len()
                    invariant
                        i <= fields@.len(),
                        level + depth(self.jv()) < usize::MAX,
                        vs == Json::jv_fields(fields@),
                        *self == Json::Object(*fields),
                        vs.len() == fields@.len(),
                        forall|k: int| 0 <= k < fields@.len() ==> #[trigger] vs[k] == (fields@[k].0@, fields@[k].1.jv()),
                        out@ == start + seq!['{', '\n'] + pretty_fields(vs, i as nat, (level + 1) as nat),
                    decreases fields@.len() - i,
                {
                    push_indent(out, level + 1);
                    crate::text::push_char(out, '"');
                    escape_into(fields[i].0.as_str(), out);
                    crate::text::push_str(out, "\": ");
                    proof {
                        reveal_strlit("\": ");
                        assert(decreases_to!(*self => (*self)->Object_0));
                        assert(decreases_to!(*self => (*self)->Object_0));
                        assert(decreases_to!(*fields => fields@));
                        assert(decreases_to!(fields@ => fields@[i as int]));
                        assert(decreases_to!(fields@[i as int] => fields@[i as int].1));
                        lemma_fields_depth(vs, vs.len(), i as int);
                    }
                    fields[i].1.write_pretty(out, level + 1);
                    if i + 1 < fields.len() {
                        crate::text::push_char(out, ',');
                    }
                    crate::text::push_char(out, '\n');
                    proof {
                        assert(out@ =~= start + seq!['{', '\n'] + pretty_fields(vs, (i + 1) as nat, (level + 1) as nat));
                    }
                    i = i + 1;
                }
                push_indent(out, level);
                crate::text::push_char(out, '}');
                proof {
                    assert(out@ =~= start + pretty_spec(self.jv(), level as nat));
                }
            },
            other => {
                other.write(out);
            },
        }
    }

    /// Serialize to an indented, multi-line JSON string (2-space indent);
    /// empty arrays and objects still render compactly.
    pub fn render_pretty(&self) -> (s: String)
        requires
            depth(self.jv()) < usize::MAX,
        ensures
            s@ == pretty_spec(self.jv(), 0),
    {
        let mut out = String::new();
        self.write_pretty(&mut out, 0);
        proof {
            assert(out@ =~= pretty_spec(self.jv(), 0));
        }
        out
    }

    /// Look up a field by key on an object: the first member with that key;
    /// `None` for any other shape or a missing key.
    pub fn get(&self, key: &str) -> (r: Option<&Json>)
        ensures
            match *self {
                Json::Object(fields) => match member_index(fields@, key@) {
                    Some(i) => r == Some(&fields@[i].1),
                    None => r is None,
                },
                _ => r is None,
            },
    {
        match self {
            Json::Object(fields) => {
                let k = crate::text::owned(key);
                let mut i: usize = 0;
                while i < fields.len()
                    invariant
                        i <= fields@.len(),
                        k@ == key@,
                        *self == Json::Object(*fields),
                        forall|j: int| 0 <= j < i ==> fields@[j].0@ != key@,
                    decreases fields@.len() - i,
                {
                    if fields[i].0 == k {
                        proof {
                            let fs = fields@;
                            assert(fs[i as int].0@ == key@);
                            let m = choose|m: int| 0 <= m < fs.len() && fs[m].0@ == key@ && forall|j: int| 0 <= j < m ==> fs[j].0@ != key@;
                            assert(m == i) by {
                                if m < i {
                                    assert(fs[m].0@ != key@);
                                }
                                if m > i {
                                    assert(fs[i as int].0@ == key@);
                                }
                            }
                        }
                        return Some(&fields[i].1);
                    }
                    i = i + 1;
                }
                None
            },
            _ => None,
        }
    }

    /// The items of an array; `None` for any other shape.
    pub fn as_array(&self) -> (r: Option<&[Json]>)
        ensures
            match r {
                Some(items) => self matches Json::Array(v) && items@ == v@,
                None => !(self is Array),
            },
    {
        match self {
            Json::Array(items) => Some(items.as_slice()),
            _ => None,
        }
    }

    /// The text of a string; `None` for any other shape.
    pub fn as_str(&self) -> (r: Option<&str>)
        ensures
            match r {
                Some(s) => self matches Json::String(t) && s@ == t@,
                None => !(self is String),
            },
    {
        match self {
            Json::String(s) => Some(s.as_str()),
            _ => None,
        }
    }

    /// The value of a number; `None` for any other shape.
    pub fn as_i64(&self) -> (r: Option<i64>)
        ensures
            match r {
                Some(n) => *self == Json::Number(n),
                None => !(self is Number),
            },
    {
        match self {
            Json::Number(n) => Some(*n),
            _ => None,
        }
    }
}

} // verus!

verus! {

// ---------------------------------------------------------------------------
// Parsing
// ---------------------------------------------------------------------------

/// The white space JSON allows between tokens.
pub open spec fn json_ws(c: char) -> bool {
    c == ' ' || c == '\t' || c == '\n' || c == '\r'
}

/// The first position at or after `p` that is not JSON white space.
pub open spec fn skip_ws(s: Seq<char>, p: int) -> int
    decreases s.len() - p,
{
    if 0 <= p < s.len() && json_ws(s[p]) {
        skip_ws(s, p + 1)
    } else {
        p
    }
}

/// The number of bytes of the UTF-8 encoding of `c`.
pub open spec fn char_len(c: char) -> nat {
    if (c as u32) < 0x80 {
        1
    } else if (c as u32) < 0x800 {
        2
    } else if (c as u32) < 0x10000 {
        3
    } else {
        4
    }
}

/// The number of bytes of the UTF-8 encoding of `s`.
pub open spec fn utf8_size(s: Seq<char>) -> nat
    decreases s.len(),
{
    if s.len() == 0 {
        0
    } else {
        utf8_size(s.drop_last()) + char_len(s.last())
    }
}

/// The byte offset of character position `p` in the UTF-8 encoding of `s`.
pub open spec fn byte_pos(s: Seq<char>, p: int) -> nat {
    utf8_size(s.subrange(0, p))
}

/// The byte offset after consuming one byte at character position `p`
/// (none at the end of the input).
pub open spec fn bumped(s: Seq<char>, p: int) -> nat {
    if 0 <= p < s.len() {
        byte_pos(s, p) + 1
    } else {
        byte_pos(s, p)
    }
}

/// The first byte of the UTF-8 encoding of `c`.
pub open spec fn first_byte(c: char) -> nat {
    let v = c as u32;
    if v < 0x80 {
        v as nat
    } else if v < 0x800 {
        (0xC0 + v / 64) as nat
    } else if v < 0x10000 {
        (0xE0 + v / 4096) as nat
    } else {
        (0xF0 + v / 262144) as nat
    }
}

/// The byte at character position `p`, if any.
pub open spec fn byte_at(s: Seq<char>, p: int) -> Option<nat> {
    if 0 <= p < s.len() {
        Some(first_byte(s[p]))
    } else {
        None
    }
}

/// `{:?}` of an optional byte.
pub open spec fn debug_byte(b: Option<nat>) -> Seq<char> {
    match b {
        Some(v) => "Some("@ + crate::text::decimal(v) + ")"@,
        None => "None"@,
    }
}

/// Skip white space, then consume `c`: the position after it, or the error.
pub open spec fn expect_spec(s: Seq<char>, p: int, c: char) -> core::result::Result<int, Seq<char>> {
    let q = skip_ws(s, p);
    if 0 <= q < s.len() && s[q] == c {
        Ok(q + 1)
    } else {
        Err("expected '"@ + seq![c] + "' at byte "@ + crate::text::decimal(bumped(s, q)))
    }
}

/// The value of a hexadecimal digit.
pub open spec fn hex_value(c: char) -> Option<nat> {
    if '0' <= c <= '9' {
        Some((c as u32 - 48) as nat)
    } else if 'a' <= c <= 'f' {
        Some((c as u32 - 87) as nat)
    } else if 'A' <= c <= 'F' {
        Some((c as u32 - 55) as nat)
    } else {
        None
    }
}

/// `n` more hexadecimal digits from `p`, accumulated onto `acc`.
pub open spec fn hex_digits(s: Seq<char>, p: int, n: nat, acc: nat) -> core::result::Result<nat, Seq<char>>
    decreases n,
{
    if n == 0 {
        Ok(acc)
    } else if p < 0 || p >= s.len() {
        Err("unterminated unicode escape"@)
    } else {
        match hex_value(s[p]) {
            None => Err("invalid unicode escape"@),
            Some(d) => hex_digits(s, p + 1, (n - 1) as nat, acc * 16 + d),
        }
    }
}

/// The character a `\u` escape stands for: the code point itself, or
/// U+FFFD for a surrogate.
pub open spec fn escaped_char(cp: nat) -> char {
    if cp < 0xD800 || (0xE000 <= cp && cp <= 0x10FFFF) {
        cp as char
    } else {
        '\u{fffd}'
    }
}

/// The character a one-letter escape stands for.
pub open spec fn short_escape(c: char) -> Option<char> {
    if c == '"' {
        Some('"')
    } else if c == '\\' {
        Some('\\')
    } else if c == '/' {
        Some('/')
    } else if c == 'n' {
        Some('\n')
    } else if c == 't' {
        Some('\t')
    } else if c == 'r' {
        Some('\r')
    } else if c == 'b' {
        Some('\u{8}')
    } else if c == 'f' {
        Some('\u{c}')
    } else {
        None
    }
}

/// The rest of a string literal from `i`, its text so far `acc`: the text
/// and the position after the closing quote, or the error.
pub open spec fn string_body(s: Seq<char>, i: int, acc: Seq<char>) -> core::result::Result<(Seq<char>, int), Seq<char>>
    decreases s.len() - i,
{
    if i < 0 || i >= s.len() {
        Err("unterminated string"@)
    } else if s[i] == '"' {
        Ok((acc, i + 1))
    } else if s[i] == '\\' {
        if i + 1 >= s.len() {
            Err("invalid escape "@ + debug_byte(None))
        } else if s[i + 1] == 'u' {
            match hex_digits(s, i + 2, 4, 0) {
                Err(m) => Err(m),
                Ok(cp) => if i + 6 <= s.len() {
                    string_body(s, i + 6, acc.push(escaped_char(cp)))
                } else {
                    Err("unterminated unicode escape"@)
                },
            }
        } else {
            match short_escape(s[i + 1]) {
                Some(c) => string_body(s, i + 2, acc.push(c)),
                None => Err("invalid escape "@ + debug_byte(Some(first_byte(s[i + 1])))),
            }
        }
    } else {
        string_body(s, i + 1, acc.push(s[i]))
    }
}

/// A string literal after optional white space.
pub open spec fn string_spec(s: Seq<char>, p: int) -> core::result::Result<(Seq<char>, int), Seq<char>> {
    let q = skip_ws(s, p);
    if 0 <= q < s.len() && s[q] == '"' {
        string_body(s, q + 1, Seq::empty())
    } else {
        Err("expected string at byte "@ + crate::text::decimal(bumped(s, q)))
    }
}

pub open spec fn is_digit(c: char) -> bool {
    '0' <= c <= '9'
}

/// The end of the run of digits at `p`.
pub open spec fn digits_end(s: Seq<char>, p: int) -> int
    decreases s.len() - p,
{
    if 0 <= p < s.len() && is_digit(s[p]) {
        digits_end(s, p + 1)
    } else {
        p
    }
}

/// The end of the number lexeme at `p`: an optional `-`, digits, an
/// optional fraction, an optional exponent.
pub open spec fn number_end(s: Seq<char>, p: int) -> int {
    let a = if 0 <= p < s.len() && s[p] == '-' { p + 1 } else { p };
    let b = digits_end(s, a);
    let c = if 0 <= b < s.len() && s[b] == '.' { digits_end(s, b + 1) } else { b };
    if 0 <= c < s.len() && (s[c] == 'e' || s[c] == 'E') {
        let e = c + 1;
        let f = if 0 <= e < s.len() && (s[e] == '+' || s[e] == '-') { e + 1 } else { e };
        digits_end(s, f)
    } else {
        c
    }
}

/// A number at `p`, its lexeme converted by `nums`.
pub open spec fn number_spec(s: Seq<char>, p: int, nums: spec_fn(Seq<char>) -> Option<i64>) -> core::result::Result<(JsonV, int), Seq<char>> {
    let e = number_end(s, p);
    let text = s.subrange(p, e);
    match nums(text) {
        None => Err("invalid number '"@ + text + "'"@),
        Some(v) => Ok((JsonV::Number(v as int), e)),
    }
}

/// The literal `lit` at `p`, standing for `v`.
pub open spec fn literal_spec(s: Seq<char>, p: int, lit: Seq<char>, v: JsonV) -> core::result::Result<(JsonV, int), Seq<char>> {
    if crate::text::starts_with(s.skip(p), lit) {
        Ok((v, p + lit.len()))
    } else {
        Err("invalid literal at byte "@ + crate::text::decimal(byte_pos(s, p)))
    }
}

pub proof fn lemma_skip_ws_bounds(s: Seq<char>, p: int)
    requires
        0 <= p <= s.len(),
    ensures
        p <= skip_ws(s, p) <= s.len(),
        skip_ws(s, p) < s.len() ==> !json_ws(s[skip_ws(s, p)]),
    decreases s.len() - p,
{
    if 0 <= p < s.len() && json_ws(s[p]) {
        lemma_skip_ws_bounds(s, p + 1);
    }
}

pub proof fn lemma_string_body_advances(s: Seq<char>, i: int, acc: Seq<char>)
    requires
        0 <= i,
    ensures
        string_body(s, i, acc) matches Ok((_, e)) ==> i < e <= s.len(),
    decreases s.len() - i,
{
    if 0 <= i < s.len() && s[i] != '"' {
        if s[i] == '\\' {
            if i + 1 < s.len() {
                if s[i + 1] == 'u' {
                    if hex_digits(s, i + 2, 4, 0) is Ok && i + 6 <= s.len() {
                        lemma_string_body_advances(s, i + 6, acc.push(escaped_char(hex_digits(s, i + 2, 4, 0)->Ok_0)));
                    }
                } else if short_escape(s[i + 1]) is Some {
                    lemma_string_body_advances(s, i + 2, acc.push(short_escape(s[i + 1])->Some_0));
                }
            }
        } else {
            lemma_string_body_advances(s, i + 1, acc.push(s[i]));
        }
    }
}

pub proof fn lemma_string_advances(s: Seq<char>, p: int)
    requires
        0 <= p <= s.len(),
    ensures
        string_spec(s, p) matches Ok((_, e)) ==> p < e <= s.len(),
{
    lemma_skip_ws_bounds(s, p);
    let q = skip_ws(s, p);
    if 0 <= q < s.len() && s[q] == '"' {
        lemma_string_body_advances(s, q + 1, Seq::empty());
    }
}

pub proof fn lemma_expect_advances(s: Seq<char>, p: int, c: char)
    requires
        0 <= p <= s.len(),
    ensures
        expect_spec(s, p, c) matches Ok(e) ==> p < e <= s.len(),
{
    lemma_skip_ws_bounds(s, p);
}

} // verus!

verus! {

/// A JSON value after optional white space at `p`: the value and the
/// position after it, or the error, with numbers converted by `nums`.
pub open spec fn value_spec(s: Seq<char>, p: int, nums: spec_fn(Seq<char>) -> Option<i64>) -> core::result::Result<(JsonV, int), Seq<char>>
    decreases s.len() - p, 3int,
{
    if p < 0 || p > s.len() {
        Err(Seq::empty())
    } else {
        proof {
            lemma_skip_ws_bounds(s, p);
        }
        let q = skip_ws(s, p);
        let c = if q < s.len() { s[q] } else { ' ' };
        if q < s.len() && c == '{' {
            object_spec(s, q, nums)
        } else if q < s.len() && c == '[' {
            array_spec(s, q, nums)
        } else if q < s.len() && c == '"' {
            match string_spec(s, q) {
                Ok((t, e)) => Ok((JsonV::Str(t), e)),
                Err(m) => Err(m),
            }
        } else if q < s.len() && c == 't' {
            literal_spec(s, q, "true"@, JsonV::Bool(true))
        } else if q < s.len() && c == 'f' {
            literal_spec(s, q, "false"@, JsonV::Bool(false))
        } else if q < s.len() && c == 'n' {
            literal_spec(s, q, "null"@, JsonV::Null)
        } else if q < s.len() && (c == '-' || is_digit(c)) {
            number_spec(s, q, nums)
        } else {
            Err("unexpected byte "@ + debug_byte(byte_at(s, q)) + " at "@ + crate::text::decimal(byte_pos(s, q)))
        }
    }
}

/// An object whose `{` is expected at `p`.
pub open spec fn object_spec(s: Seq<char>, p: int, nums: spec_fn(Seq<char>) -> Option<i64>) -> core::result::Result<(JsonV, int), Seq<char>>
    decreases s.len() - p, 2int,
{
    if p < 0 || p > s.len() {
        Err(Seq::empty())
    } else {
        proof {
            lemma_expect_advances(s, p, '{');
        }
        match expect_spec(s, p, '{') {
            Err(m) => Err(m),
            Ok(r) => {
                proof {
                    lemma_skip_ws_bounds(s, r);
                }
                let t = skip_ws(s, r);
                if t < s.len() && s[t] == '}' {
                    Ok((JsonV::Object(Seq::empty()), t + 1))
                } else {
                    members_spec(s, t, Seq::empty(), nums)
                }
            },
        }
    }
}

/// Object members from `p`, those read so far `acc`.
pub open spec fn members_spec(s: Seq<char>, p: int, acc: Seq<(Seq<char>, JsonV)>, nums: spec_fn(Seq<char>) -> Option<i64>) -> core::result::Result<(JsonV, int), Seq<char>>
    decreases s.len() - p, 4int,
{
    if p < 0 || p > s.len() {
        Err(Seq::empty())
    } else {
        proof {
            lemma_string_advances(s, p);
        }
        match string_spec(s, p) {
            Err(m) => Err(m),
            Ok((key, p1)) => {
                proof {
                    lemma_expect_advances(s, p1, ':');
                }
                match expect_spec(s, p1, ':') {
                    Err(m) => Err(m),
                    Ok(p2) => match value_spec(s, p2, nums) {
                        Err(m) => Err(m),
                        Ok((v, p3)) => {
                            let acc2 = acc.push((key, v));
                            let t = skip_ws(s, p3);
                            if 0 <= t < s.len() && s[t] == ',' {
                                if p < t + 1 <= s.len() {
                                    members_spec(s, t + 1, acc2, nums)
                                } else {
                                    Err(Seq::empty())
                                }
                            } else if 0 <= t < s.len() && s[t] == '}' {
                                Ok((JsonV::Object(acc2), t + 1))
                            } else {
                                Err("expected ',' or '}' at byte "@ + crate::text::decimal(bumped(s, t)) + ", got "@
                                    + debug_byte(byte_at(s, t)))
                            }
                        },
                    },
                }
            },
        }
    }
}

/// An array whose `[` is expected at `p`.
pub open spec fn array_spec(s: Seq<char>, p: int, nums: spec_fn(Seq<char>) -> Option<i64>) -> core::result::Result<(JsonV, int), Seq<char>>
    decreases s.len() - p, 2int,
{
    if p < 0 || p > s.len() {
        Err(Seq::empty())
    } else {
        proof {
            lemma_expect_advances(s, p, '[');
        }
        match expect_spec(s, p, '[') {
            Err(m) => Err(m),
            Ok(r) => {
                proof {
                    lemma_skip_ws_bounds(s, r);
                }
                let t = skip_ws(s, r);
                if t < s.len() && s[t] == ']' {
                    Ok((JsonV::Array(Seq::empty()), t + 1))
                } else {
                    elements_spec(s, t, Seq::empty(), nums)
                }
            },
        }
    }
}

/// Array elements from `p`, those read so far `acc`.
pub open spec fn elements_spec(s: Seq<char>, p: int, acc: Seq<JsonV>, nums: spec_fn(Seq<char>) -> Option<i64>) -> core::result::Result<(JsonV, int), Seq<char>>
    decreases s.len() - p, 4int,
{
    if p < 0 || p > s.len() {
        Err(Seq::empty())
    } else {
        match value_spec(s, p, nums) {
            Err(m) => Err(m),
            Ok((v, p3)) => {
                let acc2 = acc.push(v);
                let t = skip_ws(s, p3);
                if 0 <= t < s.len() && s[t] == ',' {
                    if p < t + 1 <= s.len() {
                        elements_spec(s, t + 1, acc2, nums)
                    } else {
                        Err(Seq::empty())
                    }
                } else if 0 <= t < s.len() && s[t] == ']' {
                    Ok((JsonV::Array(acc2), t + 1))
                } else {
                    Err("expected ',' or ']' at byte "@ + crate::text::decimal(bumped(s, t)) + ", got "@ + debug_byte(
                        byte_at(s, t),
                    ))
                }
            },
        }
    }
}

/// A whole document: one value, with nothing but whitespace after it, or
/// the error.
pub open spec fn parse_spec(s: Seq<char>, nums: spec_fn(Seq<char>) -> Option<i64>) -> core::result::Result<JsonV, Seq<char>> {
    match value_spec(s, 0, nums) {
        Ok((v, e)) => if skip_ws(s, e) == s.len() {
            Ok(v)
        } else {
            Err("trailing characters at byte "@ + crate::text::decimal(byte_pos(s, skip_ws(s, e))))
        },
        Err(m) => Err(m),
    }
}

} // verus!

verus! {

pub proof fn lemma_byte_pos(s: Seq<char>, p: int)
    requires
        0 <= p <= s.len(),
    ensures
        byte_pos(s, p) <= utf8_size(s),
        p < s.len() ==> byte_pos(s, p + 1) == byte_pos(s, p) + char_len(s[p]),
    decreases s.len() - p,
{
    if p < s.len() {
        assert(s.subrange(0, p + 1).drop_last() =~= s.subrange(0, p));
        lemma_byte_pos(s, p + 1);
    } else {
        assert(s.subrange(0, p) =~= s);
    }
}

/// The number of bytes of a UTF-8 sequence, from its first byte.
pub open spec fn utf8_len_spec(first_byte: u8) -> nat {
    if first_byte & 0x80 == 0 {
        1
    } else if first_byte & 0xE0 == 0xC0 {
        2
    } else if first_byte & 0xF0 == 0xE0 {
        3
    } else if first_byte & 0xF8 == 0xF0 {
        4
    } else {
        1
    }
}

/// The number of bytes of a UTF-8 sequence, from its first byte.
pub fn utf8_len(first_byte: u8) -> (n: usize)
    ensures
        n == utf8_len_spec(first_byte),
{
    if first_byte & 0x80 == 0 {
        1
    } else if first_byte & 0xE0 == 0xC0 {
        2
    } else if first_byte & 0xF0 == 0xE0 {
        3
    } else if first_byte & 0xF8 == 0xF0 {
        4
    } else {
        1
    }
}

/// The first byte of the UTF-8 encoding of `c`.
fn first_byte_of(c: char) -> (b: u8)
    ensures
        b as nat == first_byte(c),
        utf8_len_spec(b) == char_len(c),
{
    let v = c as u32;
    if v < 0x80 {
        let b = v as u8;
        assert(b & 0x80 == 0) by (bit_vector)
            requires
                b < 0x80,
        ;
        b
    } else if v < 0x800 {
        let b = (0xC0 + v / 64) as u8;
        assert(b & 0x80 != 0 && b & 0xE0 == 0xC0) by (bit_vector)
            requires
                0xC0 <= b < 0xE0,
        ;
        b
    } else if v < 0x10000 {
        let b = (0xE0 + v / 4096) as u8;
        assert(b & 0x80 != 0 && b & 0xE0 != 0xC0 && b & 0xF0 == 0xE0) by (bit_vector)
            requires
                0xE0 <= b < 0xF0,
        ;
        b
    } else {
        let b = (0xF0 + v / 262144) as u8;
        assert(b & 0x80 != 0 && b & 0xE0 != 0xC0 && b & 0xF0 != 0xE0 && b & 0xF8 == 0xF0) by (bit_vector)
            requires
                0xF0 <= b < 0xF8,
        ;
        b
    }
}

/// `{:?}` of an optional byte.
fn debug_byte_string(b: Option<u8>) -> (s: String)
    ensures
        s@ == debug_byte(match b {
            Some(v) => Some(v as nat),
            None => None,
        }),
{
    match b {
        Some(v) => {
            let d = crate::text::u64_to_string(v as u64);
            crate::text::cat3("Some(", d.as_str(), ")")
        },
        None => String::from_str("None"),
    }
}

/// `std::char::from_u32`: the character with code point `cp`, or `None`
/// for a surrogate or a value past U+10FFFF.
#[verifier::external_body]
fn char_from_u32(cp: u32) -> (r: Option<char>)
    ensures
        match r {
            Some(c) => c == cp as char && (cp < 0xD800 || (0xE000 <= cp && cp <= 0x10FFFF)),
            None => !(cp < 0xD800 || (0xE000 <= cp && cp <= 0x10FFFF)),
        },
{
    char::from_u32(cp)
}

} // verus!

verus! {

/// A cursor over the characters of a document.
struct Parser {
    chars: Vec<char>,
    pos: usize,
}

impl Parser {
    spec fn wf(&self) -> bool {
        &&& self.pos <= self.chars@.len()
        &&& utf8_size(self.chars@) < usize::MAX
    }

    fn peek(&self) -> (r: Option<char>)
        requires
            self.wf(),
        ensures
            r == (if self.pos < self.chars@.len() { Some(self.chars@[self.pos as int]) } else { None::<char> }),
    {
        if self.pos < self.chars.len() {
            Some(self.chars[self.pos])
        } else {
            None
        }
    }

    fn bump(&mut self) -> (r: Option<char>)
        requires
            old(self).wf(),
        ensures
            final(self).wf(),
            final(self).chars == old(self).chars,
            r == (if old(self).pos < old(self).chars@.len() { Some(old(self).chars@[old(self).pos as int]) } else { None::<char> }),
            final(self).pos == if old(self).pos < old(self).chars@.len() { old(self).pos + 1 } else { old(self).pos as int },
    {
        if self.pos < self.chars.len() {
            let c = self.chars[self.pos];
            self.pos = self.pos + 1;
            Some(c)
        } else {
            None
        }
    }

    fn skip_ws(&mut self)
        requires
            old(self).wf(),
        ensures
            final(self).wf(),
            final(self).chars == old(self).chars,
            final(self).pos == skip_ws(old(self).chars@, old(self).pos as int),
    {
        let ghost start = self.pos as int;
        while self.pos < self.chars.len() && (self.chars[self.pos] == ' ' || self.chars[self.pos] == '\t'
            || self.chars[self.pos] == '\n' || self.chars[self.pos] == '\r')
            invariant
                self.wf(),
                self.chars == old(self).chars,
                skip_ws(self.chars@, start) == skip_ws(self.chars@, self.pos as int),
            decreases self.chars@.len() - self.pos,
        {
            self.pos = self.pos + 1;
        }
    }

    /// The byte offset of character position `p`.
    fn byte_offset(&self, p: usize) -> (r: usize)
        requires
            self.wf(),
            p <= self.chars@.len(),
        ensures
            r == byte_pos(self.chars@, p as int),
    {
        let mut total: usize = 0;
        let mut i: usize = 0;
        proof {
            assert(self.chars@.subrange(0, 0) =~= Seq::<char>::empty());
        }
        while i < p
            invariant
                self.wf(),
                i <= p <= self.chars@.len(),
                total == byte_pos(self.chars@, i as int),
            decreases p - i,
        {
            proof {
                lemma_byte_pos(self.chars@, i as int);
                lemma_byte_pos(self.chars@, i + 1);
            }
            let b = first_byte_of(self.chars[i]);
            total = total + utf8_len(b);
            i = i + 1;
        }
        total
    }

    /// The byte offset after a bump at character position `p`.
    fn bumped_offset(&self, p: usize) -> (r: usize)
        requires
            self.wf(),
            p <= self.chars@.len(),
        ensures
            r == bumped(self.chars@, p as int),
    {
        let b = self.byte_offset(p);
        if p < self.chars.len() {
            proof {
                lemma_byte_pos(self.chars@, p as int);
                lemma_byte_pos(self.chars@, p + 1);
            }
            b + 1
        } else {
            b
        }
    }

    /// Skip white space and consume `c`.
    fn expect(&mut self, c: char) -> (r: core::result::Result<(), String>)
        requires
            old(self).wf(),
        ensures
            final(self).wf(),
            final(self).chars == old(self).chars,
            match r {
                Ok(_) => expect_spec(old(self).chars@, old(self).pos as int, c) == Ok::<int, Seq<char>>(final(self).pos as int),
                Err(m) => expect_spec(old(self).chars@, old(self).pos as int, c) == Err::<int, Seq<char>>(m@),
            },
    {
        self.skip_ws();
        let q = self.pos;
        let b = self.bump();
        if b == Some(c) {
            Ok(())
        } else {
            let at = self.bumped_offset(q);
            let d = crate::text::u64_to_string(at as u64);
            let mut m = String::from_str("expected '");
            crate::text::push_char(&mut m, c);
            crate::text::push_str(&mut m, "' at byte ");
            crate::text::push_str(&mut m, d.as_str());
            proof {
                assert(m@ =~= "expected '"@ + seq![c] + "' at byte "@ + crate::text::decimal(bumped(old(self).chars@, q as int)));
            }
            Err(m)
        }
    }
}

} // verus!

verus! {

/// The value of a hexadecimal digit character.
fn hex_value_of(c: char) -> (r: Option<u32>)
    ensures
        match r {
            Some(d) => hex_value(c) == Some(d as nat) && d < 16,
            None => hex_value(c) is None,
        },
{
    if '0' <= c && c <= '9' {
        Some((c as u32) - 48)
    } else if 'a' <= c && c <= 'f' {
        Some((c as u32) - 87)
    } else if 'A' <= c && c <= 'F' {
        Some((c as u32) - 55)
    } else {
        None
    }
}

/// The character a one-letter escape stands for.
fn short_escape_of(c: char) -> (r: Option<char>)
    ensures
        r == short_escape(c),
{
    if c == '"' {
        Some('"')
    } else if c == '\\' {
        Some('\\')
    } else if c == '/' {
        Some('/')
    } else if c == 'n' {
        Some('\n')
    } else if c == 't' {
        Some('\t')
    } else if c == 'r' {
        Some('\r')
    } else if c == 'b' {
        Some('\u{8}')
    } else if c == 'f' {
        Some('\u{c}')
    } else {
        None
    }
}

pub open spec fn pow16(n: nat) -> nat
    decreases n,
{
    if n == 0 {
        1
    } else {
        16 * pow16((n - 1) as nat)
    }
}

proof fn lemma_pow16_pos(n: nat)
    ensures
        pow16(n) >= 1,
    decreases n,
{
    if n > 0 {
        lemma_pow16_pos((n - 1) as nat);
    }
}

impl Parser {
    /// The literal `lit` at the cursor, standing for `value`.
    fn parse_literal(&mut self, lit: &str, value: Json) -> (r: core::result::Result<Json, String>)
        requires
            old(self).wf(),
        ensures
            final(self).wf(),
            final(self).chars == old(self).chars,
            match r {
                Ok(j) => literal_spec(old(self).chars@, old(self).pos as int, lit@, value.jv()) == Ok::<(JsonV, int), Seq<char>>((j.jv(), final(self).pos as int)),
                Err(m) => literal_spec(old(self).chars@, old(self).pos as int, lit@, value.jv()) == Err::<(JsonV, int), Seq<char>>(m@),
            },
    {
        let l = crate::text::chars_of(lit);
        let ghost s = self.chars@;
        let ghost p = self.pos as int;
        let n = self.chars.len();
        let ok = if l.len() <= n - self.pos {
            let mut k: usize = 0;
            let mut same = true;
            while k < l.len()
                invariant
                    self.wf(),
                    s == self.chars@,
                    p == self.pos,
                    l@ == lit@,
                    n == self.chars@.len(),
                    self.pos + l@.len() <= n,
                    k <= l@.len(),
                    same == (forall|j: int| 0 <= j < k ==> s[p + j] == l@[j]),
                decreases l@.len() - k,
            {
                if self.chars[self.pos + k] != l[k] {
                    same = false;
                }
                k = k + 1;
            }
            proof {
                if same {
                    assert(s.skip(p).subrange(0, l@.len() as int) =~= l@);
                } else {
                    let j = choose|j: int| 0 <= j < l@.len() && s[p + j] != l@[j];
                    assert(s.skip(p).subrange(0, l@.len() as int)[j] != lit@[j]);
                }
            }
            same
        } else {
            false
        };
        if ok {
            self.pos = self.pos + l.len();
            Ok(value)
        } else {
            let at = self.byte_offset(self.pos);
            let d = crate::text::u64_to_string(at as u64);
            Err(crate::text::cat("invalid literal at byte ", d.as_str()))
        }
    }

    /// Four hexadecimal digits at the cursor.
    fn parse_hex4(&mut self) -> (r: core::result::Result<u32, String>)
        requires
            old(self).wf(),
        ensures
            final(self).wf(),
            final(self).chars == old(self).chars,
            match r {
                Ok(v) => hex_digits(old(self).chars@, old(self).pos as int, 4, 0) == Ok::<nat, Seq<char>>(v as nat)
                    && final(self).pos == old(self).pos + 4,
                Err(m) => hex_digits(old(self).chars@, old(self).pos as int, 4, 0) == Err::<nat, Seq<char>>(m@),
            },
    {
        let ghost s = self.chars@;
        let ghost p0 = self.pos as int;
        let mut value: u32 = 0;
        let mut k: usize = 0;
        proof {
            lemma_pow16_pos(4);
        }
        while k < 4
            invariant
                self.wf(),
                s == self.chars@,
                self.chars == old(self).chars,
                p0 == old(self).pos,
                k <= 4,
                self.pos == p0 + k,
                value < pow16(k as nat),
                hex_digits(s, p0, 4, 0) == hex_digits(s, self.pos as int, (4 - k) as nat, value as nat),
            decreases 4 - k,
        {
            let b = match self.bump() {
                Some(c) => c,
                None => return Err(String::from_str("unterminated unicode escape")),
            };
            let digit = match hex_value_of(b) {
                Some(d) => d,
                None => return Err(String::from_str("invalid unicode escape")),
            };
            proof {
                assert(pow16((k + 1) as nat) == 16 * pow16(k as nat));
                assert(value * 16 + digit < pow16((k + 1) as nat)) by (nonlinear_arith)
                    requires
                        value < pow16(k as nat),
                        digit < 16,
                        pow16((k + 1) as nat) == 16 * pow16(k as nat),
                {
                }
                reveal_with_fuel(pow16, 5);
                assert(pow16(4) == 65536);
            }
            value = value * 16 + digit;
            k = k + 1;
        }
        Ok(value)
    }
}

} // verus!

verus! {

impl Parser {
    /// A string literal after optional white space.
    fn parse_string(&mut self) -> (r: core::result::Result<String, String>)
        requires
            old(self).wf(),
        ensures
            final(self).wf(),
            final(self).chars == old(self).chars,
            match r {
                Ok(t) => string_spec(old(self).chars@, old(self).pos as int) == Ok::<(Seq<char>, int), Seq<char>>((t@, final(self).pos as int)),
                Err(m) => string_spec(old(self).chars@, old(self).pos as int) == Err::<(Seq<char>, int), Seq<char>>(m@),
            },
    {
        let ghost s = self.chars@;
        let ghost p0 = self.pos as int;
        self.skip_ws();
        let q = self.pos;
        let opened = match self.bump() {
            Some(c) => c == '"',
            None => false,
        };
        if !opened {
            let at = self.bumped_offset(q);
            let d = crate::text::u64_to_string(at as u64);
            return Err(crate::text::cat("expected string at byte ", d.as_str()));
        }
        let mut out = String::new();
        loop
            invariant
                self.wf(),
                self.chars == old(self).chars,
                s == self.chars@,
                p0 == old(self).pos,
                string_spec(s, p0) == string_body(s, self.pos as int, out@),
            decreases s.len() - self.pos,
        {
            let i = self.pos;
            match self.bump() {
                None => return Err(String::from_str("unterminated string")),
                Some(c) => {
                    if c == '"' {
                        return Ok(out);
                    } else if c == '\\' {
                        match self.bump() {
                            None => {
                                let b = debug_byte_string(None);
                                return Err(crate::text::cat("invalid escape ", b.as_str()));
                            },
                            Some(e) => {
                                if e == 'u' {
                                    let cp = match self.parse_hex4() {
                                        Ok(v) => v,
                                        Err(m) => return Err(m),
                                    };
                                    let ch = match char_from_u32(cp) {
                                        Some(x) => x,
                                        None => '\u{fffd}',
                                    };
                                    proof {
                                        assert(ch == escaped_char(cp as nat));
                                    }
                                    crate::text::push_char(&mut out, ch);
                                } else {
                                    match short_escape_of(e) {
                                        Some(x) => crate::text::push_char(&mut out, x),
                                        None => {
                                            let fb = first_byte_of(e);
                                            let b = debug_byte_string(Some(fb));
                                            return Err(crate::text::cat("invalid escape ", b.as_str()));
                                        },
                                    }
                                }
                            },
                        }
                    } else {
                        crate::text::push_char(&mut out, c);
                    }
                },
            }
            proof {
                assert(i < self.pos);
            }
        }
    }
}

} // verus!

verus! {

/// A number converter that can be called on any text and gives the same
/// answer for the same text.
pub open spec fn number_fn_ok<F: Fn(&str) -> Option<i64>>(f: F) -> bool {
    &&& forall|t: &str| #[trigger] f.requires((t,))
    &&& forall|t1: &str, t2: &str, r1: Option<i64>, r2: Option<i64>|
        #[trigger] f.ensures((t1,), r1) && #[trigger] f.ensures((t2,), r2) && t1@ == t2@ ==> r1 == r2
}

/// Whether the converter `f` gives `r` for some string holding `text`.
pub open spec fn number_gives<F: Fn(&str) -> Option<i64>>(f: F, text: Seq<char>, r: Option<i64>) -> bool {
    exists|t: &str| t@ == text && #[trigger] f.ensures((t,), r)
}

/// What the converter `f` gives for the text `text`.
pub open spec fn number_value<F: Fn(&str) -> Option<i64>>(f: F, text: Seq<char>) -> Option<i64> {
    choose|r: Option<i64>| #[trigger] number_gives(f, text, r)
}

/// The converter `f` as a function of texts.
pub open spec fn number_fn<F: Fn(&str) -> Option<i64>>(f: F) -> spec_fn(Seq<char>) -> Option<i64> {
    |text: Seq<char>| number_value(f, text)
}

proof fn lemma_number_value<F: Fn(&str) -> Option<i64>>(f: F, t: &str, r: Option<i64>)
    requires
        number_fn_ok(f),
        f.ensures((t,), r),
    ensures
        number_value(f, t@) == r,
        (number_fn(f))(t@) == r,
{
    assert(number_gives(f, t@, r));
    let r2 = number_value(f, t@);
    assert(number_gives(f, t@, r2));
    let x = choose|x: &str| x@ == t@ && #[trigger] f.ensures((x,), r2);
    assert(f.ensures((x,), r2));
}

pub proof fn lemma_skip_ws_idempotent(s: Seq<char>, p: int)
    requires
        0 <= p <= s.len(),
    ensures
        skip_ws(s, skip_ws(s, p)) == skip_ws(s, p),
    decreases s.len() - p,
{
    if 0 <= p < s.len() && json_ws(s[p]) {
        lemma_skip_ws_idempotent(s, p + 1);
    }
}

impl Parser {
    fn skip_digits(&mut self)
        requires
            old(self).wf(),
        ensures
            final(self).wf(),
            final(self).chars == old(self).chars,
            final(self).pos == digits_end(old(self).chars@, old(self).pos as int),
            final(self).pos >= old(self).pos,
    {
        let ghost start = self.pos as int;
        while self.pos < self.chars.len() && '0' <= self.chars[self.pos] && self.chars[self.pos] <= '9'
            invariant
                self.wf(),
                self.chars == old(self).chars,
                start == old(self).pos,
                start <= self.pos,
                digits_end(self.chars@, start) == digits_end(self.chars@, self.pos as int),
            decreases self.chars@.len() - self.pos,
        {
            self.pos = self.pos + 1;
        }
    }

    /// A number at the cursor, its lexeme converted by `number`.
    fn parse_number<F: Fn(&str) -> Option<i64>>(&mut self, number: &F) -> (r: core::result::Result<Json, String>)
        requires
            old(self).wf(),
            number_fn_ok(*number),
        ensures
            final(self).wf(),
            final(self).chars == old(self).chars,
            match r {
                Ok(j) => number_spec(old(self).chars@, old(self).pos as int, number_fn(*number)) == Ok::<(JsonV, int), Seq<char>>((j.jv(), final(self).pos as int)),
                Err(m) => number_spec(old(self).chars@, old(self).pos as int, number_fn(*number)) == Err::<(JsonV, int), Seq<char>>(m@),
            },
    {
        let start = self.pos;
        if self.pos < self.chars.len() && self.chars[self.pos] == '-' {
            self.pos = self.pos + 1;
        }
        self.skip_digits();
        if self.pos < self.chars.len() && self.chars[self.pos] == '.' {
            self.pos = self.pos + 1;
            self.skip_digits();
        }
        if self.pos < self.chars.len() && (self.chars[self.pos] == 'e' || self.chars[self.pos] == 'E') {
            self.pos = self.pos + 1;
            if self.pos < self.chars.len() && (self.chars[self.pos] == '+' || self.chars[self.pos] == '-') {
                self.pos = self.pos + 1;
            }
            self.skip_digits();
        }
        proof {
            assert(self.pos == number_end(self.chars@, start as int));
        }
        let text = crate::text::string_of(vstd::slice::slice_subrange(self.chars.as_slice(), start, self.pos));
        let t = text.as_str();
        let value = number(t);
        proof {
            lemma_number_value(*number, t, value);
        }
        match value {
            Some(v) => Ok(Json::Number(v)),
            None => Err(crate::text::cat3("invalid number '", text.as_str(), "'")),
        }
    }
}

} // verus!

verus! {

proof fn lemma_digits_end_bounds(s: Seq<char>, p: int)
    requires
        0 <= p <= s.len(),
    ensures
        p <= digits_end(s, p) <= s.len(),
        p < s.len() && is_digit(s[p]) ==> p < digits_end(s, p),
    decreases s.len() - p,
{
    if 0 <= p < s.len() && is_digit(s[p]) {
        lemma_digits_end_bounds(s, p + 1);
    }
}

proof fn lemma_number_end_advances(s: Seq<char>, q: int)
    requires
        0 <= q < s.len(),
        s[q] == '-' || is_digit(s[q]),
    ensures
        q < number_end(s, q) <= s.len(),
{
    let a = if s[q] == '-' { q + 1 } else { q };
    lemma_digits_end_bounds(s, a);
    let b = digits_end(s, a);
    if 0 <= b < s.len() && s[b] == '.' {
        lemma_digits_end_bounds(s, b + 1);
    }
    let c = if 0 <= b < s.len() && s[b] == '.' { digits_end(s, b + 1) } else { b };
    if 0 <= c < s.len() && (s[c] == 'e' || s[c] == 'E') {
        let e = c + 1;
        let f = if 0 <= e < s.len() && (s[e] == '+' || s[e] == '-') { e + 1 } else { e };
        lemma_digits_end_bounds(s, f);
    }
}

impl Parser {
    /// A JSON value after optional white space.
    fn parse_value<F: Fn(&str) -> Option<i64>>(&mut self, number: &F) -> (r: core::result::Result<Json, String>)
        requires
            old(self).wf(),
            number_fn_ok(*number),
        ensures
            final(self).wf(),
            final(self).chars == old(self).chars,
            match r {
                Ok(j) => value_spec(old(self).chars@, old(self).pos as int, number_fn(*number)) == Ok::<(JsonV, int), Seq<char>>((j.jv(), final(self).pos as int))
                    && old(self).pos < final(self).pos,
                Err(m) => value_spec(old(self).chars@, old(self).pos as int, number_fn(*number)) == Err::<(JsonV, int), Seq<char>>(m@),
            },
        decreases old(self).chars@.len() - old(self).pos, 3int,
    {
        let ghost s = self.chars@;
        let ghost p = self.pos as int;
        proof {
            lemma_skip_ws_bounds(s, p);
        }
        self.skip_ws();
        let q = self.pos;
        proof {
            lemma_skip_ws_idempotent(s, p);
        }
        let c = match self.peek() {
            Some(c) => c,
            None => {
                let b = debug_byte_string(None);
                let at = self.byte_offset(q);
                let d = crate::text::u64_to_string(at as u64);
                let mut m = crate::text::cat("unexpected byte ", b.as_str());
                crate::text::push_str(&mut m, " at ");
                crate::text::push_str(&mut m, d.as_str());
                return Err(m);
            },
        };
        if c == '{' {
            self.parse_object(number)
        } else if c == '[' {
            self.parse_array(number)
        } else if c == '"' {
            proof {
                lemma_string_advances(s, q as int);
            }
            match self.parse_string() {
                Ok(t) => Ok(Json::String(t)),
                Err(m) => Err(m),
            }
        } else if c == 't' {
            proof {
                reveal_strlit("true");
            }
            self.parse_literal("true", Json::Bool(true))
        } else if c == 'f' {
            proof {
                reveal_strlit("false");
            }
            self.parse_literal("false", Json::Bool(false))
        } else if c == 'n' {
            proof {
                reveal_strlit("null");
            }
            self.parse_literal("null", Json::Null)
        } else if c == '-' || ('0' <= c && c <= '9') {
            proof {
                lemma_number_end_advances(s, q as int);
            }
            self.parse_number(number)
        } else {
            let fb = first_byte_of(c);
            let b = debug_byte_string(Some(fb));
            let at = self.byte_offset(q);
            let d = crate::text::u64_to_string(at as u64);
            let mut m = crate::text::cat("unexpected byte ", b.as_str());
            crate::text::push_str(&mut m, " at ");
            crate::text::push_str(&mut m, d.as_str());
            Err(m)
        }
    }

    /// An object whose `{` is expected at the cursor.
    fn parse_object<F: Fn(&str) -> Option<i64>>(&mut self, number: &F) -> (r: core::result::Result<Json, String>)
        requires
            old(self).wf(),
            number_fn_ok(*number),
        ensures
            final(self).wf(),
            final(self).chars == old(self).chars,
            match r {
                Ok(j) => object_spec(old(self).chars@, old(self).pos as int, number_fn(*number)) == Ok::<(JsonV, int), Seq<char>>((j.jv(), final(self).pos as int))
                    && old(self).pos < final(self).pos,
                Err(m) => object_spec(old(self).chars@, old(self).pos as int, number_fn(*number)) == Err::<(JsonV, int), Seq<char>>(m@),
            },
        decreases old(self).chars@.len() - old(self).pos, 2int,
    {
        let ghost s = self.chars@;
        let ghost p = self.pos as int;
        let ghost nf = number_fn(*number);
        proof {
            lemma_expect_advances(s, p, '{');
        }
        match self.expect('{') {
            Ok(_) => {},
            Err(m) => return Err(m),
        }
        let ghost r0 = self.pos as int;
        proof {
            lemma_skip_ws_bounds(s, r0);
        }
        let mut fields: Vec<(String, Json)> = Vec::new();
        self.skip_ws();
        if self.pos < self.chars.len() && self.chars[self.pos] == '}' {
            self.pos = self.pos + 1;
            return Ok(Json::Object(fields));
        }
        loop
            invariant
                self.wf(),
                self.chars == old(self).chars,
                s == self.chars@,
                p == old(self).pos,
                nf == number_fn(*number),
                number_fn_ok(*number),
                p < self.pos,
                object_spec(s, p, nf) == members_spec(s, self.pos as int, Json::jv_fields(fields@), nf),
            decreases s.len() - self.pos,
        {
            let i = self.pos;
            proof {
                lemma_skip_ws_bounds(s, i as int);
                lemma_skip_ws_idempotent(s, i as int);
                lemma_string_advances(s, i as int);
            }
            self.skip_ws();
            let key = match self.parse_string() {
                Ok(k) => k,
                Err(m) => return Err(m),
            };
            let ghost p1 = self.pos as int;
            proof {
                lemma_expect_advances(s, p1, ':');
            }
            match self.expect(':') {
                Ok(_) => {},
                Err(m) => return Err(m),
            }
            let value = match self.parse_value(number) {
                Ok(v) => v,
                Err(m) => return Err(m),
            };
            let ghost before = fields@;
            fields.push((key, value));
            proof {
                assert(fields@.drop_last() =~= before);
                assert(Json::jv_fields(fields@) == Json::jv_fields(before).push((key@, value.jv())));
            }
            let ghost p3 = self.pos as int;
            proof {
                lemma_skip_ws_bounds(s, p3);
            }
            self.skip_ws();
            let t = self.pos;
            match self.bump() {
                Some(c) => {
                    if c == ',' {
                    } else if c == '}' {
                        return Ok(Json::Object(fields));
                    } else {
                        let fb = first_byte_of(c);
                        let b = debug_byte_string(Some(fb));
                        let at = self.bumped_offset(t);
                        let d = crate::text::u64_to_string(at as u64);
                        let mut m = crate::text::cat("expected ',' or '}' at byte ", d.as_str());
                        crate::text::push_str(&mut m, ", got ");
                        crate::text::push_str(&mut m, b.as_str());
                        return Err(m);
                    }
                },
                None => {
                    let b = debug_byte_string(None);
                    let at = self.bumped_offset(t);
                    let d = crate::text::u64_to_string(at as u64);
                    let mut m = crate::text::cat("expected ',' or '}' at byte ", d.as_str());
                    crate::text::push_str(&mut m, ", got ");
                    crate::text::push_str(&mut m, b.as_str());
                    return Err(m);
                },
            }
        }
    }

    /// An array whose `[` is expected at the cursor.
    fn parse_array<F: Fn(&str) -> Option<i64>>(&mut self, number: &F) -> (r: core::result::Result<Json, String>)
        requires
            old(self).wf(),
            number_fn_ok(*number),
        ensures
            final(self).wf(),
            final(self).chars == old(self).chars,
            match r {
                Ok(j) => array_spec(old(self).chars@, old(self).pos as int, number_fn(*number)) == Ok::<(JsonV, int), Seq<char>>((j.jv(), final(self).pos as int))
                    && old(self).pos < final(self).pos,
                Err(m) => array_spec(old(self).chars@, old(self).pos as int, number_fn(*number)) == Err::<(JsonV, int), Seq<char>>(m@),
            },
        decreases old(self).chars@.len() - old(self).pos, 2int,
    {
        let ghost s = self.chars@;
        let ghost p = self.pos as int;
        let ghost nf = number_fn(*number);
        proof {
            lemma_expect_advances(s, p, '[');
        }
        match self.expect('[') {
            Ok(_) => {},
            Err(m) => return Err(m),
        }
        let ghost r0 = self.pos as int;
        proof {
            lemma_skip_ws_bounds(s, r0);
        }
        let mut items: Vec<Json> = Vec::new();
        self.skip_ws();
        if self.pos < self.chars.len() && self.chars[self.pos] == ']' {
            self.pos = self.pos + 1;
            return Ok(Json::Array(items));
        }
        loop
            invariant
                self.wf(),
                self.chars == old(self).chars,
                s == self.chars@,
                p == old(self).pos,
                nf == number_fn(*number),
                number_fn_ok(*number),
                p < self.pos,
                array_spec(s, p, nf) == elements_spec(s, self.pos as int, Json::jv_items(items@), nf),
            decreases s.len() - self.pos,
        {
            let i = self.pos;
            let value = match self.parse_value(number) {
                Ok(v) => v,
                Err(m) => return Err(m),
            };
            let ghost before = items@;
            items.push(value);
            proof {
                assert(items@.drop_last() =~= before);
                assert(Json::jv_items(items@) == Json::jv_items(before).push(value.jv()));
            }
            let ghost p3 = self.pos as int;
            proof {
                lemma_skip_ws_bounds(s, p3);
            }
            self.skip_ws();
            let t = self.pos;
            match self.bump() {
                Some(c) => {
                    if c == ',' {
                    } else if c == ']' {
                        return Ok(Json::Array(items));
                    } else {
                        let fb = first_byte_of(c);
                        let b = debug_byte_string(Some(fb));
                        let at = self.bumped_offset(t);
                        let d = crate::text::u64_to_string(at as u64);
                        let mut m = crate::text::cat("expected ',' or ']' at byte ", d.as_str());
                        crate::text::push_str(&mut m, ", got ");
                        crate::text::push_str(&mut m, b.as_str());
                        return Err(m);
                    }
                },
                None => {
                    let b = debug_byte_string(None);
                    let at = self.bumped_offset(t);
                    let d = crate::text::u64_to_string(at as u64);
                    let mut m = crate::text::cat("expected ',' or ']' at byte ", d.as_str());
                    crate::text::push_str(&mut m, ", got ");
                    crate::text::push_str(&mut m, b.as_str());
                    return Err(m);
                },
            }
        }
    }
}

} // verus!

verus! {

impl Json {
    /// Parse a JSON document: objects, arrays, strings with escapes,
    /// numbers, booleans and null; no comments, trailing commas, NaN or
    /// Infinity. The document is one value: after it only white space may
    /// follow, anything else is an error. `number` turns a number's text
    /// into its value (`None` when the text is no number).
    pub fn parse<F: Fn(&str) -> Option<i64>>(input: &str, number: &F) -> (r: core::result::Result<Json, String>)
        requires
            number_fn_ok(*number),
            utf8_size(input@) < usize::MAX,
        ensures
            match r {
                Ok(j) => parse_spec(input@, number_fn(*number)) == Ok::<JsonV, Seq<char>>(j.jv()),
                Err(m) => parse_spec(input@, number_fn(*number)) == Err::<JsonV, Seq<char>>(m@),
            },
    {
        let mut parser = Parser { chars: crate::text::chars_of(input), pos: 0 };
        let value = match parser.parse_value(number) {
            Ok(v) => v,
            Err(m) => return Err(m),
        };
        let ghost e = parser.pos as int;
        proof {
            lemma_skip_ws_bounds(parser.chars@, e);
        }
        parser.skip_ws();
        if parser.pos < parser.chars.len() {
            let at = parser.byte_offset(parser.pos);
            let d = crate::text::u64_to_string(at as u64);
            let m = crate::text::cat("trailing characters at byte ", d.as_str());
            return Err(m);
        }
        Ok(value)
    }
}

} // verus!
