//! The compilation database (`compile_commands.json`) a build leaves at the
//! project root for clangd and other tools.
use vstd::prelude::*;
use crate::compiler::CompileUnit;
use crate::json::{render_spec, Json, JsonV};
use crate::text::views;

verus! {

/// One translation unit's compile command, field for field as clangd's
/// `compile_commands.json` schema has it.
#[derive(Debug, Clone)]
pub struct CompileCommandEntry {
    /// The working directory the compiler is invoked from.
    pub directory: String,
    /// The translation unit's source file, exactly as passed to clang.
    pub file: String,
    /// The full argument vector, the compiler executable first.
    pub arguments: Vec<String>,
}

/// The JSON strings of a list of strings.
pub open spec fn string_values(v: Seq<Seq<char>>) -> Seq<JsonV> {
    v.map_values(|s: Seq<char>| JsonV::Str(s))
}

/// The database record of an entry: `directory`, `file`, `arguments`.
pub open spec fn entry_json(e: CompileCommandEntry) -> JsonV {
    JsonV::Object(seq![
        ("directory"@, JsonV::Str(e.directory@)),
        ("file"@, JsonV::Str(e.file@)),
        ("arguments"@, JsonV::Array(string_values(views(e.arguments@)))),
    ])
}

impl CompileCommandEntry {
    /// The database record of this entry.
    pub fn to_json(&self) -> (j: Json)
        ensures
            j.jv() == entry_json(*self),
    {
        let mut items: Vec<Json> = Vec::new();
        let mut i: usize = 0;
        while i < self.arguments.len()
            invariant
                i <= self.arguments@.len(),
                Json::jv_items(items@) == string_values(views(self.arguments@)).subrange(0, i as int),
            decreases self.arguments@.len() - i,
        {
            let ghost before = items@;
            items.push(Json::str(self.arguments[i].as_str()));
            proof {
                assert(items@.drop_last() =~= before);
                assert(string_values(views(self.arguments@)).subrange(0, i + 1) =~= string_values(views(self.arguments@)).subrange(0, i as int).push(JsonV::Str(self.arguments@[i as int]@)));
            }
            i = i + 1;
        }
        proof {
            assert(string_values(views(self.arguments@)).subrange(0, self.arguments@.len() as int) =~= string_values(views(self.arguments@)));
        }
        let mut fields: Vec<(String, Json)> = Vec::new();
        fields.push((String::from_str("directory"), Json::str(self.directory.as_str())));
        fields.push((String::from_str("file"), Json::str(self.file.as_str())));
        fields.push((String::from_str("arguments"), Json::Array(items)));
        let j = Json::Object(fields);
        proof {
            let f = fields@;
            crate::json::lemma_jv_fields(f);
            assert(f.len() == 3);
            assert(f[0].0@ == "directory"@ && f[0].1.jv() == JsonV::Str(self.directory@));
            assert(f[1].0@ == "file"@ && f[1].1.jv() == JsonV::Str(self.file@));
            assert(f[2].0@ == "arguments"@ && f[2].1.jv() == JsonV::Array(string_values(views(self.arguments@))));
            assert(Json::jv_fields(f) =~= seq![
                ("directory"@, JsonV::Str(self.directory@)),
                ("file"@, JsonV::Str(self.file@)),
                ("arguments"@, JsonV::Array(string_values(views(self.arguments@)))),
            ]);
        }
        j
    }
}

/// The database entries of a build's units, all run from `cwd`: each unit's
/// driver, then its arguments.
pub fn entries_for_units(units: &Vec<CompileUnit>, cwd: &str) -> (r: Vec<CompileCommandEntry>)
    ensures
        r@.len() == units@.len(),
        forall|i: int| 0 <= i < r@.len() ==> {
            &&& (#[trigger] r@[i]).directory@ == cwd@
            &&& r@[i].file@ == units@[i].source@
            &&& views(r@[i].arguments@) == seq![units@[i].language.driver_spec()] + views(units@[i].args@)
        },
{
    let mut out: Vec<CompileCommandEntry> = Vec::new();
    let mut i: usize = 0;
    while i < units.len()
        invariant
            i <= units@.len(),
            out@.len() == i,
            forall|k: int| 0 <= k < i ==> {
                &&& (#[trigger] out@[k]).directory@ == cwd@
                &&& out@[k].file@ == units@[k].source@
                &&& views(out@[k].arguments@) == seq![units@[k].language.driver_spec()] + views(units@[k].args@)
            },
        decreases units@.len() - i,
    {
        let u = &units[i];
        let mut args: Vec<String> = Vec::new();
        args.push(String::from_str(u.language.driver()));
        let mut j: usize = 0;
        while j < u.args.len()
            invariant
                j <= u.args@.len(),
                views(args@) == seq![u.language.driver_spec()] + views(u.args@).subrange(0, j as int),
            decreases u.args@.len() - j,
        {
            let ghost b = args@;
            args.push(u.args[j].clone());
            proof {
                assert(views(args@) =~= views(b).push(u.args@[j as int]@));
                assert(views(u.args@).subrange(0, j + 1) =~= views(u.args@).subrange(0, j as int).push(u.args@[j as int]@));
            }
            j = j + 1;
        }
        proof {
            assert(views(u.args@).subrange(0, u.args@.len() as int) =~= views(u.args@));
        }
        let ghost before = out@;
        out.push(CompileCommandEntry { directory: String::from_str(cwd), file: u.source.clone(), arguments: args });
        proof {
            assert forall|k: int| 0 <= k < i + 1 implies {
                &&& (#[trigger] out@[k]).directory@ == cwd@
                &&& out@[k].file@ == units@[k].source@
                &&& views(out@[k].arguments@) == seq![units@[k].language.driver_spec()] + views(units@[k].args@)
            } by {
                if k < i {
                    assert(out@[k] == before[k]);
                }
            }
        }
        i = i + 1;
    }
    out
}

/// The text of the database: an array of the entries' records, indented
/// for people as well as tools.
pub fn database_text(entries: &[CompileCommandEntry]) -> (s: String)
    ensures
        s@ == crate::json::pretty_spec(JsonV::Array(entries@.map_values(|e: CompileCommandEntry| entry_json(e))), 0),
{
    let mut items: Vec<Json> = Vec::new();
    let mut i: usize = 0;
    while i < entries.len()
        invariant
            i <= entries@.len(),
            Json::jv_items(items@) == entries@.map_values(|e: CompileCommandEntry| entry_json(e)).subrange(0, i as int),
            forall|k: int| 0 <= k < items@.len() ==> crate::json::depth((#[trigger] items@[k]).jv()) <= 2,
        decreases entries@.len() - i,
    {
        let ghost before = items@;
        let j = entries[i].to_json();
        proof {
            let e = entries@[i as int];
            assert(crate::json::depth(entry_json(e)) <= 2) by {
                let a = string_values(views(e.arguments@));
                assert forall|i: int| 0 <= i < a.len() implies crate::json::depth(#[trigger] a[i]) == 0 by {
                    assert(a[i] == JsonV::Str(views(e.arguments@)[i]));
                }
                lemma_strings_depth(a, a.len());
                let fs = seq![
                    ("directory"@, JsonV::Str(e.directory@)),
                    ("file"@, JsonV::Str(e.file@)),
                    ("arguments"@, JsonV::Array(a)),
                ];
                assert(crate::json::depth(JsonV::Array(a)) == 1);
                assert(crate::json::depth(fs[0].1) == 0);
                assert(crate::json::depth(fs[1].1) == 0);
                assert(crate::json::depth(fs[2].1) == 1);
                assert(crate::json::fields_depth(fs, 0) == 0);
                assert(crate::json::fields_depth(fs, 1) == 0);
                assert(crate::json::fields_depth(fs, 2) == 0);
                assert(crate::json::fields_depth(fs, 3) == 1);
                assert(entry_json(e) == JsonV::Object(fs));
            }
        }
        items.push(j);
        proof {
            assert(items@.drop_last() =~= before);
            assert(entries@.map_values(|e: CompileCommandEntry| entry_json(e)).subrange(0, i + 1) =~= entries@.map_values(|e: CompileCommandEntry| entry_json(e)).subrange(0, i as int).push(entry_json(entries@[i as int])));
        }
        i = i + 1;
    }
    proof {
        assert(entries@.map_values(|e: CompileCommandEntry| entry_json(e)).subrange(0, entries@.len() as int) =~= entries@.map_values(|e: CompileCommandEntry| entry_json(e)));
    }
    let doc = Json::Array(items);
    proof {
        lemma_items_depth_bound(items@, items@.len());
        crate::json::lemma_jv_items(items@);
        assert(doc.jv() == JsonV::Array(Json::jv_items(items@)));
        assert(crate::json::depth(doc.jv()) <= 3);
    }
    doc.render_pretty()
}

proof fn lemma_strings_depth(a: Seq<JsonV>, k: nat)
    requires
        k <= a.len(),
        forall|i: int| 0 <= i < a.len() ==> crate::json::depth(#[trigger] a[i]) == 0,
    ensures
        crate::json::items_depth(a, k) == 0,
    decreases k,
{
    if k > 0 {
        lemma_strings_depth(a, (k - 1) as nat);
    }
}

proof fn lemma_items_depth_bound(items: Seq<Json>, k: nat)
    requires
        k <= items.len(),
        forall|i: int| 0 <= i < items.len() ==> crate::json::depth((#[trigger] items[i]).jv()) <= 2,
    ensures
        crate::json::items_depth(Json::jv_items(items), k) <= 2,
    decreases k,
{
    crate::json::lemma_jv_items(items);
    if k > 0 {
        lemma_items_depth_bound(items, (k - 1) as nat);
    }
}

} // verus!
