//! Clang `-ftime-trace` aggregation for `deft build --trace`: merging the
//! per-unit trace documents clang leaves next to each object file into one
//! Chrome Trace Event profile, and picking the slowest individual headers
//! and templates for the terminal summary.
//!
//! Reading the object directory, writing `deft_profile.json`, removing the
//! per-unit files and printing durations in milliseconds are the caller's;
//! every decision about which events are kept and how they are rewritten is
//! made here.
use vstd::prelude::*;
use crate::json::{member_index, Json, JsonV};
use crate::text::{cat, owned};

verus! {

/// One duration event with a concrete `detail` (a header path, a template
/// instantiation's symbol name): the granular events worth surfacing in a
/// bottleneck summary.
#[derive(Debug, Clone)]
pub struct Bottleneck {
    pub source_file: String,
    pub name: String,
    pub detail: String,
    pub dur_us: i64,
}

/// The member `key` of an object (the first with that key).
#[verifier::opaque]
pub open spec fn member(j: Json, key: Seq<char>) -> Option<Json> {
    match j {
        Json::Object(fs) => match member_index(fs@, key) {
            Some(i) => Some(fs@[i].1),
            None => None,
        },
        _ => None,
    }
}

/// The text of a string value.
pub open spec fn str_of(j: Option<Json>) -> Option<Seq<char>> {
    match j {
        Some(Json::String(s)) => Some(s@),
        _ => None,
    }
}

/// The value of a number.
pub open spec fn i64_of(j: Option<Json>) -> Option<i64> {
    match j {
        Some(Json::Number(n)) => Some(n),
        _ => None,
    }
}

/// The events of a trace document: its `traceEvents` array.
pub open spec fn trace_events(doc: Json) -> Option<Seq<Json>> {
    match member(doc, "traceEvents"@) {
        Some(Json::Array(v)) => Some(v@),
        _ => None,
    }
}

/// Whether an event is a complete duration event (`"ph": "X"`).
pub open spec fn is_duration(e: Json) -> bool {
    str_of(member(e, "ph"@)) == Some("X"@)
}

/// An event's name, `?` when it has none.
pub open spec fn event_name(e: Json) -> Seq<char> {
    match str_of(member(e, "name"@)) {
        Some(n) => n,
        None => "?"@,
    }
}

/// A numeric member of an event, `0` when absent.
pub open spec fn event_number(e: Json, key: Seq<char>) -> i64 {
    match i64_of(member(e, key)) {
        Some(n) => n,
        None => 0,
    }
}

/// An event's `args.detail`.
pub open spec fn event_detail(e: Json) -> Option<Seq<char>> {
    match member(e, "args"@) {
        Some(a) => str_of(member(a, "detail"@)),
        None => None,
    }
}

/// The `process_name` metadata event that groups one unit's events into
/// their own track.
pub open spec fn process_json(pid: usize, source_file: Seq<char>) -> JsonV {
    JsonV::Object(seq![
        ("pid"@, JsonV::Number((pid as i64) as int)),
        ("tid"@, JsonV::Number(0)),
        ("ph"@, JsonV::Str("M"@)),
        ("name"@, JsonV::Str("process_name"@)),
        ("args"@, JsonV::Object(seq![("name"@, JsonV::Str(source_file))])),
    ])
}

/// The members every merged duration event has.
pub open spec fn event_members(pid: usize, e: Json) -> Seq<(Seq<char>, JsonV)> {
    seq![
        ("pid"@, JsonV::Number((pid as i64) as int)),
        ("tid"@, JsonV::Number(0)),
        ("ph"@, JsonV::Str("X"@)),
        ("ts"@, JsonV::Number(event_number(e, "ts"@) as int)),
        ("dur"@, JsonV::Number(event_number(e, "dur"@) as int)),
        ("name"@, JsonV::Str(event_name(e))),
    ]
}

/// The `args` member of a merged duration event: its detail, when it has
/// one.
pub open spec fn detail_members(e: Json) -> Seq<(Seq<char>, JsonV)> {
    match event_detail(e) {
        Some(d) => seq![("args"@, JsonV::Object(seq![("detail"@, JsonV::Str(d))]))],
        None => Seq::empty(),
    }
}

/// A duration event as the merged profile holds it, under the unit's pid.
pub open spec fn event_json(pid: usize, e: Json) -> JsonV {
    JsonV::Object(event_members(pid, e) + detail_members(e))
}

/// The members of an object without those named `key`, in order.
pub open spec fn without_key(fields: Seq<(Seq<char>, JsonV)>, key: Seq<char>) -> Seq<(Seq<char>, JsonV)>
    decreases fields.len(),
{
    if fields.len() == 0 {
        Seq::empty()
    } else {
        without_key(fields.drop_last(), key) + if fields.last().0 == key {
            Seq::empty()
        } else {
            seq![fields.last()]
        }
    }
}

/// Any other event as the merged profile holds it: an object gets the
/// unit's `pid` in place of its own, anything else is kept as it is.
pub open spec fn other_json(pid: usize, e: Json) -> JsonV {
    match e.jv() {
        JsonV::Object(fields) => JsonV::Object(
            seq![("pid"@, JsonV::Number((pid as i64) as int))] + without_key(fields, "pid"@),
        ),
        v => v,
    }
}

/// One event as the merged profile holds it.
pub open spec fn merged_json(pid: usize, e: Json) -> JsonV {
    if is_duration(e) {
        event_json(pid, e)
    } else {
        other_json(pid, e)
    }
}

/// The merged events of one unit: every event, in order.
pub open spec fn unit_events(pid: usize, events: Seq<Json>) -> Seq<JsonV>
    decreases events.len(),
{
    if events.len() == 0 {
        Seq::empty()
    } else {
        unit_events(pid, events.drop_last()).push(merged_json(pid, events.last()))
    }
}

/// A bottleneck as a tuple: source file, name, detail, duration.
pub open spec fn bottleneck_view(b: Bottleneck) -> (Seq<char>, Seq<char>, Seq<char>, i64) {
    (b.source_file@, b.name@, b.detail@, b.dur_us)
}

/// The bottlenecks of one unit: its duration events with a detail.
pub open spec fn unit_bottlenecks(source_file: Seq<char>, events: Seq<Json>) -> Seq<(Seq<char>, Seq<char>, Seq<char>, i64)>
    decreases events.len(),
{
    if events.len() == 0 {
        Seq::empty()
    } else {
        unit_bottlenecks(source_file, events.drop_last()) + if is_duration(events.last())
            && event_detail(events.last()) is Some {
            seq![(source_file, event_name(events.last()), event_detail(events.last()).unwrap(),
                event_number(events.last(), "dur"@))]
        } else {
            Seq::empty()
        }
    }
}

fn member_str<'a>(e: &'a Json, key: &str) -> (r: Option<&'a str>)
    ensures
        match r {
            Some(s) => str_of(member(*e, key@)) == Some(s@),
            None => str_of(member(*e, key@)) is None,
        },
{
    proof {
        reveal(member);
    }
    match e.get(key) {
        Some(v) => v.as_str(),
        None => None,
    }
}

fn member_i64(e: &Json, key: &str) -> (r: i64)
    ensures
        r == match i64_of(member(*e, key@)) {
            Some(n) => n,
            None => 0,
        },
{
    proof {
        reveal(member);
    }
    match e.get(key) {
        Some(v) => match v.as_i64() {
            Some(n) => n,
            None => 0,
        },
        None => 0,
    }
}

fn detail_of<'a>(e: &'a Json) -> (r: Option<&'a str>)
    ensures
        match r {
            Some(s) => event_detail(*e) == Some(s@),
            None => event_detail(*e) is None,
        },
{
    proof {
        reveal(member);
    }
    match e.get("args") {
        Some(a) => member_str(a, "detail"),
        None => None,
    }
}

fn pid_json(pid: usize) -> (j: Json)
    ensures
        j.jv() == JsonV::Number((pid as i64) as int),
{
    #[verifier::truncate]
    let p = pid as i64;
    Json::Number(p)
}

fn process_event(pid: usize, source_file: &str) -> (j: Json)
    ensures
        j.jv() == process_json(pid, source_file@),
{
    let mut args: Vec<(String, Json)> = Vec::new();
    args.push((String::from_str("name"), Json::str(source_file)));
    let mut fields: Vec<(String, Json)> = Vec::new();
    fields.push((String::from_str("pid"), pid_json(pid)));
    fields.push((String::from_str("tid"), Json::Number(0)));
    fields.push((String::from_str("ph"), Json::str("M")));
    fields.push((String::from_str("name"), Json::str("process_name")));
    fields.push((String::from_str("args"), Json::Object(args)));
    proof {
        crate::json::lemma_jv_fields(args@);
        assert(Json::jv_fields(args@) =~= seq![("name"@, JsonV::Str(source_file@))]);
        let f = fields@;
        crate::json::lemma_jv_fields(f);
        assert(f.len() == 5);
        assert(Json::jv_fields(f) =~= seq![
            ("pid"@, JsonV::Number((pid as i64) as int)),
            ("tid"@, JsonV::Number(0)),
            ("ph"@, JsonV::Str("M"@)),
            ("name"@, JsonV::Str("process_name"@)),
            ("args"@, JsonV::Object(seq![("name"@, JsonV::Str(source_file@))])),
        ]);
    }
    Json::Object(fields)
}

fn base_members(pid: usize, e: &Json) -> (fields: Vec<(String, Json)>)
    ensures
        Json::jv_fields(fields@) == event_members(pid, *e),
{
    let name = match member_str(e, "name") {
        Some(n) => n,
        None => "?",
    };
    let dur = member_i64(e, "dur");
    let ts = member_i64(e, "ts");
    let mut fields: Vec<(String, Json)> = Vec::new();
    fields.push((String::from_str("pid"), pid_json(pid)));
    fields.push((String::from_str("tid"), Json::Number(0)));
    fields.push((String::from_str("ph"), Json::str("X")));
    fields.push((String::from_str("ts"), Json::Number(ts)));
    fields.push((String::from_str("dur"), Json::Number(dur)));
    fields.push((String::from_str("name"), Json::str(name)));
    proof {
        crate::json::lemma_jv_fields(fields@);
        assert(Json::jv_fields(fields@) =~= event_members(pid, *e));
    }
    fields
}

fn duration_event(pid: usize, e: &Json) -> (j: Json)
    ensures
        j.jv() == event_json(pid, *e),
{
    let mut fields = base_members(pid, e);
    let ghost base = fields@;
    match detail_of(e) {
        Some(d) => {
            let mut args: Vec<(String, Json)> = Vec::new();
            args.push((String::from_str("detail"), Json::str(d)));
            proof {
                crate::json::lemma_jv_fields(args@);
                assert(Json::jv_fields(args@) =~= seq![("detail"@, JsonV::Str(d@))]);
            }
            fields.push((String::from_str("args"), Json::Object(args)));
            proof {
                assert(fields@.drop_last() == base);
                assert(event_detail(*e) == Some(d@));
                assert(detail_members(*e) == seq![("args"@, JsonV::Object(seq![("detail"@, JsonV::Str(d@))]))]);
                assert(fields@.last().1.jv() == JsonV::Object(seq![("detail"@, JsonV::Str(d@))]));
                assert(Json::jv_fields(fields@) == Json::jv_fields(base).push((fields@.last().0@, fields@.last().1.jv())));
                assert(Json::jv_fields(fields@) =~= event_members(pid, *e) + detail_members(*e));
            }
        },
        None => {
            proof {
                assert(Json::jv_fields(fields@) =~= event_members(pid, *e) + detail_members(*e));
            }
        },
    }
    Json::Object(fields)
}

fn other_event(pid: usize, e: &Json) -> (j: Json)
    ensures
        j.jv() == other_json(pid, *e),
{
    match e {
        Json::Object(fields) => {
            let mut out: Vec<(String, Json)> = Vec::new();
            out.push((String::from_str("pid"), pid_json(pid)));
            let ghost head = seq![("pid"@, JsonV::Number((pid as i64) as int))];
            proof {
                crate::json::lemma_jv_fields(out@);
                assert(Json::jv_fields(out@) =~= head);
                assert(fields@.subrange(0, 0) =~= Seq::<(String, Json)>::empty());
                assert(without_key(Json::jv_fields(fields@.subrange(0, 0)), "pid"@) =~= Seq::<(Seq<char>, JsonV)>::empty());
                assert(Json::jv_fields(out@) =~= head + without_key(Json::jv_fields(fields@.subrange(0, 0)), "pid"@));
            }
            let mut i: usize = 0;
            while i < fields.len()
                invariant
                    i <= fields@.len(),
                    Json::jv_fields(out@) == head + without_key(Json::jv_fields(fields@.subrange(0, i as int)), "pid"@),
                decreases fields@.len() - i,
            {
                let ghost before = out@;
                let ghost sub = fields@.subrange(0, i + 1);
                proof {
                    assert(sub.drop_last() =~= fields@.subrange(0, i as int));
                    assert(Json::jv_fields(sub) == Json::jv_fields(sub.drop_last()).push((sub.last().0@, sub.last().1.jv())));
                    assert(Json::jv_fields(sub).drop_last() =~= Json::jv_fields(fields@.subrange(0, i as int)));
                }
                if !crate::text::str_eq(fields[i].0.as_str(), "pid") {
                    let k = crate::text::owned(fields[i].0.as_str());
                    let c = fields[i].1.copy();
                    out.push((k, c));
                    proof {
                        assert(out@.drop_last() == before);
                        assert(Json::jv_fields(out@) =~= head + without_key(Json::jv_fields(sub), "pid"@));
                    }
                } else {
                    proof {
                        assert(Json::jv_fields(out@) =~= head + without_key(Json::jv_fields(sub), "pid"@));
                    }
                }
                i = i + 1;
            }
            proof {
                assert(fields@.subrange(0, fields@.len() as int) =~= fields@);
            }
            Json::Object(out)
        },
        _ => e.copy(),
    }
}

fn merge_event(pid: usize, source_file: &str, e: &Json, merged: &mut Vec<Json>, bottlenecks: &mut Vec<Bottleneck>)
    ensures
        Json::jv_items(final(merged)@) == Json::jv_items(old(merged)@).push(merged_json(pid, *e)),
        final(bottlenecks)@.map_values(|b: Bottleneck| bottleneck_view(b))
            == old(bottlenecks)@.map_values(|b: Bottleneck| bottleneck_view(b)) + if is_duration(*e)
            && event_detail(*e) is Some {
            seq![(source_file@, event_name(*e), event_detail(*e).unwrap(), event_number(*e, "dur"@))]
        } else {
            Seq::<(Seq<char>, Seq<char>, Seq<char>, i64)>::empty()
        },
{
    let is_x = match member_str(e, "ph") {
        Some(s) => crate::text::str_eq(s, "X"),
        None => false,
    };
    if !is_x {
        let ghost mb = merged@;
        merged.push(other_event(pid, e));
        proof {
            assert(merged@.drop_last() == mb);
            assert(bottlenecks@.map_values(|b: Bottleneck| bottleneck_view(b))
                =~= bottlenecks@.map_values(|b: Bottleneck| bottleneck_view(b)) + Seq::<(Seq<char>, Seq<char>, Seq<char>, i64)>::empty());
        }
        return;
    }
    match detail_of(e) {
        Some(d) => {
            let name = match member_str(e, "name") {
                Some(n) => n,
                None => "?",
            };
            let ghost bb = bottlenecks@;
            bottlenecks.push(Bottleneck {
                source_file: owned(source_file),
                name: owned(name),
                detail: owned(d),
                dur_us: member_i64(e, "dur"),
            });
            proof {
                assert(bottlenecks@.map_values(|b: Bottleneck| bottleneck_view(b))
                    =~= bb.map_values(|b: Bottleneck| bottleneck_view(b)).push(bottleneck_view(bottlenecks@.last())));
            }
        },
        None => {
            proof {
                assert(bottlenecks@.map_values(|b: Bottleneck| bottleneck_view(b))
                    =~= bottlenecks@.map_values(|b: Bottleneck| bottleneck_view(b)) + Seq::<(Seq<char>, Seq<char>, Seq<char>, i64)>::empty());
            }
        },
    }
    let ghost mb = merged@;
    merged.push(duration_event(pid, e));
    proof {
        assert(merged@.drop_last() == mb);
    }
}

/// Fold one unit's trace document into the merged profile: when it has a
/// `traceEvents` array, append the unit's `process_name` event and every
/// one of its events (under `pid`) to `merged` and its detailed events to
/// `bottlenecks`, and report `true`; otherwise change nothing and report
/// `false` (the file is skipped and kept).
pub fn merge_unit(pid: usize, source_file: &str, doc: &Json, merged: &mut Vec<Json>, bottlenecks: &mut Vec<Bottleneck>) -> (taken: bool)
    ensures
        taken == trace_events(*doc) is Some,
        !taken ==> final(merged)@ == old(merged)@ && final(bottlenecks)@ == old(bottlenecks)@,
        taken ==> Json::jv_items(final(merged)@) == Json::jv_items(old(merged)@)
            + seq![process_json(pid, source_file@)] + unit_events(pid, trace_events(*doc).unwrap()),
        taken ==> final(bottlenecks)@.map_values(|b: Bottleneck| bottleneck_view(b))
            == old(bottlenecks)@.map_values(|b: Bottleneck| bottleneck_view(b))
            + unit_bottlenecks(source_file@, trace_events(*doc).unwrap()),
{
    proof {
        reveal(member);
    }
    let events = match doc.get("traceEvents") {
        Some(v) => match v.as_array() {
            Some(items) => items,
            None => return false,
        },
        None => return false,
    };
    let ghost evs = trace_events(*doc).unwrap();
    let ghost m0 = Json::jv_items(merged@);
    let ghost b0 = bottlenecks@.map_values(|b: Bottleneck| bottleneck_view(b));
    let ghost m1 = m0 + seq![process_json(pid, source_file@)];
    let p = process_event(pid, source_file);
    merged.push(p);
    proof {
        assert(events@ == evs);
        assert(merged@.drop_last() == old(merged)@);
        assert(evs.subrange(0, 0) =~= Seq::<Json>::empty());
        assert(bottlenecks@.map_values(|b: Bottleneck| bottleneck_view(b)) =~= b0 + unit_bottlenecks(source_file@, evs.subrange(0, 0)));
        assert(Json::jv_items(merged@) =~= m1 + unit_events(pid, evs.subrange(0, 0)));
    }
    let mut i: usize = 0;
    while i < events.len()
        invariant
            i <= events@.len(),
            events@ == evs,
            Json::jv_items(merged@) == m1 + unit_events(pid, evs.subrange(0, i as int)),
            bottlenecks@.map_values(|b: Bottleneck| bottleneck_view(b)) == b0 + unit_bottlenecks(source_file@, evs.subrange(0, i as int)),
        decreases events@.len() - i,
    {
        let e = &events[i];
        proof {
            assert(evs.subrange(0, i + 1).drop_last() =~= evs.subrange(0, i as int));
            assert(evs.subrange(0, i + 1).last() == *e);
        }
        merge_event(pid, source_file, e, merged, bottlenecks);
        proof {
            assert(bottlenecks@.map_values(|b: Bottleneck| bottleneck_view(b)) =~= b0 + unit_bottlenecks(source_file@, evs.subrange(0, i + 1)));
            assert(Json::jv_items(merged@) =~= m1 + unit_events(pid, evs.subrange(0, i + 1)));
        }
        i = i + 1;
    }
    proof {
        assert(evs.subrange(0, evs.len() as int) =~= evs);
    }
    true
}

/// The merged profile document, `{"traceEvents": [...]}`; `None` when no
/// event was merged (nothing is written then).
pub fn profile_document(merged: Vec<Json>) -> (r: Option<Json>)
    ensures
        merged@.len() == 0 ==> r is None,
        merged@.len() > 0 ==> (r matches Some(d) && d.jv() == JsonV::Object(seq![
            ("traceEvents"@, JsonV::Array(Json::jv_items(merged@))),
        ])),
{
    if merged.len() == 0 {
        return None;
    }
    let ghost items = Json::jv_items(merged@);
    let mut fields: Vec<(String, Json)> = Vec::new();
    fields.push((String::from_str("traceEvents"), Json::Array(merged)));
    proof {
        crate::json::lemma_jv_fields(fields@);
        assert(Json::jv_fields(fields@) =~= seq![("traceEvents"@, JsonV::Array(items))]);
    }
    Some(Json::Object(fields))
}

/// `x` placed into the duration-descending `sorted` after every entry
/// that is not shorter, so equal durations keep their order.
pub open spec fn insert_slowest(sorted: Seq<(Seq<char>, Seq<char>, Seq<char>, i64)>, x: (Seq<char>, Seq<char>, Seq<char>, i64))
    -> Seq<(Seq<char>, Seq<char>, Seq<char>, i64)>
    decreases sorted.len(),
{
    if sorted.len() > 0 && sorted.last().3 < x.3 {
        insert_slowest(sorted.drop_last(), x).push(sorted.last())
    } else {
        sorted.push(x)
    }
}

/// The bottlenecks stably sorted slowest first.
pub open spec fn by_duration(v: Seq<(Seq<char>, Seq<char>, Seq<char>, i64)>) -> Seq<(Seq<char>, Seq<char>, Seq<char>, i64)>
    decreases v.len(),
{
    if v.len() == 0 {
        v
    } else {
        insert_slowest(by_duration(v.drop_last()), v.last())
    }
}

/// The summary's entries: the ten slowest bottlenecks (all of them when
/// fewer), slowest first, ties in the order they were found.
pub open spec fn top_ten(v: Seq<(Seq<char>, Seq<char>, Seq<char>, i64)>) -> Seq<(Seq<char>, Seq<char>, Seq<char>, i64)> {
    let s = by_duration(v);
    if s.len() > 10 {
        s.subrange(0, 10)
    } else {
        s
    }
}

proof fn lemma_insert_slowest_len(sorted: Seq<(Seq<char>, Seq<char>, Seq<char>, i64)>, x: (Seq<char>, Seq<char>, Seq<char>, i64))
    ensures
        insert_slowest(sorted, x).len() == sorted.len() + 1,
    decreases sorted.len(),
{
    if sorted.len() > 0 && sorted.last().3 < x.3 {
        lemma_insert_slowest_len(sorted.drop_last(), x);
    }
}

fn copy_bottleneck(b: &Bottleneck) -> (r: Bottleneck)
    ensures
        bottleneck_view(r) == bottleneck_view(*b),
{
    Bottleneck {
        source_file: b.source_file.clone(),
        name: b.name.clone(),
        detail: b.detail.clone(),
        dur_us: b.dur_us,
    }
}

/// The bottlenecks the summary shows, as [`top_ten`] describes.
pub fn top_bottlenecks(bottlenecks: &[Bottleneck]) -> (r: Vec<Bottleneck>)
    ensures
        r@.map_values(|b: Bottleneck| bottleneck_view(b)) == top_ten(bottlenecks@.map_values(|b: Bottleneck| bottleneck_view(b))),
{
    let ghost all = bottlenecks@.map_values(|b: Bottleneck| bottleneck_view(b));
    let mut out: Vec<Bottleneck> = Vec::new();
    let mut i: usize = 0;
    proof {
        assert(all.subrange(0, 0) =~= Seq::<(Seq<char>, Seq<char>, Seq<char>, i64)>::empty());
        assert(out@.map_values(|b: Bottleneck| bottleneck_view(b)) =~= Seq::<(Seq<char>, Seq<char>, Seq<char>, i64)>::empty());
    }
    while i < bottlenecks.len()
        invariant
            i <= all.len(),
            all == bottlenecks@.map_values(|b: Bottleneck| bottleneck_view(b)),
            out@.map_values(|b: Bottleneck| bottleneck_view(b)) == by_duration(all.subrange(0, i as int)),
        decreases all.len() - i,
    {
        let x = copy_bottleneck(&bottlenecks[i]);
        let ghost xv = bottleneck_view(x);
        let ghost before = out@.map_values(|b: Bottleneck| bottleneck_view(b));
        let mut j: usize = out.len();
        proof {
            assert(xv == all[i as int]);
            assert(before.subrange(0, before.len() as int) =~= before);
            assert(before.skip(before.len() as int) =~= Seq::<(Seq<char>, Seq<char>, Seq<char>, i64)>::empty());
        }
        while j > 0 && out[j - 1].dur_us < x.dur_us
            invariant
                j <= before.len(),
                out@.map_values(|b: Bottleneck| bottleneck_view(b)) == before,
                xv == bottleneck_view(x),
                insert_slowest(before, xv) == insert_slowest(before.subrange(0, j as int), xv) + before.skip(j as int),
            decreases j,
        {
            proof {
                let pre = before.subrange(0, j as int);
                assert(pre.drop_last() =~= before.subrange(0, j - 1));
                assert(pre.last() == before[j - 1]);
                assert(before[j - 1] == bottleneck_view(out@[j - 1]));
                assert(insert_slowest(pre, xv) == insert_slowest(before.subrange(0, j - 1), xv).push(before[j - 1]));
                assert(insert_slowest(before.subrange(0, j - 1), xv).push(before[j - 1]) + before.skip(j as int)
                    =~= insert_slowest(before.subrange(0, j - 1), xv) + before.skip(j - 1));
            }
            j = j - 1;
        }
        proof {
            let pre = before.subrange(0, j as int);
            if j > 0 {
                assert(before[j - 1] == bottleneck_view(out@[j - 1]));
            }
            assert(insert_slowest(pre, xv) == pre.push(xv));
            assert(pre.push(xv) + before.skip(j as int) =~= before.insert(j as int, xv));
            assert(all.subrange(0, i + 1).drop_last() =~= all.subrange(0, i as int));
            assert(all.subrange(0, i + 1).last() == xv);
        }
        let ghost out_before = out@;
        out.insert(j, x);
        proof {
            assert(out@.map_values(|b: Bottleneck| bottleneck_view(b))
                =~= out_before.map_values(|b: Bottleneck| bottleneck_view(b)).insert(j as int, xv));
        }
        i = i + 1;
    }
    proof {
        assert(all.subrange(0, all.len() as int) =~= all);
    }
    if out.len() > 10 {
        let ghost full = out@.map_values(|b: Bottleneck| bottleneck_view(b));
        out.truncate(10);
        proof {
            assert(out@.map_values(|b: Bottleneck| bottleneck_view(b)) =~= full.subrange(0, 10));
        }
    }
    out
}

/// The summary's heading for `shown` entries.
pub fn summary_heading(shown: usize) -> (s: String)
    ensures
        s@ == "\x1b[1;36m    Profile\x1b[0m top "@ + crate::text::decimal(shown as nat) + " compilation bottleneck"@
            + if shown == 1 { Seq::<char>::empty() } else { "s"@ },
{
    let n = crate::text::u64_to_string(shown as u64);
    let mut s = crate::text::cat3("\x1b[1;36m    Profile\x1b[0m top ", n.as_str(), " compilation bottleneck");
    if shown != 1 {
        crate::text::push_str(&mut s, "s");
    }
    proof {
        reveal_strlit("");
    }
    s
}

} // verus!
