//! JSON values and the rule that rewrites the parts of a JSON field that a selector picks.
use vstd::prelude::*;
use crate::transform::{Outcome, ScalarRule, TransformContext, TransformError, TransformErrorKind, seed_of};
use crate::text::concat_str;

verus! {

broadcast use vstd::std_specs::vec::group_vec_axioms, vstd::seq::group_seq_axioms;

#[verifier::external_type_specification]
#[verifier::external_body]
pub struct ExNumber(serde_json::Number);

#[verifier::external_type_specification]
#[verifier::external_body]
pub struct ExValue(serde_json::Value);

/// A JSON value; an object keeps its members in order.
pub enum Json {
    Null,
    Bool(bool),
    Number(serde_json::Number),
    Str(String),
    Array(Vec<Json>),
    Object(Vec<(String, Json)>),
}

/// The mathematical JSON value.
pub enum JsonV {
    Null,
    Bool(bool),
    Number(serde_json::Number),
    Str(Seq<char>),
    Array(Seq<JsonV>),
    Object(Seq<(Seq<char>, JsonV)>),
}

pub open spec fn views(v: Seq<Json>) -> Seq<JsonV> {
    Seq::new(v.len(), |i: int| if 0 <= i < v.len() { v[i].view() } else { JsonV::Null })
}

pub open spec fn entry_views(v: Seq<(String, Json)>) -> Seq<(Seq<char>, JsonV)> {
    Seq::new(
        v.len(),
        |i: int|
            if 0 <= i < v.len() {
                (v[i].0@, v[i].1.view())
            } else {
                (Seq::empty(), JsonV::Null)
            },
    )
}

impl Json {
    pub open spec fn view(&self) -> JsonV
        decreases self,
    {
        match self {
            Json::Null => JsonV::Null,
            Json::Bool(b) => JsonV::Bool(*b),
            Json::Number(n) => JsonV::Number(*n),
            Json::Str(s) => JsonV::Str(s@),
            Json::Array(v) => JsonV::Array(
                Seq::new(v@.len(), |i: int| if 0 <= i < v@.len() { v@[i].view() } else { JsonV::Null }),
            ),
            Json::Object(v) => JsonV::Object(
                Seq::new(
                    v@.len(),
                    |i: int|
                        if 0 <= i < v@.len() {
                            (v@[i].0@, v@[i].1.view())
                        } else {
                            (Seq::empty(), JsonV::Null)
                        },
                ),
            ),
        }
    }
}

/// The value that serde_json reads from a text, if the text is JSON.
pub uninterp spec fn parsed_json(s: Seq<char>) -> Option<JsonV>;

/// The compact text that serde_json writes for a value.
pub uninterp spec fn json_text(j: JsonV) -> Seq<char>;

/// The message of serde_json's error for a text that is not JSON.
pub uninterp spec fn json_error_text(s: Seq<char>) -> Seq<char>;

/// Relies on `serde_json::from_str::<Value>`: the value read from `s`, or,
/// where `s` is not JSON, the error's `Display` text.
#[verifier::external_body]
fn parse_json(s: &str) -> (r: Result<Json, String>)
    ensures
        match r {
            Ok(j) => parsed_json(s@) == Some(j.view()),
            Err(m) => parsed_json(s@) is None && m@ == json_error_text(s@),
        },
{
    serde_json::from_str::<serde_json::Value>(s).map(json_from_value).map_err(|e| e.to_string())
}

/// Moves a serde_json value into the library's JSON type, variant by variant.
#[verifier::external_body]
fn json_from_value(v: serde_json::Value) -> Json {
    match v {
        serde_json::Value::Null => Json::Null,
        serde_json::Value::Bool(b) => Json::Bool(b),
        serde_json::Value::Number(n) => Json::Number(n),
        serde_json::Value::String(s) => Json::Str(s),
        serde_json::Value::Array(a) => Json::Array(a.into_iter().map(json_from_value).collect()),
        serde_json::Value::Object(m) => Json::Object(m.into_iter().map(|(k, x)| (k, json_from_value(x))).collect()),
    }
}

/// Relies on `Display for serde_json::Value`: the compact JSON text of `j`.
#[verifier::external_body]
fn serialize_json(j: &Json) -> (r: String)
    ensures
        r@ == json_text(j.view()),
{
    json_to_value(j).to_string()
}

/// Copies the library's JSON type into a serde_json value, variant by variant.
#[verifier::external_body]
fn json_to_value(j: &Json) -> serde_json::Value {
    match j {
        Json::Null => serde_json::Value::Null,
        Json::Bool(b) => serde_json::Value::Bool(*b),
        Json::Number(n) => serde_json::Value::Number(n.clone()),
        Json::Str(s) => serde_json::Value::String(s.clone()),
        Json::Array(a) => serde_json::Value::Array(a.iter().map(json_to_value).collect()),
        Json::Object(m) => serde_json::Value::Object(m.iter().map(|(k, x)| (k.clone(), json_to_value(x))).collect()),
    }
}

/// One step of a selector path.
pub enum Step {
    /// `.key`: the member `key` of an object.
    Child(String),
    /// `..key`: the members `key` of objects at any depth; the search does not
    /// go on inside a member it selected.
    Descend(String),
    /// `[n]`: the element `n` of an array.
    Index(usize),
    /// `.*` or `[*]`: every member or element.
    Wildcard,
}

/// A compiled path program such as `$..user.name`.
pub struct Selector {
    pub steps: Vec<Step>,
}

/// A part of a JSON field to rewrite: where it is, which rule rewrites it, and
/// whether the rule's output is put in as a JSON string or read as JSON.
pub struct JsonField {
    pub name: String,
    pub selector: Selector,
    pub rule: ScalarRule,
    pub quote: bool,
}

/// What stands in for a field value that is not JSON.
pub enum ReplaceInvalid {
    Rule(ScalarRule),
    Json(String),
}

/// What to do with a field value that is not JSON.
pub enum OnInvalid {
    AsIs,
    ReplaceWith(ReplaceInvalid),
    Error,
}

impl Default for OnInvalid {
    /// An empty JSON object in place of the value.
    fn default() -> (r: Self)
        ensures
            r matches OnInvalid::ReplaceWith(ReplaceInvalid::Json(s)) && s@ == "{}"@,
    {
        OnInvalid::ReplaceWith(ReplaceInvalid::Json(String::from_str("{}")))
    }
}

/// Rewrites parts of a JSON field value.
pub struct JsonTransformer {
    pub fields: Vec<JsonField>,
    pub on_invalid: OnInvalid,
}

pub type Fail = (TransformErrorKind, Seq<char>);

/// How a failure inside the walk is reported for the field value `value`: a
/// replacement that is not JSON carries the field value; a failing field rule
/// carries the value it was given.
pub open spec fn reported(e: Fail, value: Seq<char>) -> Fail {
    if e.0 == TransformErrorKind::InvalidReplacement {
        (e.0, value)
    } else {
        e
    }
}

/// What the rule makes of one selected node.
pub open spec fn visit(j: JsonV, rule: ScalarRule, quote: bool, name: Seq<char>, seed: u64) -> Result<JsonV, Fail> {
    match rule.outcome(name, json_text(j), seed) {
        Err(e) => Err(e),
        Ok(None) => Ok(j),
        Ok(Some(v)) => if quote {
            Ok(JsonV::Str(v))
        } else {
            match parsed_json(v) {
                Some(p) => Ok(p),
                None => Err((TransformErrorKind::InvalidReplacement, v)),
            }
        },
    }
}

/// `j` with the nodes that `steps` select rewritten by the rule; the first
/// failure, in document order, ends the walk.
pub open spec fn walk(j: JsonV, steps: Seq<Step>, rule: ScalarRule, quote: bool, name: Seq<char>, seed: u64) -> Result<JsonV, Fail>
    decreases j, 1nat, 0nat,
{
    if steps.len() == 0 {
        visit(j, rule, quote, name, seed)
    } else {
        match j {
            JsonV::Array(items) => match walk_items(j, 0, steps, rule, quote, name, seed) {
                Ok(s) => Ok(JsonV::Array(s)),
                Err(e) => Err(e),
            },
            JsonV::Object(entries) => match walk_entries(j, 0, steps, rule, quote, name, seed) {
                Ok(s) => Ok(JsonV::Object(s)),
                Err(e) => Err(e),
            },
            _ => Ok(j),
        }
    }
}

/// The elements of the array `j` from `i` on, each walked as the first step says.
pub open spec fn walk_items(j: JsonV, i: int, steps: Seq<Step>, rule: ScalarRule, quote: bool, name: Seq<char>, seed: u64) -> Result<
    Seq<JsonV>,
    Fail,
>
    decreases j, 0nat, (if j is Array { j->Array_0.len() - i } else { 0 }) as nat,
{
    match j {
        JsonV::Array(items) => if 0 <= i < items.len() && steps.len() > 0 {
            let x = items[i];
            let first = match steps[0] {
                Step::Index(n) => if n == i {
                    walk(x, steps.drop_first(), rule, quote, name, seed)
                } else {
                    Ok(x)
                },
                Step::Wildcard => walk(x, steps.drop_first(), rule, quote, name, seed),
                Step::Descend(_) => walk(x, steps, rule, quote, name, seed),
                Step::Child(_) => Ok(x),
            };
            match first {
                Err(e) => Err(e),
                Ok(y) => match walk_items(j, i + 1, steps, rule, quote, name, seed) {
                    Err(e) => Err(e),
                    Ok(rest) => Ok(seq![y] + rest),
                },
            }
        } else {
            Ok(Seq::empty())
        },
        _ => Ok(Seq::empty()),
    }
}

/// The members of the object `j` from `i` on, each walked as the first step says.
pub open spec fn walk_entries(j: JsonV, i: int, steps: Seq<Step>, rule: ScalarRule, quote: bool, name: Seq<char>, seed: u64) -> Result<
    Seq<(Seq<char>, JsonV)>,
    Fail,
>
    decreases j, 0nat, (if j is Object { j->Object_0.len() - i } else { 0 }) as nat,
{
    match j {
        JsonV::Object(entries) => if 0 <= i < entries.len() && steps.len() > 0 {
            let k = entries[i].0;
            let x = entries[i].1;
            let first = match steps[0] {
                Step::Child(key) => if k == key@ {
                    walk(x, steps.drop_first(), rule, quote, name, seed)
                } else {
                    Ok(x)
                },
                Step::Descend(key) => if k == key@ {
                    walk(x, steps.drop_first(), rule, quote, name, seed)
                } else {
                    walk(x, steps, rule, quote, name, seed)
                },
                Step::Wildcard => walk(x, steps.drop_first(), rule, quote, name, seed),
                Step::Index(_) => Ok(x),
            };
            match first {
                Err(e) => Err(e),
                Ok(y) => match walk_entries(j, i + 1, steps, rule, quote, name, seed) {
                    Err(e) => Err(e),
                    Ok(rest) => Ok(seq![(k, y)] + rest),
                },
            }
        } else {
            Ok(Seq::empty())
        },
        _ => Ok(Seq::empty()),
    }
}

/// The fields applied in order, each to what the one before it left.
pub open spec fn apply_fields(j: JsonV, fields: Seq<JsonField>, name: Seq<char>, seed: u64) -> Result<JsonV, Fail>
    decreases fields.len(),
{
    if fields.len() == 0 {
        Ok(j)
    } else {
        match walk(j, fields[0].selector.steps@, fields[0].rule, fields[0].quote, name, seed) {
            Err(e) => Err(e),
            Ok(k) => apply_fields(k, fields.drop_first(), name, seed),
        }
    }
}

pub open spec fn prepend<T>(front: Seq<T>, r: Result<Seq<T>, Fail>) -> Result<Seq<T>, Fail> {
    match r {
        Ok(s) => Ok(front + s),
        Err(e) => Err(e),
    }
}

/// An executable result that stands for a walk's result, a failure carrying
/// the field name.
pub open spec fn agrees(r: Result<Json, TransformError>, s: Result<JsonV, Fail>, name: Seq<char>) -> bool {
    match s {
        Ok(v) => r matches Ok(x) && x.view() == v,
        Err((k, v)) => r matches Err(e) && e.kind == k && e.field_value@ == v && e.field_name@ == name,
    }
}

fn visit_exec(j: Json, rule: &ScalarRule, quote: bool, name: &str, ctx: &Option<TransformContext>) -> (r:
    Result<Json, TransformError>)
    ensures
        agrees(r, visit(j.view(), *rule, quote, name@, seed_of(*ctx)), name@),
{
    let text = serialize_json(&j);
    match rule.transform(name, text.as_str(), ctx) {
        Err(e) => Err(e),
        Ok(None) => Ok(j),
        Ok(Some(v)) => {
            if quote {
                Ok(Json::Str(v))
            } else {
                match parse_json(v.as_str()) {
                    Ok(p) => Ok(p),
                    Err(m) => Err(
                        TransformError {
                            field_name: String::from_str(name),
                            field_value: v,
                            kind: TransformErrorKind::InvalidReplacement,
                            reason: m,
                        },
                    ),
                }
            }
        },
    }
}

#[verifier::loop_isolation(false)]
fn walk_exec(
    j: Json,
    steps: &Vec<Step>,
    k: usize,
    rule: &ScalarRule,
    quote: bool,
    name: &str,
    ctx: &Option<TransformContext>,
) -> (r: Result<Json, TransformError>)
    requires
        k <= steps@.len(),
    ensures
        agrees(
            r,
            walk(j.view(), steps@.subrange(k as int, steps@.len() as int), *rule, quote, name@, seed_of(*ctx)),
            name@,
        ),
    decreases j,
{
    let ghost st = steps@.subrange(k as int, steps@.len() as int);
    let ghost jv = j.view();
    let ghost jj = j;
    if k >= steps.len() {
        assert(st.len() == 0);
        return visit_exec(j, rule, quote, name, ctx);
    }
    assert(st[0] == steps@[k as int]);
    assert(st.drop_first() =~= steps@.subrange(k + 1, steps@.len() as int));
    match j {
        Json::Array(items) => {
            let ghost orig = items@;
            let ghost its = views(orig);
            assert(jv->Array_0 =~= its);
            let mut rem = items;
            let mut out: Vec<Json> = Vec::new();
            let mut i: usize = 0;
            let n = rem.len();
            while rem.len() > 0
                invariant
                    i + rem@.len() == orig.len(),
                    n == orig.len(),
                    jj == Json::Array(items),
                    orig == items@,
                    forall|t: int| 0 <= t < rem@.len() ==> #[trigger] rem@[t] == orig[i + t],
                    prepend(views(out@), walk_items(jv, i as int, st, *rule, quote, name@, seed_of(*ctx)))
                        == walk_items(jv, 0, st, *rule, quote, name@, seed_of(*ctx)),
                    k < steps@.len(),
                    steps.len() == steps@.len(),
                    st == steps@.subrange(k as int, steps@.len() as int),
                    jv == JsonV::Array(its),
                    its == views(orig),
                decreases rem@.len(),
            {
                let x = rem.remove(0);
                assert(x == orig[i as int]);
                assert(its[i as int] == x.view());
                proof {
                    assert(decreases_to!(items => items@[i as int]));
                    assert(decreases_to!(jj => x));
                }
                let y = match &steps[k] {
                    Step::Index(m) => {
                        if *m == i {
                            walk_exec(x, steps, k + 1, rule, quote, name, ctx)
                        } else {
                            Ok(x)
                        }
                    },
                    Step::Wildcard => walk_exec(x, steps, k + 1, rule, quote, name, ctx),
                    Step::Descend(_) => walk_exec(x, steps, k, rule, quote, name, ctx),
                    Step::Child(_) => Ok(x),
                };
                match y {
                    Err(e) => {
                        return Err(e);
                    },
                    Ok(yv) => {
                        let ghost before = out@;
                        out.push(yv);
                        assert(views(out@) =~= views(before) + seq![yv.view()]);
                        assert(views(before) + (seq![yv.view()] + Seq::empty()) =~= views(out@) + Seq::<JsonV>::empty());
                        assert(forall|s: Seq<JsonV>| #![auto] views(before) + (seq![yv.view()] + s) =~= views(out@) + s);
                    },
                }
                i = i + 1;
            }
            assert(views(out@) + Seq::empty() =~= views(out@));
            assert(Json::Array(out).view()->Array_0 =~= views(out@));
            Ok(Json::Array(out))
        },
        Json::Object(entries) => {
            let ghost orig = entries@;
            let ghost its = entry_views(orig);
            assert(jv->Object_0 =~= its);
            let mut rem = entries;
            let mut out: Vec<(String, Json)> = Vec::new();
            let mut i: usize = 0;
            let n = rem.len();
            while rem.len() > 0
                invariant
                    i + rem@.len() == orig.len(),
                    n == orig.len(),
                    jj == Json::Object(entries),
                    orig == entries@,
                    forall|t: int| 0 <= t < rem@.len() ==> #[trigger] rem@[t] == orig[i + t],
                    prepend(entry_views(out@), walk_entries(jv, i as int, st, *rule, quote, name@, seed_of(*ctx)))
                        == walk_entries(jv, 0, st, *rule, quote, name@, seed_of(*ctx)),
                    k < steps@.len(),
                    steps.len() == steps@.len(),
                    st == steps@.subrange(k as int, steps@.len() as int),
                    jv == JsonV::Object(its),
                    its == entry_views(orig),
                decreases rem@.len(),
            {
                let (key, x) = rem.remove(0);
                assert((key, x) == orig[i as int]);
                assert(its[i as int] == (key@, x.view()));
                proof {
                    assert(decreases_to!(entries => entries@[i as int]));
                    assert(decreases_to!(entries@[i as int] => entries@[i as int].1));
                    assert(decreases_to!(jj => x));
                }
                let y = match &steps[k] {
                    Step::Child(c) => {
                        if key == *c {
                            walk_exec(x, steps, k + 1, rule, quote, name, ctx)
                        } else {
                            Ok(x)
                        }
                    },
                    Step::Descend(c) => {
                        if key == *c {
                            walk_exec(x, steps, k + 1, rule, quote, name, ctx)
                        } else {
                            walk_exec(x, steps, k, rule, quote, name, ctx)
                        }
                    },
                    Step::Wildcard => walk_exec(x, steps, k + 1, rule, quote, name, ctx),
                    Step::Index(_) => Ok(x),
                };
                match y {
                    Err(e) => {
                        return Err(e);
                    },
                    Ok(yv) => {
                        let ghost before = out@;
                        let ghost kv = key@;
                        out.push((key, yv));
                        assert(entry_views(out@) =~= entry_views(before) + seq![(kv, yv.view())]);
                        assert(forall|s: Seq<(Seq<char>, JsonV)>| #![auto] entry_views(before) + (seq![(kv, yv.view())] + s)
                            =~= entry_views(out@) + s);
                    },
                }
                i = i + 1;
            }
            assert(entry_views(out@) + Seq::empty() =~= entry_views(out@));
            assert(Json::Object(out).view()->Object_0 =~= entry_views(out@));
            Ok(Json::Object(out))
        },
        other => {
            Ok(other)
        },
    }
}

impl JsonTransformer {
    pub fn new(fields: Vec<JsonField>, on_invalid: OnInvalid) -> (r: Self)
        ensures
            r.fields == fields,
            r.on_invalid == on_invalid,
    {
        JsonTransformer { fields, on_invalid }
    }

    /// What the rule does with `value` under `seed`.
    pub open spec fn outcome(&self, name: Seq<char>, value: Seq<char>, seed: u64) -> Outcome {
        match parsed_json(value) {
            Some(j) => match apply_fields(j, self.fields@, name, seed) {
                Ok(r) => Ok(Some(json_text(r))),
                Err(e) => Err(reported(e, value)),
            },
            None => match self.on_invalid {
                OnInvalid::AsIs => Ok(Some(value)),
                OnInvalid::Error => Err((TransformErrorKind::InvalidJson, value)),
                OnInvalid::ReplaceWith(ReplaceInvalid::Json(s)) => Ok(Some(s@)),
                OnInvalid::ReplaceWith(ReplaceInvalid::Rule(r)) => r.outcome(name, value, seed),
            },
        }
    }

    /// Rewrites the selected parts of a JSON field value; a value that is not
    /// JSON is handled by the `on_invalid` policy.
    pub fn transform(&self, field_name: &str, field_value: &str, ctx: &Option<TransformContext>) -> (r:
        Result<Option<String>, TransformError>)
        ensures
            match self.outcome(field_name@, field_value@, seed_of(*ctx)) {
                Ok(Some(v)) => r matches Ok(Some(s)) && s@ == v,
                Ok(None) => r matches Ok(None),
                Err((k, v)) => r matches Err(e) && e.kind == k && e.field_value@ == v
                    && e.field_name@ == field_name@,
            },
            parsed_json(field_value@) is None && self.on_invalid is Error ==> (r matches Err(e)
                && e.reason@ == json_error_text(field_value@)),
    {
        match parse_json(field_value) {
            Ok(parsed) => {
                let ghost j0 = parsed.view();
                let mut value = parsed;
                let mut i: usize = 0;
                let ghost fs = self.fields@;
                assert(fs.subrange(0, fs.len() as int) =~= fs);
                while i < self.fields.len()
                    invariant
                        i <= fs.len(),
                        fs == self.fields@,
                        parsed_json(field_value@) == Some(j0),
                        apply_fields(value.view(), fs.subrange(i as int, fs.len() as int), field_name@, seed_of(*ctx))
                            == apply_fields(j0, fs, field_name@, seed_of(*ctx)),
                    decreases fs.len() - i,
                {
                    let f = &self.fields[i];
                    let ghost rest = fs.subrange(i as int, fs.len() as int);
                    assert(rest[0] == *f);
                    assert(rest.drop_first() =~= fs.subrange(i + 1, fs.len() as int));
                    assert(f.selector.steps@.subrange(0, f.selector.steps@.len() as int) =~= f.selector.steps@);
                    let ghost w = walk(value.view(), f.selector.steps@, f.rule, f.quote, field_name@, seed_of(*ctx));
                    assert(apply_fields(value.view(), rest, field_name@, seed_of(*ctx)) == match w {
                        Err(e) => Err(e),
                        Ok(k) => apply_fields(k, rest.drop_first(), field_name@, seed_of(*ctx)),
                    });
                    match walk_exec(value, &f.selector.steps, 0, &f.rule, f.quote, field_name, ctx) {
                        Ok(v) => {
                            value = v;
                        },
                        Err(e) => {
                            if e.kind == TransformErrorKind::InvalidReplacement {
                                return Err(
                                    TransformError {
                                        field_name: e.field_name,
                                        field_value: String::from_str(field_value),
                                        kind: e.kind,
                                        reason: e.reason,
                                    },
                                );
                            }
                            return Err(e);
                        },
                    }
                    i = i + 1;
                }
                assert(fs.subrange(i as int, fs.len() as int) =~= Seq::<JsonField>::empty());
                Ok(Some(serialize_json(&value)))
            },
            Err(message) => {
                match &self.on_invalid {
                    OnInvalid::AsIs => Ok(Some(String::from_str(field_value))),
                    OnInvalid::Error => Err(
                        TransformError {
                            field_name: String::from_str(field_name),
                            field_value: String::from_str(field_value),
                            kind: TransformErrorKind::InvalidJson,
                            reason: message,
                        },
                    ),
                    OnInvalid::ReplaceWith(ReplaceInvalid::Json(s)) => Ok(Some(s.clone())),
                    OnInvalid::ReplaceWith(ReplaceInvalid::Rule(r)) => r.transform(field_name, field_value, ctx),
                }
            },
        }
    }
}

/// A JSON rule with no fields gives back the value it read, written out anew.
pub proof fn lemma_no_fields_round_trip(t: JsonTransformer, name: Seq<char>, v: Seq<char>, seed: u64)
    requires
        t.fields@.len() == 0,
        parsed_json(v) is Some,
    ensures
        t.outcome(name, v, seed) == Outcome::Ok(Some(json_text(parsed_json(v)->Some_0))),
{
}

/// A selector step as plain values.
pub enum StepV {
    Child(Seq<char>),
    Descend(Seq<char>),
    Index(nat),
    Wildcard,
}

impl Step {
    pub open spec fn view(&self) -> StepV {
        match self {
            Step::Child(k) => StepV::Child(k@),
            Step::Descend(k) => StepV::Descend(k@),
            Step::Index(n) => StepV::Index(*n as nat),
            Step::Wildcard => StepV::Wildcard,
        }
    }
}

/// The end of a member name: the next `.` or `[`, or the end of the text.
pub open spec fn name_end(s: Seq<char>, i: int) -> int
    decreases s.len() - i,
{
    if 0 <= i < s.len() && s[i] != '.' && s[i] != '[' {
        name_end(s, i + 1)
    } else {
        i
    }
}

/// The end of a run of decimal digits.
pub open spec fn digits_end(s: Seq<char>, i: int) -> int
    decreases s.len() - i,
{
    if 0 <= i < s.len() && '0' <= s[i] && s[i] <= '9' {
        digits_end(s, i + 1)
    } else {
        i
    }
}

/// The number that decimal digits spell.
pub open spec fn digits_value(d: Seq<char>) -> nat
    decreases d.len(),
{
    if d.len() == 0 {
        0
    } else {
        digits_value(d.drop_last()) * 10 + ((d.last() as u32) - ('0' as u32)) as nat
    }
}

pub open spec fn cons(x: StepV, r: Option<Seq<StepV>>) -> Option<Seq<StepV>> {
    match r {
        Some(rest) => Some(seq![x] + rest),
        None => None,
    }
}

/// The steps written from position `i` on: `..name`, `.name`, `.*`, `[*]`, or
/// `[n]` with at most nine digits.
pub open spec fn parse_steps(s: Seq<char>, i: int) -> Option<Seq<StepV>>
    decreases s.len() - i,
{
    if i < 0 || i >= s.len() {
        Some(Seq::empty())
    } else if s[i] == '.' {
        if i + 1 < s.len() && s[i + 1] == '.' {
            let e = name_end(s, i + 2);
            if e > i + 2 && e <= s.len() {
                cons(StepV::Descend(s.subrange(i + 2, e)), parse_steps(s, e))
            } else {
                None
            }
        } else if i + 1 < s.len() && s[i + 1] == '*' {
            cons(StepV::Wildcard, parse_steps(s, i + 2))
        } else {
            let e = name_end(s, i + 1);
            if e > i + 1 && e <= s.len() {
                cons(StepV::Child(s.subrange(i + 1, e)), parse_steps(s, e))
            } else {
                None
            }
        }
    } else if s[i] == '[' {
        if i + 2 < s.len() && s[i + 1] == '*' && s[i + 2] == ']' {
            cons(StepV::Wildcard, parse_steps(s, i + 3))
        } else {
            let e = digits_end(s, i + 1);
            if e > i + 1 && e - (i + 1) <= 9 && e < s.len() && s[e] == ']' {
                cons(StepV::Index(digits_value(s.subrange(i + 1, e))), parse_steps(s, e + 1))
            } else {
                None
            }
        }
    } else {
        None
    }
}

/// A selector text: `$` and then its steps.
pub open spec fn parse_selector(s: Seq<char>) -> Option<Seq<StepV>> {
    if s.len() > 0 && s[0] == '$' {
        parse_steps(s, 1)
    } else {
        None
    }
}

pub open spec fn step_views(v: Seq<Step>) -> Seq<StepV> {
    v.map_values(|x: Step| x.view())
}

fn name_end_exec(s: &Vec<char>, i: usize) -> (r: usize)
    requires
        i <= s@.len(),
    ensures
        r as int == name_end(s@, i as int),
        i <= r <= s@.len(),
{
    let mut j: usize = i;
    while j < s.len() && s[j] != '.' && s[j] != '['
        invariant
            i <= j <= s@.len(),
            name_end(s@, j as int) == name_end(s@, i as int),
        decreases s@.len() - j,
    {
        j = j + 1;
    }
    j
}

fn digits_end_exec(s: &Vec<char>, i: usize) -> (r: usize)
    requires
        i <= s@.len(),
    ensures
        r as int == digits_end(s@, i as int),
        i <= r <= s@.len(),
{
    let mut j: usize = i;
    while j < s.len() && '0' <= s[j] && s[j] <= '9'
        invariant
            i <= j <= s@.len(),
            digits_end(s@, j as int) == digits_end(s@, i as int),
        decreases s@.len() - j,
    {
        j = j + 1;
    }
    j
}

proof fn lemma_digits_bound(d: Seq<char>)
    requires
        forall|k: int| 0 <= k < d.len() ==> '0' <= #[trigger] d[k] && d[k] <= '9',
    ensures
        digits_value(d) < pow10(d.len()),
    decreases d.len(),
{
    if d.len() > 0 {
        lemma_digits_bound(d.drop_last());
        assert(digits_value(d.drop_last()) + 1 <= pow10((d.len() - 1) as nat));
        assert((digits_value(d.drop_last()) + 1) * 10 <= pow10((d.len() - 1) as nat) * 10) by (nonlinear_arith)
            requires
                digits_value(d.drop_last()) + 1 <= pow10((d.len() - 1) as nat),
        ;
    }
}

pub open spec fn pow10(n: nat) -> nat
    decreases n,
{
    if n == 0 {
        1
    } else {
        pow10((n - 1) as nat) * 10
    }
}

fn digits_value_exec(s: &Vec<char>, from: usize, to: usize) -> (r: usize)
    requires
        from <= to <= s@.len(),
        to - from <= 9,
        forall|k: int| from <= k < to ==> '0' <= #[trigger] s@[k] && s@[k] <= '9',
    ensures
        r as nat == digits_value(s@.subrange(from as int, to as int)),
{
    let mut v: usize = 0;
    let mut k: usize = from;
    assert(s@.subrange(from as int, from as int) =~= Seq::<char>::empty());
    while k < to
        invariant
            from <= k <= to,
            to <= s@.len(),
            to - from <= 9,
            forall|t: int| from <= t < to ==> '0' <= #[trigger] s@[t] && s@[t] <= '9',
            v as nat == digits_value(s@.subrange(from as int, k as int)),
        decreases to - k,
    {
        let ghost pre = s@.subrange(from as int, k as int + 1);
        assert(pre.drop_last() =~= s@.subrange(from as int, k as int));
        proof {
            lemma_digits_bound(pre);
            assert(pow10(pre.len()) <= 1000000000) by {
                reveal_with_fuel(pow10, 11);
            }
        }
        let d = (s[k] as u32) - ('0' as u32);
        v = v * 10 + d as usize;
        k = k + 1;
    }
    v
}

impl Selector {
    /// Reads a selector such as `$..user.name`, `$[0].id` or `$.*`.
    pub fn parse(text: &str) -> (r: Option<Selector>)
        ensures
            match parse_selector(text@) {
                Some(steps) => r matches Some(sel) && step_views(sel.steps@) == steps,
                None => r is None,
            },
    {
        let s = crate::text::chars_of(text);
        if s.len() == 0 || s[0] != '$' {
            return None;
        }
        let mut steps: Vec<Step> = Vec::new();
        let mut i: usize = 1;
        while i < s.len()
            invariant
                1 <= i <= s@.len(),
                s@ == text@,
                s@[0] == '$',
                cons_all(step_views(steps@), parse_steps(s@, i as int)) == parse_steps(s@, 1),
            decreases s@.len() - i,
        {
            let ghost before = step_views(steps@);
            let next: usize;
            let step: Step;
            if s[i] == '.' {
                if s.len() - i > 1 && s[i + 1] == '.' {
                    let e = name_end_exec(&s, i + 2);
                    if e <= i + 2 {
                        return None;
                    }
                    step = Step::Descend(crate::text::string_of(slice_chars(&s, i + 2, e).as_slice()));
                    next = e;
                } else if s.len() - i > 1 && s[i + 1] == '*' {
                    step = Step::Wildcard;
                    next = i + 2;
                } else {
                    let e = name_end_exec(&s, i + 1);
                    if e <= i + 1 {
                        return None;
                    }
                    step = Step::Child(crate::text::string_of(slice_chars(&s, i + 1, e).as_slice()));
                    next = e;
                }
            } else if s[i] == '[' {
                if s.len() - i > 2 && s[i + 1] == '*' && s[i + 2] == ']' {
                    step = Step::Wildcard;
                    next = i + 3;
                } else {
                    let e = digits_end_exec(&s, i + 1);
                    if !(e > i + 1 && e - (i + 1) <= 9 && e < s.len() && s[e] == ']') {
                        return None;
                    }
                    proof {
                        lemma_digits_end_digits(s@, i as int + 1);
                    }
                    step = Step::Index(digits_value_exec(&s, i + 1, e));
                    next = e + 1;
                }
            } else {
                return None;
            }
            assert(parse_steps(s@, i as int) == cons(step.view(), parse_steps(s@, next as int)));
            steps.push(step);
            assert(step_views(steps@) =~= before + seq![step.view()]);
            proof {
                let r = parse_steps(s@, next as int);
                if r is Some {
                    assert(before + (seq![step.view()] + r->Some_0) =~= step_views(steps@) + r->Some_0);
                }
            }
            i = next;
        }
        assert(step_views(steps@) + Seq::empty() =~= step_views(steps@));
        Some(Selector { steps })
    }
}

pub open spec fn cons_all(front: Seq<StepV>, r: Option<Seq<StepV>>) -> Option<Seq<StepV>> {
    match r {
        Some(rest) => Some(front + rest),
        None => None,
    }
}

proof fn lemma_digits_end_digits(s: Seq<char>, i: int)
    requires
        0 <= i <= s.len(),
    ensures
        forall|k: int| i <= k < digits_end(s, i) ==> '0' <= #[trigger] s[k] && s[k] <= '9',
    decreases s.len() - i,
{
    if i < s.len() && '0' <= s[i] && s[i] <= '9' {
        lemma_digits_end_digits(s, i + 1);
    }
}

fn slice_chars(s: &Vec<char>, from: usize, to: usize) -> (r: Vec<char>)
    requires
        from <= to <= s@.len(),
    ensures
        r@ == s@.subrange(from as int, to as int),
{
    let mut r: Vec<char> = Vec::new();
    let mut i: usize = from;
    while i < to
        invariant
            from <= i <= to,
            to <= s@.len(),
            r@ == s@.subrange(from as int, i as int),
        decreases to - i,
    {
        r.push(s[i]);
        i = i + 1;
        assert(r@ =~= s@.subrange(from as int, i as int));
    }
    r
}

} // verus!
