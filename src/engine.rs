//! The configuration: which columns of which tables are rewritten, and by which rule.
use vstd::prelude::*;
use crate::json::JsonTransformer;
use crate::transform::{Outcome, ScalarRule, TransformContext, TransformError, seed_of};

verus! {

/// A rule of any kind.
pub enum Transformers {
    Scalar(ScalarRule),
    Json(JsonTransformer),
}

impl Transformers {
    /// What the rule does with `value` under `seed`.
    #[verifier::opaque]
    pub open spec fn outcome(&self, name: Seq<char>, value: Seq<char>, seed: u64) -> Outcome {
        match self {
            Transformers::Scalar(r) => r.outcome(name, value, seed),
            Transformers::Json(r) => r.outcome(name, value, seed),
        }
    }

    /// Applies the rule to one field: a replacement, `None` to keep the value, or a failure.
    pub fn transform(&self, field_name: &str, field_value: &str, ctx: &Option<TransformContext>) -> (r:
        Result<Option<String>, TransformError>)
        ensures
            match self.outcome(field_name@, field_value@, seed_of(*ctx)) {
                Ok(Some(v)) => r matches Ok(Some(s)) && s@ == v,
                Ok(None) => r matches Ok(None),
                Err((k, v)) => r matches Err(e) && e.kind == k && e.field_value@ == v
                    && e.field_name@ == field_name@,
            },
    {
        proof {
            reveal(Transformers::outcome);
        }
        match self {
            Transformers::Scalar(r) => r.transform(field_name, field_value, ctx),
            Transformers::Json(r) => r.transform(field_name, field_value, ctx),
        }
    }
}

/// A column and the rule bound to it.
pub struct ColumnRule {
    pub column: String,
    pub rule: Transformers,
}

/// The rules of one table; `name` is `schema.table` or a bare table name.
pub struct TableConfig {
    pub name: String,
    pub rules: Vec<ColumnRule>,
}

/// All configured tables.
pub struct Settings {
    pub tables: Vec<TableConfig>,
}

/// The first configured table whose name is one of `names`.
pub open spec fn find_table_spec(tables: Seq<TableConfig>, names: Seq<Seq<char>>) -> Option<int> {
    if exists|i: int| 0 <= i < tables.len() && names.contains(#[trigger] tables[i].name@) {
        Some(
            choose|i: int|
                0 <= i < tables.len() && names.contains(#[trigger] tables[i].name@) && forall|j: int|
                    0 <= j < i ==> !names.contains(#[trigger] tables[j].name@),
        )
    } else {
        None
    }
}

/// The first rule bound to `column`.
pub open spec fn rule_for_spec(rules: Seq<ColumnRule>, column: Seq<char>) -> Option<int> {
    if exists|i: int| 0 <= i < rules.len() && #[trigger] rules[i].column@ == column {
        Some(
            choose|i: int|
                0 <= i < rules.len() && #[trigger] rules[i].column@ == column && forall|j: int|
                    0 <= j < i ==> #[trigger] rules[j].column@ != column,
        )
    } else {
        None
    }
}

proof fn lemma_first_index_unique(tables: Seq<TableConfig>, names: Seq<Seq<char>>, i: int)
    requires
        0 <= i < tables.len(),
        names.contains(tables[i].name@),
        forall|j: int| 0 <= j < i ==> !names.contains(#[trigger] tables[j].name@),
    ensures
        find_table_spec(tables, names) == Some(i),
{
    let k = choose|k: int|
        0 <= k < tables.len() && names.contains(#[trigger] tables[k].name@) && forall|j: int|
            0 <= j < k ==> !names.contains(#[trigger] tables[j].name@);
    assert(k == i) by {
        if k < i {
            assert(!names.contains(tables[k].name@));
        } else if k > i {
            assert(!names.contains(tables[i].name@));
        }
    }
}

fn contains_string(v: &Vec<String>, s: &String) -> (r: bool)
    ensures
        r == v.deep_view().contains(s@),
{
    let mut i: usize = 0;
    while i < v.len()
        invariant
            i <= v@.len(),
            forall|k: int| 0 <= k < i ==> v@[k]@ != s@,
        decreases v@.len() - i,
    {
        if v[i] == *s {
            assert(v.deep_view()[i as int] == s@);
            return true;
        }
        i = i + 1;
    }
    assert(!v.deep_view().contains(s@)) by {
        if v.deep_view().contains(s@) {
            let k = choose|k: int| 0 <= k < v.deep_view().len() && v.deep_view()[k] == s@;
            assert(v@[k]@ == s@);
        }
    }
    false
}

impl Settings {
    pub fn new(tables: Vec<TableConfig>) -> (r: Self)
        ensures
            r.tables == tables,
    {
        Settings { tables }
    }

    /// The position of the first configured table whose name is one of `names`.
    pub fn find_table_index(&self, names: &Vec<String>) -> (r: Option<usize>)
        ensures
            match find_table_spec(self.tables@, names.deep_view()) {
                Some(i) => r matches Some(k) && k as int == i,
                None => r is None,
            },
            r matches Some(k) ==> k < self.tables@.len(),
    {
        let mut i: usize = 0;
        while i < self.tables.len()
            invariant
                i <= self.tables@.len(),
                forall|j: int| 0 <= j < i ==> !names.deep_view().contains(#[trigger] self.tables@[j].name@),
            decreases self.tables@.len() - i,
        {
            if contains_string(names, &self.tables[i].name) {
                proof { lemma_first_index_unique(self.tables@, names.deep_view(), i as int); }
                return Some(i);
            }
            i = i + 1;
        }
        None
    }

    /// The first configured table whose name is one of `names`.
    pub fn find_table(&self, names: &Vec<String>) -> (r: Option<&TableConfig>)
        ensures
            match find_table_spec(self.tables@, names.deep_view()) {
                Some(i) => r matches Some(t) && *t == self.tables@[i],
                None => r is None,
            },
    {
        match self.find_table_index(names) {
            Some(i) => Some(&self.tables[i]),
            None => None,
        }
    }
}

impl TableConfig {
    /// The position of the first rule bound to `column`.
    pub fn rule_index(&self, column: &String) -> (r: Option<usize>)
        ensures
            match rule_for_spec(self.rules@, column@) {
                Some(i) => r matches Some(k) && k as int == i,
                None => r is None,
            },
            r matches Some(k) ==> k < self.rules@.len(),
    {
        let mut i: usize = 0;
        while i < self.rules.len()
            invariant
                i <= self.rules@.len(),
                forall|j: int| 0 <= j < i ==> #[trigger] self.rules@[j].column@ != column@,
            decreases self.rules@.len() - i,
        {
            if self.rules[i].column == *column {
                let ghost k = choose|k: int|
                    0 <= k < self.rules@.len() && #[trigger] self.rules@[k].column@ == column@ && forall|j: int|
                        0 <= j < k ==> #[trigger] self.rules@[j].column@ != column@;
                assert(k == i) by {
                    if k < i {
                        assert(self.rules@[k].column@ != column@);
                    } else if k > i {
                        assert(self.rules@[i as int].column@ != column@);
                    }
                }
                return Some(i);
            }
            i = i + 1;
        }
        None
    }

    /// The rule bound to `column`, if any.
    pub fn rule_for(&self, column: &String) -> (r: Option<&Transformers>)
        ensures
            match rule_for_spec(self.rules@, column@) {
                Some(i) => r matches Some(t) && *t == self.rules@[i].rule,
                None => r is None,
            },
    {
        match self.rule_index(column) {
            Some(i) => Some(&self.rules[i].rule),
            None => None,
        }
    }
}

/// The configuration together with what the rules are given.
pub struct Engine {
    pub settings: Settings,
    pub ctx: Option<TransformContext>,
}

impl Engine {
    pub fn new(settings: Settings) -> (r: Self)
        ensures
            r.settings == settings,
            r.ctx is None,
    {
        Engine { settings, ctx: None }
    }

    /// Readies the rules; the rules here keep no state, so nothing changes.
    pub fn initialize(&mut self)
        ensures
            *final(self) == *old(self),
    {
    }
}

} // verus!
