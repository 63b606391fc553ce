//! Which tables a dump covers, and the order in which tables are dumped.
use vstd::prelude::*;
use crate::table::{InvalidTableName, PgTable, dotted, quote_table_name_spec};

verus! {

/// Table name patterns; `*` stands for any run of characters.
pub enum TableList {
    Only(Vec<String>),
    Except(Vec<String>),
}

impl TableList {
    pub open spec fn patterns(&self) -> Seq<String> {
        match self {
            TableList::Only(v) => v@,
            TableList::Except(v) => v@,
        }
    }

    /// The names in the list.
    pub fn tables(&self) -> (r: &Vec<String>)
        ensures
            r@ == self.patterns(),
    {
        match self {
            TableList::Only(v) => v,
            TableList::Except(v) => v,
        }
    }
}

impl Default for TableList {
    /// Excludes nothing.
    fn default() -> (r: Self)
        ensures
            r matches TableList::Except(v) && v@.len() == 0,
    {
        TableList::Except(Vec::new())
    }
}

/// Whether `s` matches the pattern `p`, where `*` matches any run of characters.
pub open spec fn glob(p: Seq<char>, s: Seq<char>) -> bool
    decreases p.len() + s.len(),
{
    if p.len() == 0 {
        s.len() == 0
    } else if p[0] == '*' {
        glob(p.drop_first(), s) || (s.len() > 0 && glob(p, s.drop_first()))
    } else {
        s.len() > 0 && p[0] == s[0] && glob(p.drop_first(), s.drop_first())
    }
}

pub open spec fn any_match(patterns: Seq<String>, t: Seq<char>) -> bool {
    exists|i: int| 0 <= i < patterns.len() && glob(#[trigger] patterns[i]@, t)
}

/// The tables, in their order, that match one of the patterns.
pub open spec fn matching(patterns: Seq<String>, tables: Seq<Seq<char>>) -> Seq<Seq<char>>
    decreases tables.len(),
{
    if tables.len() == 0 {
        Seq::empty()
    } else {
        let r = matching(patterns, tables.drop_last());
        if any_match(patterns, tables.last()) {
            r.push(tables.last())
        } else {
            r
        }
    }
}

fn glob_exec(p: &Vec<char>, i: usize, s: &Vec<char>, j: usize) -> (r: bool)
    requires
        i <= p@.len(),
        j <= s@.len(),
    ensures
        r == glob(p@.subrange(i as int, p@.len() as int), s@.subrange(j as int, s@.len() as int)),
    decreases p@.len() - i + s@.len() - j,
{
    let ghost ps = p@.subrange(i as int, p@.len() as int);
    let ghost ss = s@.subrange(j as int, s@.len() as int);
    if i == p.len() {
        return j == s.len();
    }
    assert(ps.drop_first() =~= p@.subrange(i + 1, p@.len() as int));
    if j < s.len() {
        assert(ss.drop_first() =~= s@.subrange(j + 1, s@.len() as int));
    }
    if p[i] == '*' {
        glob_exec(p, i + 1, s, j) || (j < s.len() && glob_exec(p, i, s, j + 1))
    } else {
        j < s.len() && p[i] == s[j] && glob_exec(p, i + 1, s, j + 1)
    }
}

fn any_match_exec(patterns: &Vec<String>, t: &String) -> (r: bool)
    ensures
        r == any_match(patterns@, t@),
{
    let tc = crate::text::chars_of(t.as_str());
    let mut i: usize = 0;
    while i < patterns.len()
        invariant
            i <= patterns@.len(),
            tc@ == t@,
            forall|k: int| 0 <= k < i ==> !glob(#[trigger] patterns@[k]@, t@),
        decreases patterns@.len() - i,
    {
        let pc = crate::text::chars_of(patterns[i].as_str());
        assert(pc@.subrange(0, pc@.len() as int) =~= pc@);
        assert(tc@.subrange(0, tc@.len() as int) =~= tc@);
        if glob_exec(&pc, 0, &tc, 0) {
            return true;
        }
        i = i + 1;
    }
    false
}

fn matching_exec(patterns: &Vec<String>, tables: &Vec<String>) -> (r: Vec<String>)
    ensures
        r.deep_view() == matching(patterns@, tables.deep_view()),
{
    let mut r: Vec<String> = Vec::new();
    let mut i: usize = 0;
    while i < tables.len()
        invariant
            i <= tables@.len(),
            r.deep_view() == matching(patterns@, tables.deep_view().subrange(0, i as int)),
        decreases tables@.len() - i,
    {
        let ghost pre = tables.deep_view().subrange(0, i as int + 1);
        assert(pre.drop_last() =~= tables.deep_view().subrange(0, i as int));
        assert(pre.last() == tables@[i as int]@);
        if any_match_exec(patterns, &tables[i]) {
            let ghost before = r.deep_view();
            r.push(tables[i].clone());
            assert(r.deep_view() =~= before.push(tables@[i as int]@)) by {
                assert forall|k: int| 0 <= k < r@.len() implies #[trigger] r.deep_view()[k] == before.push(tables@[i as int]@)[k] by {
                    assert(r.deep_view()[k] == r@[k]@);
                }
            }
        }
        i = i + 1;
    }
    assert(tables.deep_view().subrange(0, i as int) =~= tables.deep_view());
    r
}

fn copy_strings(v: &Vec<String>) -> (r: Vec<String>)
    ensures
        r@ == v@,
{
    let mut r: Vec<String> = Vec::new();
    let mut i: usize = 0;
    while i < v.len()
        invariant
            i <= v@.len(),
            r@ == v@.subrange(0, i as int),
        decreases v@.len() - i,
    {
        r.push(v[i].clone());
        i = i + 1;
        assert(r@ =~= v@.subrange(0, i as int));
    }
    assert(v@.subrange(0, i as int) =~= v@);
    r
}

/// The tables whose schema a dump takes (`schema`) and those whose data it
/// takes (`data`), with the patterns resolved against the database's tables.
pub struct Filter {
    schema: TableList,
    data: TableList,
    schema_match: TableList,
    data_match: TableList,
}

/// The list with its patterns replaced by the tables that match them.
pub open spec fn resolved(list: TableList, tables: Seq<Seq<char>>, r: TableList) -> bool {
    &&& (list is Only <==> r is Only)
    &&& r.patterns().map_values(|s: String| s@) == matching(list.patterns(), tables)
}

impl Filter {
    pub closed spec fn schema_spec(&self) -> TableList {
        self.schema
    }

    pub closed spec fn data_spec(&self) -> TableList {
        self.data
    }

    pub closed spec fn schema_match_spec(&self) -> TableList {
        self.schema_match
    }

    pub closed spec fn data_match_spec(&self) -> TableList {
        self.data_match
    }

    /// A filter whose lists are not yet resolved: nothing matches.
    pub fn new(schema: TableList, data: TableList) -> (r: Self)
        ensures
            r.schema_spec() == schema,
            r.data_spec() == data,
            resolved(schema, Seq::empty(), r.schema_match_spec()),
            resolved(data, Seq::empty(), r.data_match_spec()),
    {
        let schema_match = match &schema {
            TableList::Only(_) => TableList::Only(Vec::new()),
            TableList::Except(_) => TableList::Except(Vec::new()),
        };
        let data_match = match &data {
            TableList::Only(_) => TableList::Only(Vec::new()),
            TableList::Except(_) => TableList::Except(Vec::new()),
        };
        let r = Filter { schema, data, schema_match, data_match };
        assert(r.schema_match.patterns().map_values(|s: String| s@) =~= Seq::<Seq<char>>::empty());
        assert(r.data_match.patterns().map_values(|s: String| s@) =~= Seq::<Seq<char>>::empty());
        r
    }

    /// Resolves both lists against the database's tables.
    pub fn load_tables(&mut self, tables: Vec<String>)
        ensures
            final(self).schema_spec() == old(self).schema_spec(),
            final(self).data_spec() == old(self).data_spec(),
            resolved(old(self).schema_spec(), tables.deep_view(), final(self).schema_match_spec()),
            resolved(old(self).data_spec(), tables.deep_view(), final(self).data_match_spec()),
    {
        let s = matching_exec(self.schema.tables(), &tables);
        let d = matching_exec(self.data.tables(), &tables);
        proof {
            assert(s@.map_values(|x: String| x@) =~= s.deep_view());
            assert(d@.map_values(|x: String| x@) =~= d.deep_view());
        }
        self.schema_match = match &self.schema {
            TableList::Only(_) => TableList::Only(s),
            TableList::Except(_) => TableList::Except(s),
        };
        self.data_match = match &self.data {
            TableList::Only(_) => TableList::Only(d),
            TableList::Except(_) => TableList::Except(d),
        };
    }

    /// The resolved schema list.
    pub fn schema_match_list(&self) -> (r: &TableList)
        ensures
            *r == self.schema_match_spec(),
    {
        &self.schema_match
    }

    /// The resolved data list.
    pub fn data_match_list(&self) -> (r: &TableList)
        ensures
            *r == self.data_match_spec(),
    {
        &self.data_match
    }
}

/// The dump tool's arguments for a list of tables: the flag and the quoted name for each.
pub open spec fn args_spec(flag: Seq<char>, tables: Seq<Seq<char>>) -> Option<Seq<Seq<char>>>
    decreases tables.len(),
{
    if tables.len() == 0 {
        Some(Seq::empty())
    } else {
        match args_spec(flag, tables.drop_last()) {
            None => None,
            Some(a) => match quote_table_name_spec(tables.last()) {
                Some(q) => Some(a + seq![flag, q]),
                None => None,
            },
        }
    }
}

proof fn lemma_args_prefix_fails(flag: Seq<char>, tables: Seq<Seq<char>>, k: int)
    requires
        0 <= k <= tables.len(),
        args_spec(flag, tables.subrange(0, k)) is None,
    ensures
        args_spec(flag, tables) is None,
    decreases tables.len(),
{
    if k == tables.len() {
        assert(tables.subrange(0, k) =~= tables);
    } else {
        assert(tables.drop_last().subrange(0, k) =~= tables.subrange(0, k));
        lemma_args_prefix_fails(flag, tables.drop_last(), k);
    }
}

/// `-t` for a list of tables to take, `-T` for a list to leave out.
pub open spec fn flag_of(list: TableList) -> Seq<char> {
    if list is Only {
        "-t"@
    } else {
        "-T"@
    }
}

/// The dump tool's table arguments for the resolved schema list of a filter.
pub fn table_args(filter: &Option<Filter>) -> (r: Result<Vec<String>, InvalidTableName>)
    ensures
        match filter {
            None => r matches Ok(v) && v@.len() == 0,
            Some(f) => {
                let list = f.schema_match_spec();
                match args_spec(flag_of(list), list.patterns().map_values(|s: String| s@)) {
                    Some(a) => r matches Ok(v) && v.deep_view() == a,
                    None => r is Err,
                }
            },
        },
{
    let mut args: Vec<String> = Vec::new();
    match filter {
        None => Ok(args),
        Some(f) => {
            let list = f.schema_match_list();
            let flag = match list {
                TableList::Only(_) => "-t",
                TableList::Except(_) => "-T",
            };
            let ts = list.tables();
            let ghost names = list.patterns().map_values(|s: String| s@);
            let mut i: usize = 0;
            while i < ts.len()
                invariant
                    i <= ts@.len(),
                    ts@ == list.patterns(),
                    names == list.patterns().map_values(|s: String| s@),
                    flag@ == flag_of(*list),
                    filter matches Some(g) && g.schema_match_spec() == *list,
                    args_spec(flag@, names.subrange(0, i as int)) == Some(args.deep_view()),
                decreases ts@.len() - i,
            {
                let ghost pre = names.subrange(0, i as int + 1);
                assert(pre.drop_last() =~= names.subrange(0, i as int));
                assert(pre.last() == ts@[i as int]@);
                let q = match PgTable::quote_table_name(ts[i].as_str()) {
                    Ok(q) => q,
                    Err(e) => {
                        proof {
                            lemma_args_prefix_fails(flag@, names, i as int + 1);
                        }
                        return Err(e);
                    },
                };
                let ghost before = args.deep_view();
                args.push(String::from_str(flag));
                args.push(q);
                assert(args.deep_view() =~= before + seq![flag@, q@]) by {
                    assert forall|k: int| 0 <= k < args@.len() implies #[trigger] args.deep_view()[k] == (before
                        + seq![flag@, q@])[k] by {
                        assert(args.deep_view()[k] == args@[k]@);
                    }
                }
                i = i + 1;
            }
            assert(names.subrange(0, i as int) =~= names);
            Ok(args)
        },
    }
}

/// The first position in `order`, from `k` on, of a name the table goes by.
pub open spec fn first_position(t: PgTable, order: Seq<String>, k: int) -> Option<int>
    decreases order.len() - k,
{
    if k < 0 || k >= order.len() {
        None
    } else if order[k]@ == dotted(t.schemaname@, t.tablename@) || order[k]@ == t.tablename@ {
        Some(k)
    } else {
        first_position(t, order, k + 1)
    }
}

/// The sort key: the table's position in `order` (none first), then the weight, larger first.
pub open spec fn sort_key(x: (PgTable, i32), order: Seq<String>) -> (Option<int>, i32) {
    (first_position(x.0, order, 0), x.1)
}

/// Whether key `a` may stand before key `b`.
pub open spec fn key_le(a: (Option<int>, i32), b: (Option<int>, i32)) -> bool {
    match (a.0, b.0) {
        (None, Some(_)) => true,
        (Some(_), None) => false,
        (Some(p), Some(q)) => p < q || (p == q && a.1 >= b.1),
        (None, None) => a.1 >= b.1,
    }
}

fn position_exec(t: &PgTable, order: &[String]) -> (r: Option<usize>)
    ensures
        match first_position(*t, order@, 0) {
            Some(p) => r matches Some(k) && k as int == p,
            None => r is None,
        },
{
    let full = t.get_full_name();
    let mut k: usize = 0;
    while k < order.len()
        invariant
            k <= order@.len(),
            full@ == dotted(t.schemaname@, t.tablename@),
            first_position(*t, order@, 0) == first_position(*t, order@, k as int),
        decreases order@.len() - k,
    {
        if order[k] == full || order[k] == t.tablename {
            return Some(k);
        }
        k = k + 1;
    }
    None
}

fn key_le_exec(a: &(Option<usize>, i32), b: &(Option<usize>, i32)) -> (r: bool)
    ensures
        r == key_le(
            (match a.0 { Some(p) => Some(p as int), None => None }, a.1),
            (match b.0 { Some(p) => Some(p as int), None => None }, b.1),
        ),
{
    match (a.0, b.0) {
        (None, Some(_)) => true,
        (Some(_), None) => false,
        (Some(p), Some(q)) => p < q || (p == q && a.1 >= b.1),
        (None, None) => a.1 >= b.1,
    }
}

pub open spec fn key_view(k: (Option<usize>, i32)) -> (Option<int>, i32) {
    (match k.0 { Some(p) => Some(p as int), None => None }, k.1)
}

/// Whether `a` and `b` have the same sort key.
pub open spec fn same_key(a: (PgTable, i32), b: (PgTable, i32), order: Seq<String>) -> bool {
    key_le(sort_key(a, order), sort_key(b, order)) && key_le(sort_key(b, order), sort_key(a, order))
}

/// `after[i]` is `before[perm[i]]`, and entries with the same key keep their
/// order from `before`.
pub open spec fn stable_arrangement(
    before: Seq<(PgTable, i32)>,
    after: Seq<(PgTable, i32)>,
    perm: Seq<int>,
    order: Seq<String>,
) -> bool {
    &&& perm.len() == after.len()
    &&& forall|i: int| 0 <= i < after.len() ==> 0 <= #[trigger] perm[i] < before.len() && after[i] == before[perm[i]]
    &&& forall|i: int, j: int|
        0 <= i < j < after.len() && same_key(#[trigger] after[i], #[trigger] after[j], order) ==> perm[i] < perm[j]
}

/// Orders the tables by their position in `order`, those not in it first,
/// and by weight, larger first, where positions are equal.
pub fn sort_tables(tables: &mut Vec<(PgTable, i32)>, order: &[String])
    ensures
        final(tables)@.to_multiset() == old(tables)@.to_multiset(),
        exists|perm: Seq<int>| #[trigger] stable_arrangement(old(tables)@, final(tables)@, perm, order@),
        forall|i: int, j: int|
            0 <= i < j < final(tables)@.len() ==> key_le(
                sort_key(#[trigger] final(tables)@[i], order@),
                sort_key(#[trigger] final(tables)@[j], order@),
            ),
{
    broadcast use vstd::seq_lib::group_to_multiset_ensures;
    let mut rem: Vec<(PgTable, i32)> = Vec::new();
    std::mem::swap(&mut rem, tables);
    let ghost orig = rem@;
    let mut keys: Vec<(Option<usize>, i32)> = Vec::new();
    let mut i: usize = 0;
    while i < rem.len()
        invariant
            i <= rem@.len(),
            keys@.len() == i,
            forall|t: int| 0 <= t < i ==> key_view(#[trigger] keys@[t]) == sort_key(rem@[t], order@),
        decreases rem@.len() - i,
    {
        let p = position_exec(&rem[i].0, order);
        keys.push((p, rem[i].1));
        i = i + 1;
    }
    let mut out: Vec<(PgTable, i32)> = Vec::new();
    let ghost mut idx: Seq<int> = Seq::new(rem@.len(), |t: int| t);
    let ghost mut oidx: Seq<int> = Seq::empty();
    while rem.len() > 0
        invariant
            idx.len() == rem@.len(),
            forall|t: int| 0 <= t < idx.len() ==> 0 <= #[trigger] idx[t] < orig.len() && rem@[t] == orig[idx[t]],
            forall|t: int, u: int| 0 <= t < u < idx.len() ==> #[trigger] idx[t] < #[trigger] idx[u],
            oidx.len() == out@.len(),
            forall|a: int| 0 <= a < oidx.len() ==> 0 <= #[trigger] oidx[a] < orig.len() && out@[a] == orig[oidx[a]],
            forall|a: int, b: int|
                0 <= a < b < out@.len() && same_key(#[trigger] out@[a], #[trigger] out@[b], order@) ==> oidx[a] < oidx[b],
            forall|a: int, b: int|
                0 <= a < out@.len() && 0 <= b < rem@.len() && same_key(#[trigger] out@[a], #[trigger] rem@[b], order@)
                    ==> oidx[a] < idx[b],
            keys@.len() == rem@.len(),
            forall|t: int| 0 <= t < rem@.len() ==> key_view(#[trigger] keys@[t]) == sort_key(rem@[t], order@),
            out@.to_multiset().add(rem@.to_multiset()) == orig.to_multiset(),
            forall|a: int, b: int|
                0 <= a < b < out@.len() ==> key_le(
                    sort_key(#[trigger] out@[a], order@),
                    sort_key(#[trigger] out@[b], order@),
                ),
            forall|a: int, b: int|
                0 <= a < out@.len() && 0 <= b < rem@.len() ==> key_le(
                    sort_key(#[trigger] out@[a], order@),
                    sort_key(#[trigger] rem@[b], order@),
                ),
        decreases rem@.len(),
    {
        let mut m: usize = 0;
        let mut k: usize = 1;
        while k < keys.len()
            invariant
                keys@.len() == rem@.len(),
                rem@.len() > 0,
                1 <= k <= keys@.len(),
                m < k,
                forall|t: int| 0 <= t < k ==> key_le(key_view(keys@[m as int]), key_view(#[trigger] keys@[t])),
                forall|t: int| 0 <= t < m ==> !key_le(key_view(#[trigger] keys@[t]), key_view(keys@[m as int])),
            decreases keys@.len() - k,
        {
            if !key_le_exec(&keys[m], &keys[k]) {
                m = k;
            }
            k = k + 1;
        }
        let ghost old_rem = rem@;
        let ghost old_out = out@;
        assert(forall|t: int| 0 <= t < rem@.len() ==> key_le(sort_key(rem@[m as int], order@), sort_key(#[trigger] rem@[t], order@))) by {
            assert forall|t: int| 0 <= t < rem@.len() implies key_le(sort_key(rem@[m as int], order@), sort_key(#[trigger] rem@[t], order@)) by {
                assert(key_view(keys@[t]) == sort_key(rem@[t], order@));
            }
        }
        assert(forall|t: int| 0 <= t < m ==> !key_le(sort_key(#[trigger] rem@[t], order@), sort_key(rem@[m as int], order@))) by {
            assert forall|t: int| 0 <= t < m implies !key_le(sort_key(#[trigger] rem@[t], order@), sort_key(rem@[m as int], order@)) by {
                assert(key_view(keys@[t]) == sort_key(rem@[t], order@));
                assert(key_view(keys@[m as int]) == sort_key(rem@[m as int], order@));
            }
        }
        let ghost old_idx = idx;
        let ghost old_oidx = oidx;
        let x = rem.remove(m);
        keys.remove(m);
        out.push(x);
        proof {
            idx = old_idx.remove(m as int);
            oidx = old_oidx.push(old_idx[m as int]);
            assert forall|t: int| 0 <= t < idx.len() implies 0 <= #[trigger] idx[t] < orig.len() && rem@[t] == orig[idx[t]] by {
                if t < m {
                    assert(rem@[t] == old_rem[t]);
                } else {
                    assert(rem@[t] == old_rem[t + 1]);
                }
            }
            assert forall|t: int, u: int| 0 <= t < u < idx.len() implies #[trigger] idx[t] < #[trigger] idx[u] by {
                let ot = if t < m { t } else { t + 1 };
                let ou = if u < m { u } else { u + 1 };
                assert(old_idx[ot] < old_idx[ou]);
            }
            assert forall|a: int| 0 <= a < oidx.len() implies 0 <= #[trigger] oidx[a] < orig.len() && out@[a] == orig[oidx[a]] by {
                if a < old_out.len() {
                    assert(out@[a] == old_out[a]);
                }
            }
            assert forall|a: int, b: int|
                0 <= a < b < out@.len() && same_key(#[trigger] out@[a], #[trigger] out@[b], order@) implies oidx[a] < oidx[b] by {
                assert(out@[a] == old_out[a]);
                if b < old_out.len() {
                    assert(out@[b] == old_out[b]);
                } else {
                    assert(out@[b] == old_rem[m as int]);
                }
            }
            assert forall|a: int, b: int|
                0 <= a < out@.len() && 0 <= b < rem@.len() && same_key(#[trigger] out@[a], #[trigger] rem@[b], order@)
                    implies oidx[a] < idx[b] by {
                let ob = if b < m { b } else { b + 1 };
                assert(rem@[b] == old_rem[ob]);
                if a < old_out.len() {
                    assert(out@[a] == old_out[a]);
                } else {
                    assert(out@[a] == old_rem[m as int]);
                    if b < m {
                        assert(!key_le(sort_key(old_rem[b], order@), sort_key(old_rem[m as int], order@)));
                    } else {
                        assert(old_idx[m as int] < old_idx[ob]);
                    }
                }
            }
            old_rem.to_multiset_ensures();
            old_out.to_multiset_ensures();
            assert(old_rem.remove(m as int).to_multiset() == old_rem.to_multiset().remove(old_rem[m as int]));
            assert(old_out.push(x).to_multiset() == old_out.to_multiset().insert(x));
            assert(old_rem.to_multiset().count(x) > 0);
            assert(out@.to_multiset().add(rem@.to_multiset()) =~= orig.to_multiset());
            assert forall|t: int| 0 <= t < rem@.len() implies key_view(#[trigger] keys@[t]) == sort_key(rem@[t], order@) by {
                if t < m {
                    assert(rem@[t] == old_rem[t]);
                } else {
                    assert(rem@[t] == old_rem[t + 1]);
                }
            }
            assert forall|a: int, b: int| 0 <= a < out@.len() && 0 <= b < rem@.len() implies key_le(
                sort_key(#[trigger] out@[a], order@),
                sort_key(#[trigger] rem@[b], order@),
            ) by {
                let ob = if b < m { b } else { b + 1 };
                assert(rem@[b] == old_rem[ob]);
                if a < old_out.len() {
                    assert(out@[a] == old_out[a]);
                }
            }
            assert forall|a: int, b: int| 0 <= a < b < out@.len() implies key_le(
                sort_key(#[trigger] out@[a], order@),
                sort_key(#[trigger] out@[b], order@),
            ) by {
                assert(out@[a] == old_out[a]);
                if b < old_out.len() {
                    assert(out@[b] == old_out[b]);
                }
            }
        }
    }
    proof {
        assert(stable_arrangement(orig, out@, oidx, order@));
        assert(rem@.to_multiset() =~= vstd::multiset::Multiset::empty());
        assert(out@.to_multiset().add(vstd::multiset::Multiset::empty()) =~= out@.to_multiset());
    }
    *tables = out;
}

} // verus!
