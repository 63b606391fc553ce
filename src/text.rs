use vstd::prelude::*;

verus! {

/// The characters of a string, one element per `char`.
///
/// Relies on `str::chars`, collected into a `Vec`: it yields each character in order.
#[verifier::external_body]
pub(crate) fn chars_of(s: &str) -> (r: Vec<char>)
    ensures
        r@ == s@,
{
    s.chars().collect()
}

/// The string made of the given characters.
///
/// Relies on `FromIterator<&char> for String`: it appends each character in order.
#[verifier::external_body]
pub(crate) fn string_of(v: &[char]) -> (r: String)
    ensures
        r@ == v@,
{
    v.iter().collect()
}

pub const TAB: char = '\t';

/// The pieces of `s` between occurrences of `sep`.
pub open spec fn split_on(s: Seq<char>, sep: char) -> Seq<Seq<char>>
    decreases s.len(),
{
    if s.len() == 0 {
        seq![Seq::empty()]
    } else {
        let rest = split_on(s.drop_first(), sep);
        if s[0] == sep {
            seq![Seq::empty()] + rest
        } else {
            rest.update(0, seq![s[0]] + rest[0])
        }
    }
}

/// The pieces joined with a single `sep` between each two.
pub open spec fn join_on(fields: Seq<Seq<char>>, sep: char) -> Seq<char>
    decreases fields.len(),
{
    if fields.len() <= 1 {
        if fields.len() == 0 { Seq::empty() } else { fields[0] }
    } else {
        fields[0] + seq![sep] + join_on(fields.drop_first(), sep)
    }
}

pub open spec fn lacks(s: Seq<char>, sep: char) -> bool {
    forall|i: int| 0 <= i < s.len() ==> s[i] != sep
}

pub proof fn lemma_split_on_nonempty(s: Seq<char>, sep: char)
    ensures
        split_on(s, sep).len() >= 1,
    decreases s.len(),
{
    if s.len() > 0 {
        lemma_split_on_nonempty(s.drop_first(), sep);
    }
}

/// Splitting a piece that holds no separator gives that piece alone, and a
/// separator after it adds that piece in front of the pieces of the rest.
proof fn lemma_split_prefix(f: Seq<char>, rest: Seq<char>, sep: char)
    requires
        lacks(f, sep),
    ensures
        split_on(f + seq![sep] + rest, sep) == seq![f] + split_on(rest, sep),
        split_on(f, sep) == seq![f],
    decreases f.len(),
{
    if f.len() == 0 {
        assert(f =~= Seq::<char>::empty());
        assert(f + seq![sep] + rest =~= seq![sep] + rest);
        assert((seq![sep] + rest).drop_first() =~= rest);
        assert(seq![Seq::<char>::empty()] + split_on(rest, sep) =~= seq![f] + split_on(rest, sep));
    } else {
        let g = f.drop_first();
        lemma_split_prefix(g, rest, sep);
        assert((f + seq![sep] + rest).drop_first() =~= g + seq![sep] + rest);
        assert(lacks(g, sep));
        let r = split_on(g + seq![sep] + rest, sep);
        assert(r[0] == g);
        assert(f[0] != sep);
        assert((f + seq![sep] + rest)[0] == f[0]);
        assert(seq![f[0]] + g =~= f);
        assert(r.update(0, seq![f[0]] + r[0]) =~= seq![f] + split_on(rest, sep));
        assert(split_on(g, sep).update(0, seq![f[0]] + split_on(g, sep)[0]) =~= seq![f]);
    }
}

/// Joining pieces that hold no separator and splitting the result gives the pieces back.
pub proof fn lemma_split_join(fields: Seq<Seq<char>>, sep: char)
    requires
        fields.len() >= 1,
        forall|i: int| 0 <= i < fields.len() ==> lacks(#[trigger] fields[i], sep),
    ensures
        split_on(join_on(fields, sep), sep) == fields,
    decreases fields.len(),
{
    if fields.len() == 1 {
        lemma_split_prefix(fields[0], Seq::empty(), sep);
        assert(seq![fields[0]] =~= fields);
    } else {
        let rest = fields.drop_first();
        assert forall|i: int| 0 <= i < rest.len() implies lacks(#[trigger] rest[i], sep) by {
            assert(rest[i] == fields[i + 1]);
        }
        lemma_split_join(rest, sep);
        lemma_split_prefix(fields[0], join_on(rest, sep), sep);
        assert(seq![fields[0]] + rest =~= fields);
    }
}

proof fn lemma_join_push(fields: Seq<Seq<char>>, x: Seq<char>, sep: char)
    requires
        fields.len() >= 1,
    ensures
        join_on(fields.push(x), sep) == join_on(fields, sep) + seq![sep] + x,
    decreases fields.len(),
{
    if fields.len() == 1 {
        assert(fields.push(x).drop_first() =~= seq![x]);
        assert(join_on(seq![x], sep) == x);
        assert(join_on(fields, sep) == fields[0]);
        assert(fields.push(x)[0] == fields[0]);
    } else {
        assert(fields.push(x)[0] == fields[0]);
        lemma_join_push(fields.drop_first(), x, sep);
        assert(fields.push(x).drop_first() =~= fields.drop_first().push(x));
        assert(fields[0] + seq![sep] + (join_on(fields.drop_first(), sep) + seq![sep] + x)
            =~= fields[0] + seq![sep] + join_on(fields.drop_first(), sep) + seq![sep] + x);
    }
}

/// Joins `fields` with a single `sep` between each two.
pub fn join_row(fields: &Vec<Vec<char>>, sep: char) -> (r: Vec<char>)
    ensures
        r@ == join_on(fields.deep_view(), sep),
{
    let mut r: Vec<char> = Vec::new();
    let mut i: usize = 0;
    while i < fields.len()
        invariant
            i <= fields@.len(),
            i == 0 ==> r@.len() == 0,
            i > 0 ==> r@ == join_on(fields.deep_view().subrange(0, i as int), sep),
        decreases fields@.len() - i,
    {
        let ghost before = r@;
        if i > 0 {
            r.push(sep);
        }
        let f = &fields[i];
        let mut j: usize = 0;
        let ghost mid = r@;
        while j < f.len()
            invariant
                j <= f@.len(),
                r@ == mid + f@.subrange(0, j as int),
            decreases f@.len() - j,
        {
            r.push(f[j]);
            j = j + 1;
            assert(r@ =~= mid + f@.subrange(0, j as int));
        }
        assert(f@.subrange(0, j as int) =~= f@);
        proof {
            let dv = fields.deep_view();
            assert(dv[i as int] == f@);
            if i == 0 {
                assert(dv.subrange(0, 1) =~= seq![f@]);
                assert(r@ =~= f@);
            } else {
                lemma_join_push(dv.subrange(0, i as int), f@, sep);
                assert(dv.subrange(0, i as int).push(f@) =~= dv.subrange(0, i as int + 1));
            }
        }
        i = i + 1;
    }
    proof {
        let dv = fields.deep_view();
        assert(dv.subrange(0, i as int) =~= dv);
        if i == 0 {
            assert(r@ =~= Seq::<char>::empty());
        }
    }
    r
}

/// Splits `line` on `sep`.
pub fn split_row(line: &Vec<char>, sep: char) -> (r: Vec<Vec<char>>)
    ensures
        r@.len() == split_on(line@, sep).len(),
        forall|i: int| 0 <= i < r@.len() ==> #[trigger] r@[i]@ == split_on(line@, sep)[i],
{
    let mut out: Vec<Vec<char>> = Vec::new();
    let mut cur: Vec<char> = Vec::new();
    let n = line.len();
    let mut i: usize = n;
    // Walk backwards so that the recursive definition unfolds at each step.
    while i > 0
        invariant
            i <= n,
            n == line@.len(),
            out@.len() + 1 == split_on(line@.subrange(i as int, n as int), sep).len(),
            cur@ == split_on(line@.subrange(i as int, n as int), sep)[0],
            forall|k: int| 0 <= k < out@.len() ==> #[trigger] out@[k]@ == split_on(line@.subrange(i as int, n as int), sep)[out@.len() - k],
        decreases i,
    {
        let ghost old_sub = line@.subrange(i as int, n as int);
        let ghost old_out = out@;
        i = i - 1;
        let ghost sub = line@.subrange(i as int, n as int);
        assert(sub.drop_first() =~= old_sub);
        proof { lemma_split_on_nonempty(old_sub, sep); }
        let c = line[i];
        if c == sep {
            out.push(cur);
            cur = Vec::new();
            assert(split_on(sub, sep) == seq![Seq::<char>::empty()] + split_on(old_sub, sep));
            assert forall|k: int| 0 <= k < out@.len() implies #[trigger] out@[k]@ == split_on(sub, sep)[out@.len() - k] by {
                if k < old_out.len() {
                    assert(out@[k] == old_out[k]);
                }
            }
        } else {
            cur.insert(0, c);
            assert(cur@ =~= seq![c] + split_on(old_sub, sep)[0]);
            assert forall|k: int| 0 <= k < out@.len() implies #[trigger] out@[k]@ == split_on(sub, sep)[out@.len() - k] by {
            }
        }
    }
    assert(line@.subrange(0, n as int) =~= line@);
    out.push(cur);
    let ghost parts = split_on(line@, sep);
    // `out` holds the fields back to front: turn it around.
    let mut r: Vec<Vec<char>> = Vec::new();
    let ghost total = parts.len();
    while out.len() > 0
        invariant
            r@.len() + out@.len() == total,
            total == parts.len(),
            forall|k: int| 0 <= k < out@.len() ==> #[trigger] out@[k]@ == parts[total - 1 - k],
            forall|k: int| 0 <= k < r@.len() ==> #[trigger] r@[k]@ == parts[k],
        decreases out@.len(),
    {
        if let Some(f) = out.pop() {
            r.push(f);
        }
    }
    r
}

} // verus!

verus! {

/// `a` followed by `b`.
pub fn concat_str(a: &str, b: &str) -> (r: String)
    ensures
        r@ == a@ + b@,
{
    let mut s = String::from_str(a);
    s.append(b);
    s
}

} // verus!
