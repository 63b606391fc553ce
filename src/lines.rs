//! Recognition of the few line shapes of a plain-text dump that the filter acts on.
use vstd::prelude::*;
use crate::text::{chars_of, split_on, split_row};

verus! {

pub open spec fn is_space(c: char) -> bool {
    c == ' ' || c == '\t' || c == '\r' || c == '\x0b' || c == '\x0c'
}

/// Whether std counts the character as a letter or a number.
pub uninterp spec fn alnum_char(c: char) -> bool;

/// Relies on `char::is_alphanumeric`: the Unicode `Alphabetic` or `Numeric` property.
#[verifier::external_body]
fn is_alphanumeric(c: char) -> (r: bool)
    ensures
        r == alnum_char(c),
{
    c.is_alphanumeric()
}

/// A character that may stand in an identifier: a letter, a number or `_`.
pub open spec fn is_word(c: char) -> bool {
    alnum_char(c) || c == '_'
}

/// The first position at or after `i` that does not hold a space.
pub open spec fn skip_spaces(s: Seq<char>, i: int) -> int
    decreases s.len() - i,
{
    if 0 <= i < s.len() && is_space(s[i]) {
        skip_spaces(s, i + 1)
    } else {
        i
    }
}

/// The first position at or after `i` that does not hold an identifier character.
pub open spec fn word_end(s: Seq<char>, i: int) -> int
    decreases s.len() - i,
{
    if 0 <= i < s.len() && is_word(s[i]) {
        word_end(s, i + 1)
    } else {
        i
    }
}

/// The first position at or after `i` that holds `c`, or the length of `s`.
pub open spec fn find_char(s: Seq<char>, i: int, c: char) -> int
    decreases s.len() - i,
{
    if 0 <= i < s.len() && s[i] != c {
        find_char(s, i + 1, c)
    } else {
        i
    }
}

/// An identifier starting at `i`, bare or in one pair of double quotes:
/// its unquoted text and the position after it.
pub open spec fn ident_at(s: Seq<char>, i: int) -> Option<(Seq<char>, int)> {
    if 0 <= i < s.len() && s[i] == '"' {
        let e = word_end(s, i + 1);
        if e > i + 1 && e < s.len() && s[e] == '"' {
            Some((s.subrange(i + 1, e), e + 1))
        } else {
            None
        }
    } else {
        let e = word_end(s, i);
        if e > i {
            Some((s.subrange(i, e), e))
        } else {
            None
        }
    }
}

/// `schema.name` starting at `i`: both identifiers and the position after them.
pub open spec fn qualified_at(s: Seq<char>, i: int) -> Option<(Seq<char>, Seq<char>, int)> {
    match ident_at(s, i) {
        Some((a, j)) => if 0 <= j < s.len() && s[j] == '.' {
            match ident_at(s, j + 1) {
                Some((b, k)) => Some((a, b, k)),
                None => None,
            }
        } else {
            None
        },
        None => None,
    }
}

pub open spec fn has_prefix(s: Seq<char>, i: int, lit: Seq<char>) -> bool {
    0 <= i && i + lit.len() <= s.len() && s.subrange(i, i + lit.len()) == lit
}

/// `CREATE TABLE <schema>.<name> (`, with trailing spaces allowed:
/// the schema and the table name.
pub open spec fn create_header(s: Seq<char>) -> Option<(Seq<char>, Seq<char>)> {
    let kw = "CREATE TABLE "@;
    if has_prefix(s, 0, kw) {
        match qualified_at(s, skip_spaces(s, kw.len() as int)) {
            Some((a, b, j)) => {
                let k = skip_spaces(s, j);
                if k > j && k < s.len() && s[k] == '(' && skip_spaces(s, k + 1) == s.len() {
                    Some((a, b))
                } else {
                    None
                }
            },
            None => None,
        }
    } else {
        None
    }
}

/// Spaces removed from both ends.
pub open spec fn trim(s: Seq<char>) -> Seq<char>
    decreases s.len(),
{
    if s.len() > 0 && is_space(s[0]) {
        trim(s.drop_first())
    } else if s.len() > 0 && is_space(s.last()) {
        trim(s.drop_last())
    } else {
        s
    }
}

/// One pair of surrounding double quotes removed, where there is one.
pub open spec fn unquote(s: Seq<char>) -> Seq<char> {
    if s.len() >= 2 && s[0] == '"' && s.last() == '"' {
        s.subrange(1, s.len() - 1)
    } else {
        s
    }
}

/// The column names of a `COPY` column list: split on commas, trimmed, unquoted.
pub open spec fn copy_columns(list: Seq<char>) -> Seq<Seq<char>> {
    split_on(list, ',').map_values(|p: Seq<char>| unquote(trim(p)))
}

/// `COPY <schema>.<name> (<columns>) FROM STDIN;`: the schema, the table name
/// and the column names.
pub open spec fn copy_header(s: Seq<char>) -> Option<(Seq<char>, Seq<char>, Seq<Seq<char>>)> {
    let kw = "COPY "@;
    if has_prefix(s, 0, kw) {
        match qualified_at(s, skip_spaces(s, kw.len() as int)) {
            Some((a, b, j)) => {
                let k = skip_spaces(s, j);
                let c = find_char(s, k + 1, ')');
                let m = skip_spaces(s, c + 1);
                let n = skip_spaces(s, m + 4);
                let p = skip_spaces(s, n + 5);
                if k > j && k < s.len() && s[k] == '(' && c < s.len() && m > c + 1
                    && has_prefix(s, m, "FROM"@) && n > m + 4 && has_prefix(s, n, "STDIN"@)
                    && p < s.len() && s[p] == ';' && skip_spaces(s, p + 1) == s.len() {
                    Some((a, b, copy_columns(s.subrange(k + 1, c))))
                } else {
                    None
                }
            },
            None => None,
        }
    } else {
        None
    }
}

/// The end of a column type starting at `i`: the end of the line or the first
/// comma outside parentheses.
pub open spec fn type_end(s: Seq<char>, i: int, depth: nat) -> int
    decreases s.len() - i,
{
    if i < 0 || i >= s.len() || (s[i] == ',' && depth == 0) {
        i
    } else if s[i] == '(' {
        type_end(s, i + 1, depth + 1)
    } else if s[i] == ')' {
        type_end(s, i + 1, if depth > 0 { (depth - 1) as nat } else { 0 })
    } else {
        type_end(s, i + 1, depth)
    }
}

/// Words that open a table constraint rather than a column.
pub open spec fn is_constraint_word(w: Seq<char>) -> bool {
    w == "CONSTRAINT"@ || w == "PRIMARY"@ || w == "UNIQUE"@ || w == "CHECK"@ || w == "FOREIGN"@
        || w == "EXCLUDE"@
}

/// An indented `<name> <type>` line of a table definition: the unquoted name
/// and the declared type, without the comma that may follow it.
pub open spec fn column_decl(s: Seq<char>) -> Option<(Seq<char>, Seq<char>)> {
    let i = skip_spaces(s, 0);
    if i > 0 {
        match ident_at(s, i) {
            Some((id, j)) => {
                let k = skip_spaces(s, j);
                let e = type_end(s, k, 0);
                if k > j && e > k && !(s[i] != '"' && is_constraint_word(id)) {
                    Some((id, s.subrange(k, e)))
                } else {
                    None
                }
            },
            None => None,
        }
    } else {
        None
    }
}

pub fn skip_spaces_exec(s: &Vec<char>, i: usize) -> (r: usize)
    requires
        i <= s@.len(),
    ensures
        r as int == skip_spaces(s@, i as int),
        i <= r <= s@.len(),
{
    let mut j: usize = i;
    while j < s.len() && (s[j] == ' ' || s[j] == '\t' || s[j] == '\r' || s[j] == '\x0b' || s[j] == '\x0c')
        invariant
            i <= j <= s@.len(),
            skip_spaces(s@, j as int) == skip_spaces(s@, i as int),
        decreases s@.len() - j,
    {
        j = j + 1;
    }
    j
}

fn word_end_exec(s: &Vec<char>, i: usize) -> (r: usize)
    requires
        i <= s@.len(),
    ensures
        r as int == word_end(s@, i as int),
        i <= r <= s@.len(),
{
    let mut j: usize = i;
    while j < s.len() && (is_alphanumeric(s[j]) || s[j] == '_')
        invariant
            i <= j <= s@.len(),
            word_end(s@, j as int) == word_end(s@, i as int),
        decreases s@.len() - j,
    {
        j = j + 1;
    }
    j
}

fn find_char_exec(s: &Vec<char>, i: usize, c: char) -> (r: usize)
    requires
        i <= s@.len(),
    ensures
        r as int == find_char(s@, i as int, c),
        i <= r <= s@.len(),
{
    let mut j: usize = i;
    while j < s.len() && s[j] != c
        invariant
            i <= j <= s@.len(),
            find_char(s@, j as int, c) == find_char(s@, i as int, c),
        decreases s@.len() - j,
    {
        j = j + 1;
    }
    j
}

fn slice_of(s: &Vec<char>, from: usize, to: usize) -> (r: Vec<char>)
    requires
        from <= to <= s@.len(),
    ensures
        r@ == s@.subrange(from as int, to as int),
{
    let mut r: Vec<char> = Vec::new();
    let mut i: usize = from;
    while i < to
        invariant
            from <= i <= to,
            to <= s@.len(),
            r@ == s@.subrange(from as int, i as int),
        decreases to - i,
    {
        r.push(s[i]);
        i = i + 1;
        assert(r@ =~= s@.subrange(from as int, i as int));
    }
    r
}

fn ident_at_exec(s: &Vec<char>, i: usize) -> (r: Option<(Vec<char>, usize)>)
    requires
        i <= s@.len(),
    ensures
        match ident_at(s@, i as int) {
            Some((w, j)) => r matches Some((v, k)) && v@ == w && k as int == j && k <= s@.len(),
            None => r is None,
        },
{
    if i < s.len() && s[i] == '"' {
        let e = word_end_exec(s, i + 1);
        if e > i + 1 && e < s.len() && s[e] == '"' {
            Some((slice_of(s, i + 1, e), e + 1))
        } else {
            None
        }
    } else {
        let e = word_end_exec(s, i);
        if e > i {
            Some((slice_of(s, i, e), e))
        } else {
            None
        }
    }
}

fn qualified_at_exec(s: &Vec<char>, i: usize) -> (r: Option<(Vec<char>, Vec<char>, usize)>)
    requires
        i <= s@.len(),
    ensures
        match qualified_at(s@, i as int) {
            Some((a, b, j)) => r matches Some((x, y, k)) && x@ == a && y@ == b && k as int == j
                && k <= s@.len(),
            None => r is None,
        },
{
    match ident_at_exec(s, i) {
        Some((a, j)) => {
            if j < s.len() && s[j] == '.' {
                match ident_at_exec(s, j + 1) {
                    Some((b, k)) => Some((a, b, k)),
                    None => None,
                }
            } else {
                None
            }
        },
        None => None,
    }
}

pub(crate) fn has_prefix_exec(s: &Vec<char>, i: usize, lit: &str) -> (r: bool)
    requires
        i <= s@.len(),
    ensures
        r == has_prefix(s@, i as int, lit@),
{
    let l = chars_of(lit);
    if l.len() > s.len() - i {
        return false;
    }
    let mut k: usize = 0;
    let sl = s.len();
    while k < l.len()
        invariant
            k <= l@.len(),
            sl == s@.len(),
            i <= s@.len(),
            i + l@.len() <= s@.len(),
            l@ == lit@,
            forall|t: int| 0 <= t < k ==> s@[i + t] == l@[t],
        decreases l@.len() - k,
    {
        if s[i + k] != l[k] {
            assert(s@.subrange(i as int, i + l@.len())[k as int] != l@[k as int]);
            return false;
        }
        k = k + 1;
    }
    assert(s@.subrange(i as int, i + l@.len()) =~= l@);
    true
}

/// Recognizes a `CREATE TABLE` header line.
pub fn parse_create_header(s: &Vec<char>) -> (r: Option<(Vec<char>, Vec<char>)>)
    ensures
        match create_header(s@) {
            Some((a, b)) => r matches Some((x, y)) && x@ == a && y@ == b,
            None => r is None,
        },
{
    let kw = "CREATE TABLE ";
    if !has_prefix_exec(s, 0, kw) {
        return None;
    }
    let kl = chars_of(kw).len();
    let i = skip_spaces_exec(s, kl);
    match qualified_at_exec(s, i) {
        Some((a, b, j)) => {
            let k = skip_spaces_exec(s, j);
            if k > j && k < s.len() && s[k] == '(' && skip_spaces_exec(s, k + 1) == s.len() {
                Some((a, b))
            } else {
                None
            }
        },
        None => None,
    }
}

fn trim_exec(p: &Vec<char>) -> (r: Vec<char>)
    ensures
        r@ == trim(p@),
{
    let mut a: usize = 0;
    let mut b: usize = p.len();
    assert(p@.subrange(0, p@.len() as int) =~= p@);
    while a < b && (p[a] == ' ' || p[a] == '\t' || p[a] == '\r' || p[a] == '\x0b' || p[a] == '\x0c')
        invariant
            a <= b <= p@.len(),
            b == p@.len(),
            trim(p@.subrange(a as int, b as int)) == trim(p@),
        decreases b - a,
    {
        assert(p@.subrange(a as int, b as int).drop_first() =~= p@.subrange(a + 1, b as int));
        a = a + 1;
    }
    while a < b && (p[b - 1] == ' ' || p[b - 1] == '\t' || p[b - 1] == '\r' || p[b - 1] == '\x0b'
        || p[b - 1] == '\x0c')
        invariant
            a <= b <= p@.len(),
            a < b ==> !is_space(p@[a as int]),
            trim(p@.subrange(a as int, b as int)) == trim(p@),
        decreases b - a,
    {
        assert(p@.subrange(a as int, b as int).drop_last() =~= p@.subrange(a as int, b - 1));
        b = b - 1;
    }
    slice_of(p, a, b)
}

fn unquote_exec(p: Vec<char>) -> (r: Vec<char>)
    ensures
        r@ == unquote(p@),
{
    let n = p.len();
    if n >= 2 && p[0] == '"' && p[n - 1] == '"' {
        slice_of(&p, 1, n - 1)
    } else {
        p
    }
}

/// Recognizes a `COPY ... FROM STDIN;` header line.
pub fn parse_copy_header(s: &Vec<char>) -> (r: Option<(Vec<char>, Vec<char>, Vec<Vec<char>>)>)
    ensures
        match copy_header(s@) {
            Some((a, b, cols)) => r matches Some((x, y, c)) && x@ == a && y@ == b && c.deep_view()
                == cols,
            None => r is None,
        },
{
    let kw = "COPY ";
    if !has_prefix_exec(s, 0, kw) {
        return None;
    }
    let kl = chars_of(kw).len();
    let i = skip_spaces_exec(s, kl);
    match qualified_at_exec(s, i) {
        Some((a, b, j)) => {
            let k = skip_spaces_exec(s, j);
            if !(k > j && k < s.len() && s[k] == '(') {
                return None;
            }
            let c = find_char_exec(s, k + 1, ')');
            if c >= s.len() {
                return None;
            }
            let m = skip_spaces_exec(s, c + 1);
            if !(m > c + 1 && has_prefix_exec(s, m, "FROM")) {
                return None;
            }
            proof {
                reveal_strlit("FROM");
            }
            let n = skip_spaces_exec(s, m + 4);
            if !(n > m + 4 && has_prefix_exec(s, n, "STDIN")) {
                return None;
            }
            proof {
                reveal_strlit("STDIN");
            }
            let p = skip_spaces_exec(s, n + 5);
            if !(p < s.len() && s[p] == ';' && skip_spaces_exec(s, p + 1) == s.len()) {
                return None;
            }
            let list = slice_of(s, k + 1, c);
            let parts = split_row(&list, ',');
            let mut cols: Vec<Vec<char>> = Vec::new();
            let mut t: usize = 0;
            while t < parts.len()
                invariant
                    t <= parts@.len(),
                    parts@.len() == split_on(list@, ',').len(),
                    forall|q: int| 0 <= q < parts@.len() ==> #[trigger] parts@[q]@ == split_on(list@, ',')[q],
                    cols@.len() == t,
                    forall|q: int| 0 <= q < t ==> #[trigger] cols@[q]@ == unquote(trim(split_on(list@, ',')[q])),
                decreases parts@.len() - t,
            {
                let w = unquote_exec(trim_exec(&parts[t]));
                cols.push(w);
                t = t + 1;
            }
            assert forall|q: int| 0 <= q < cols@.len() implies #[trigger] cols.deep_view()[q]
                == copy_columns(list@)[q] by {
                assert(cols.deep_view()[q] == cols@[q]@);
            }
            assert(cols.deep_view() =~= copy_columns(list@));
            Some((a, b, cols))
        },
        None => None,
    }
}

fn type_end_exec(s: &Vec<char>, i: usize, depth: usize) -> (r: usize)
    requires
        i <= s@.len(),
        depth <= i,
    ensures
        r as int == type_end(s@, i as int, depth as nat),
        i <= r <= s@.len(),
{
    let mut j: usize = i;
    let mut d: usize = depth;
    while j < s.len() && !(s[j] == ',' && d == 0)
        invariant
            i <= j <= s@.len(),
            d <= j,
            type_end(s@, j as int, d as nat) == type_end(s@, i as int, depth as nat),
        decreases s@.len() - j,
    {
        if s[j] == '(' {
            d = d + 1;
        } else if s[j] == ')' {
            d = if d > 0 { d - 1 } else { 0 };
        }
        j = j + 1;
    }
    j
}

fn is_constraint_word_exec(w: &Vec<char>) -> (r: bool)
    ensures
        r == is_constraint_word(w@),
{
    let n = w.len();
    assert(w@.subrange(0, w@.len() as int) =~= w@);
    (has_prefix_exec(w, 0, "CONSTRAINT") && chars_of("CONSTRAINT").len() == n)
        || (has_prefix_exec(w, 0, "PRIMARY") && chars_of("PRIMARY").len() == n)
        || (has_prefix_exec(w, 0, "UNIQUE") && chars_of("UNIQUE").len() == n)
        || (has_prefix_exec(w, 0, "CHECK") && chars_of("CHECK").len() == n)
        || (has_prefix_exec(w, 0, "FOREIGN") && chars_of("FOREIGN").len() == n)
        || (has_prefix_exec(w, 0, "EXCLUDE") && chars_of("EXCLUDE").len() == n)
}

/// Recognizes a column declaration inside a table definition.
pub fn parse_column_decl(s: &Vec<char>) -> (r: Option<(Vec<char>, Vec<char>)>)
    ensures
        match column_decl(s@) {
            Some((a, b)) => r matches Some((x, y)) && x@ == a && y@ == b,
            None => r is None,
        },
{
    let i = skip_spaces_exec(s, 0);
    if i == 0 {
        return None;
    }
    match ident_at_exec(s, i) {
        Some((id, j)) => {
            let k = skip_spaces_exec(s, j);
            let e = type_end_exec(s, k, 0);
            if k > j && e > k && !(s[i] != '"' && is_constraint_word_exec(&id)) {
                Some((id, slice_of(s, k, e)))
            } else {
                None
            }
        },
        None => None,
    }
}

} // verus!

verus! {

/// Whether the line is exactly `lit`.
pub fn equals_literal(s: &Vec<char>, lit: &str) -> (r: bool)
    ensures
        r == (s@ == lit@),
{
    let n = chars_of(lit).len();
    let r = n == s.len() && has_prefix_exec(s, 0, lit);
    assert(s@.subrange(0, s@.len() as int) =~= s@);
    r
}

} // verus!
