//! The value rules that rewrite single fields.
use vstd::prelude::*;
use crate::lines::{has_prefix, has_prefix_exec};
use crate::text::{chars_of, string_of};

verus! {

/// What a rule is given besides the field: the seed of its pseudo-random choices.
pub struct TransformContext {
    pub seed: u64,
}

/// Why a rule failed.
#[derive(PartialEq, Eq, Structural, Clone, Copy, Debug)]
pub enum TransformErrorKind {
    /// A choice among no values.
    EmptyChoice,
    /// A numeric range whose minimum exceeds its maximum.
    EmptyRange,
    /// A field value that is not JSON, where the policy says to fail.
    InvalidJson,
    /// A rule's output that should have been JSON and is not.
    InvalidReplacement,
}

/// A rule failure with the field name and the value the failing rule was given.
#[derive(Debug)]
pub struct TransformError {
    pub field_name: String,
    pub field_value: String,
    pub kind: TransformErrorKind,
    /// The parser's message where a text was not JSON; empty otherwise.
    pub reason: String,
}

/// A rule that rewrites one textual value.
pub enum ScalarRule {
    /// The format, with each `{{_0}}` replaced by the field's value and each
    /// `{{_name}}` by its name.
    Template { format: String },
    /// A pseudo-random integer in `min..=max`.
    RandomNum { min: u64, max: u64 },
    /// One of the values, picked pseudo-randomly.
    Choice { values: Vec<String> },
}

/// What a rule does with one value: a replacement, `None` to keep the value,
/// or the failure with the value that was given.
pub type Outcome = Result<Option<Seq<char>>, (TransformErrorKind, Seq<char>)>;

pub const FNV_OFFSET: u64 = 14695981039346656037;

pub const FNV_PRIME: u64 = 1099511628211;

pub open spec fn fnv_step(h: u64, c: char) -> u64 {
    (((h ^ ((c as u32) as u64)) as nat * FNV_PRIME as nat) % 0x1_0000_0000_0000_0000) as u64
}

/// The FNV-1a hash of `s`, folded from `h`.
pub open spec fn fnv(h: u64, s: Seq<char>) -> u64
    decreases s.len(),
{
    if s.len() == 0 {
        h
    } else {
        fnv(fnv_step(h, s[0]), s.drop_first())
    }
}

/// The pseudo-random draw for a value under a seed.
pub open spec fn draw(seed: u64, value: Seq<char>) -> u64 {
    fnv(FNV_OFFSET ^ seed, value)
}

pub open spec fn seed_of(ctx: Option<TransformContext>) -> u64 {
    match ctx {
        Some(c) => c.seed,
        None => 0,
    }
}

/// The decimal digits of `n`.
pub open spec fn decimal(n: nat) -> Seq<char>
    decreases n,
{
    if n < 10 {
        seq![digit(n)]
    } else {
        decimal(n / 10) + seq![digit(n % 10)]
    }
}

pub open spec fn digit(d: nat) -> char {
    (('0' as u32) + d) as char
}

/// The format with each `{{_0}}` replaced by the field's value and each
/// `{{_name}}` by the field's name.
pub open spec fn render(format: Seq<char>, name: Seq<char>, value: Seq<char>) -> Seq<char>
    decreases format.len(),
{
    if format.len() == 0 {
        Seq::empty()
    } else if has_prefix(format, 0, "{{_0}}"@) && "{{_0}}"@.len() > 0 {
        value + render(format.subrange("{{_0}}"@.len() as int, format.len() as int), name, value)
    } else if has_prefix(format, 0, "{{_name}}"@) && "{{_name}}"@.len() > 0 {
        name + render(format.subrange("{{_name}}"@.len() as int, format.len() as int), name, value)
    } else {
        seq![format[0]] + render(format.drop_first(), name, value)
    }
}

/// The integer that a numeric rule picks for a draw.
pub open spec fn pick_in_range(min: u64, max: u64, d: u64) -> nat {
    (min + d as nat % ((max - min) as nat + 1)) as nat
}

impl ScalarRule {
    /// What the rule does with `value` under `seed`.
    pub open spec fn outcome(&self, name: Seq<char>, value: Seq<char>, seed: u64) -> Outcome {
        match self {
            ScalarRule::Template { format } => Ok(Some(render(format@, name, value))),
            ScalarRule::RandomNum { min, max } => if *min <= *max {
                Ok(Some(decimal(pick_in_range(*min, *max, draw(seed, value)))))
            } else {
                Err((TransformErrorKind::EmptyRange, value))
            },
            ScalarRule::Choice { values } => if values@.len() > 0 {
                Ok(Some(values@[(draw(seed, value) as nat % values@.len()) as int]@))
            } else {
                Err((TransformErrorKind::EmptyChoice, value))
            },
        }
    }

    /// Applies the rule to one field.
    pub fn transform(&self, field_name: &str, field_value: &str, ctx: &Option<TransformContext>) -> (r:
        Result<Option<String>, TransformError>)
        ensures
            match self.outcome(field_name@, field_value@, seed_of(*ctx)) {
                Ok(Some(v)) => r matches Ok(Some(s)) && s@ == v,
                Ok(None) => r matches Ok(None),
                Err((k, v)) => r matches Err(e) && e.kind == k && e.field_value@ == v
                    && e.field_name@ == field_name@,
            },
            r matches Err(e) ==> e.reason@ == Seq::<char>::empty(),
    {
        let seed = match ctx {
            Some(c) => c.seed,
            None => 0,
        };
        let value = chars_of(field_value);
        match self {
            ScalarRule::Template { format } => {
                let out = render_exec(&chars_of(format.as_str()), &chars_of(field_name), &value);
                Ok(Some(string_of(out.as_slice())))
            },
            ScalarRule::RandomNum { min, max } => {
                if *min > *max {
                    return Err(TransformError {
                        field_name: String::from_str(field_name),
                        field_value: String::from_str(field_value),
                        kind: TransformErrorKind::EmptyRange,
                        reason: String::new(),
                    });
                }
                let d = draw_exec(seed, &value);
                let span = *max - *min;
                let n: u64 = if span == u64::MAX {
                    d
                } else {
                    *min + d % (span + 1)
                };
                assert(n as nat == pick_in_range(*min, *max, draw(seed, value@))) by (nonlinear_arith)
                    requires
                        span == *max - *min,
                        *min <= *max,
                        d == draw(seed, value@),
                        span == u64::MAX ==> n == d,
                        span < u64::MAX ==> n as int == *min as int + d as int % (span as int + 1),
                {
                    if span == u64::MAX {
                        assert(*min == 0);
                        assert(d as nat % (span as nat + 1) == d as nat);
                    }
                }
                let out = decimal_exec(n);
                Ok(Some(string_of(out.as_slice())))
            },
            ScalarRule::Choice { values } => {
                if values.len() == 0 {
                    return Err(TransformError {
                        field_name: String::from_str(field_name),
                        field_value: String::from_str(field_value),
                        kind: TransformErrorKind::EmptyChoice,
                        reason: String::new(),
                    });
                }
                let d = draw_exec(seed, &value);
                let i = (d % (values.len() as u64)) as usize;
                Ok(Some(values[i].clone()))
            },
        }
    }
}

fn draw_exec(seed: u64, value: &Vec<char>) -> (r: u64)
    ensures
        r == draw(seed, value@),
{
    let mut h: u64 = FNV_OFFSET ^ seed;
    let mut i: usize = 0;
    assert(value@.subrange(0, value@.len() as int) =~= value@);
    while i < value.len()
        invariant
            i <= value@.len(),
            fnv(h, value@.subrange(i as int, value@.len() as int)) == draw(seed, value@),
        decreases value@.len() - i,
    {
        assert(value@.subrange(i as int, value@.len() as int).drop_first() =~= value@.subrange(
            i + 1,
            value@.len() as int,
        ));
        h = (h ^ ((value[i] as u32) as u64)).wrapping_mul(FNV_PRIME);
        i = i + 1;
    }
    assert(value@.subrange(i as int, value@.len() as int) =~= Seq::<char>::empty());
    assert(value@.subrange(0, value@.len() as int) =~= value@);
    h
}

fn decimal_exec(n: u64) -> (r: Vec<char>)
    ensures
        r@ == decimal(n as nat),
    decreases n,
{
    let d = (n % 10) as u32;
    let c = char_from_digit(d);
    if n < 10 {
        let mut r: Vec<char> = Vec::new();
        r.push(c);
        r
    } else {
        let mut r = decimal_exec(n / 10);
        r.push(c);
        r
    }
}

fn char_from_digit(d: u32) -> (c: char)
    requires
        d < 10,
    ensures
        c == digit(d as nat),
{
    if d == 0 { '0' } else if d == 1 { '1' } else if d == 2 { '2' } else if d == 3 { '3' }
    else if d == 4 { '4' } else if d == 5 { '5' } else if d == 6 { '6' } else if d == 7 { '7' }
    else if d == 8 { '8' } else { '9' }
}

fn append_chars(out: &mut Vec<char>, v: &Vec<char>)
    ensures
        final(out)@ == old(out)@ + v@,
{
    let mut j: usize = 0;
    while j < v.len()
        invariant
            j <= v@.len(),
            out@ == old(out)@ + v@.subrange(0, j as int),
        decreases v@.len() - j,
    {
        out.push(v[j]);
        j = j + 1;
        assert(out@ =~= old(out)@ + v@.subrange(0, j as int));
    }
    assert(v@.subrange(0, j as int) =~= v@);
}

fn render_exec(format: &Vec<char>, name: &Vec<char>, value: &Vec<char>) -> (r: Vec<char>)
    ensures
        r@ == render(format@, name@, value@),
{
    let vl = chars_of("{{_0}}").len();
    let nl = chars_of("{{_name}}").len();
    let mut out: Vec<char> = Vec::new();
    let mut i: usize = 0;
    let n = format.len();
    assert(format@.subrange(0, n as int) =~= format@);
    while i < n
        invariant
            i <= n,
            n == format@.len(),
            vl == "{{_0}}"@.len(),
            nl == "{{_name}}"@.len(),
            out@ + render(format@.subrange(i as int, n as int), name@, value@) == render(format@, name@, value@),
        decreases n - i,
    {
        let ghost rest = format@.subrange(i as int, n as int);
        let ghost before = out@;
        let on_value = has_prefix_exec(format, i, "{{_0}}");
        let on_name = has_prefix_exec(format, i, "{{_name}}");
        assert(on_value == has_prefix(rest, 0, "{{_0}}"@)) by {
            if i + vl <= n {
                assert(rest.subrange(0, vl as int) =~= format@.subrange(i as int, i + vl));
            }
        }
        assert(on_name == has_prefix(rest, 0, "{{_name}}"@)) by {
            if i + nl <= n {
                assert(rest.subrange(0, nl as int) =~= format@.subrange(i as int, i + nl));
            }
        }
        if on_value && vl > 0 {
            append_chars(&mut out, value);
            assert(rest.subrange(vl as int, rest.len() as int) =~= format@.subrange(i + vl, n as int));
            assert(out@ + render(format@.subrange(i + vl, n as int), name@, value@) =~= before + (value@
                + render(format@.subrange(i + vl, n as int), name@, value@)));
            i = i + vl;
        } else if on_name && nl > 0 {
            append_chars(&mut out, name);
            assert(rest.subrange(nl as int, rest.len() as int) =~= format@.subrange(i + nl, n as int));
            assert(out@ + render(format@.subrange(i + nl, n as int), name@, value@) =~= before + (name@
                + render(format@.subrange(i + nl, n as int), name@, value@)));
            i = i + nl;
        } else {
            assert(rest.drop_first() =~= format@.subrange(i + 1, n as int));
            out.push(format[i]);
            assert(out@ + render(format@.subrange(i + 1, n as int), name@, value@) =~= before + (seq![
                format@[i as int],
            ] + render(format@.subrange(i + 1, n as int), name@, value@)));
            i = i + 1;
        }
    }
    assert(render(format@.subrange(i as int, n as int), name@, value@) =~= Seq::<char>::empty());
    assert(out@ + Seq::<char>::empty() =~= out@);
    out
}

} // verus!
