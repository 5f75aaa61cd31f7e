//! String prompt templates: `{variable}` placeholders substituted with
//! structured values rendered as text.

use vstd::prelude::*;

use crate::error::Error;
use crate::error::compose_msg;
use crate::state::Entries;
use crate::state::distinct_keys;
use crate::state::find_entry;
use crate::state::has_key;
use crate::state::lemma_lookup_at;
use crate::state::lookup;
use crate::text::string_of;
use crate::value::StructuredValue;

verus! {

use vstd::string::StringExecFns;

/// The decimal digit character for `d` in `0..10`.
pub open spec fn dec_digit(d: int) -> char {
    if d == 0 {
        '0'
    } else if d == 1 {
        '1'
    } else if d == 2 {
        '2'
    } else if d == 3 {
        '3'
    } else if d == 4 {
        '4'
    } else if d == 5 {
        '5'
    } else if d == 6 {
        '6'
    } else if d == 7 {
        '7'
    } else if d == 8 {
        '8'
    } else {
        '9'
    }
}

/// The decimal rendering of a natural number.
pub open spec fn dec_nat(n: nat) -> Seq<char>
    decreases n,
{
    if n < 10 {
        seq![dec_digit(n as int)]
    } else {
        dec_nat(n / 10).push(dec_digit((n % 10) as int))
    }
}

/// The decimal rendering of an integer, minus sign included.
pub open spec fn render_int(i: int) -> Seq<char> {
    if i < 0 {
        seq!['-'] + dec_nat((-i) as nat)
    } else {
        dec_nat(i as nat)
    }
}

/// The text rendering of a structured value: `null`, `true`/`false`,
/// decimal integers, the text itself for strings, and bracketed
/// comma-separated lists. Text keeps its characters as they are even
/// when nested in a list — no quoting and no escaping — a deliberate
/// simplification of JSON rendering.
pub open spec fn render_spec(v: StructuredValue) -> Seq<char>
    decreases v,
{
    match v {
        StructuredValue::Null => "null"@,
        StructuredValue::Bool(b) => if b {
            "true"@
        } else {
            "false"@
        },
        StructuredValue::Int(i) => render_int(i as int),
        StructuredValue::Text(s) => s@,
        StructuredValue::List(items) => seq!['['] + render_list(items@) + seq![']'],
    }
}

/// The comma-separated renderings of a list of values.
pub open spec fn render_list(s: Seq<StructuredValue>) -> Seq<char>
    decreases s,
{
    if s.len() == 0 {
        Seq::empty()
    } else if s.len() == 1 {
        render_spec(s[0])
    } else {
        render_list(s.drop_last()) + seq![','] + render_spec(s.last())
    }
}

/// Renders a natural number in decimal.
fn render_u64(n: u64) -> (r: String)
    ensures
        r@ == dec_nat(n as nat),
{
    let mut digits: Vec<char> = Vec::new();
    let mut m = n;
    if m == 0 {
        digits.push('0');
        proof {
            assert(digits@.reverse() =~= seq![dec_digit(0)]);
        }
    } else {
        while m > 0
            invariant
                m >= 0,
                m > 0 ==> dec_nat(n as nat) == dec_nat(m as nat) + digits@.reverse(),
                m == 0 ==> dec_nat(n as nat) == digits@.reverse(),
            decreases m,
        {
            let d_val = (m % 10) as u8;
            let d = dec_digit_char(d_val);
            let ghost before = digits@;
            digits.push(d);
            proof {
                assert(digits@.reverse() =~= seq![d] + before.reverse());
                if m / 10 > 0 {
                    assert(dec_nat(m as nat) == dec_nat((m / 10) as nat).push(
                        dec_digit((m % 10) as int),
                    ));
                    assert(dec_nat((m / 10) as nat) + (seq![d] + before.reverse()) =~= (dec_nat(
                        (m / 10) as nat,
                    ).push(d)) + before.reverse());
                } else {
                    assert(m < 10);
                    assert(dec_nat(m as nat) == seq![dec_digit(m as int)]);
                    assert(seq![dec_digit(m as int)] + before.reverse() =~= seq![d]
                        + before.reverse());
                }
            }
            m = m / 10;
        }
    }
    let mut rev: Vec<char> = Vec::new();
    let mut j: usize = 0;
    while j < digits.len()
        invariant
            j <= digits@.len(),
            rev@.len() == j,
            forall|q: int| 0 <= q < j ==> rev@[q] == digits@[digits@.len() - 1 - q],
        decreases digits@.len() - j,
    {
        rev.push(digits[digits.len() - 1 - j]);
        j += 1;
    }
    proof {
        assert(rev@ =~= digits@.reverse());
    }
    string_of(&rev)
}

/// The digit character for a value below ten.
fn dec_digit_char(d: u8) -> (r: char)
    requires
        d < 10,
    ensures
        r == dec_digit(d as int),
{
    if d == 0 {
        '0'
    } else if d == 1 {
        '1'
    } else if d == 2 {
        '2'
    } else if d == 3 {
        '3'
    } else if d == 4 {
        '4'
    } else if d == 5 {
        '5'
    } else if d == 6 {
        '6'
    } else if d == 7 {
        '7'
    } else if d == 8 {
        '8'
    } else {
        '9'
    }
}

/// Renders a signed integer in decimal.
fn render_i64(i: i64) -> (r: String)
    ensures
        r@ == render_int(i as int),
{
    if i < 0 {
        let mag: u64 = if i == i64::MIN {
            9223372036854775808u64
        } else {
            (-i) as u64
        };
        proof {
            assert(mag as int == -(i as int));
        }
        let tail = render_u64(mag);
        let mut s = String::new();
        s.push('-');
        s.append(tail.as_str());
        proof {
            assert(s@ =~= seq!['-'] + dec_nat(mag as nat));
        }
        s
    } else {
        render_u64(i as u64)
    }
}

/// Renders a structured value as text.
pub fn render(v: &StructuredValue) -> (r: String)
    ensures
        r@ == render_spec(*v),
    decreases v,
{
    match v {
        StructuredValue::Null => "null".to_owned(),
        StructuredValue::Bool(b) => {
            if *b {
                "true".to_owned()
            } else {
                "false".to_owned()
            }
        },
        StructuredValue::Int(i) => render_i64(*i),
        StructuredValue::Text(s) => s.clone(),
        StructuredValue::List(items) => {
            proof {
                assert(decreases_to!(*v => v->List_0));
                assert(decreases_to!(v->List_0 => v->List_0@));
            }
            let inner = render_items(items);
            let mut s = String::new();
            s.push('[');
            s.append(inner.as_str());
            s.push(']');
            proof {
                assert(s@ =~= seq!['['] + render_list(items@) + seq![']']);
            }
            s
        },
    }
}

/// Renders list items, comma-separated.
fn render_items(items: &Vec<StructuredValue>) -> (r: String)
    ensures
        r@ == render_list(items@),
    decreases items@,
{
    let mut out = String::new();
    let mut i: usize = 0;
    while i < items.len()
        invariant
            i <= items@.len(),
            out@ == render_list(items@.take(i as int)),
        decreases items@.len() - i,
    {
        if i > 0 {
            out.push(',');
        }
        let piece = render(&items[i]);
        out.append(piece.as_str());
        proof {
            let t = items@.take(i + 1);
            assert(t.drop_last() =~= items@.take(i as int));
            assert(t.last() == items@[i as int]);
            if i == 0 {
                assert(out@ =~= render_spec(items@[0]));
                assert(t =~= seq![items@[0]]);
                assert(t[0] == items@[0]);
            }
        }
        i += 1;
    }
    proof {
        assert(items@.take(items@.len() as int) =~= items@);
    }
    out
}

/// What `str::replace` produces for a haystack, a needle and a
/// replacement: every non-overlapping occurrence of the needle,
/// leftmost first, replaced. The result depends on the three strings
/// alone.
pub uninterp spec fn replaced(hay: Seq<char>, from: Seq<char>, to: Seq<char>) -> Seq<char>;

/// Relies on `str::replace`: replaces every non-overlapping occurrence
/// of `from` in `hay`, leftmost first, by `to`.
#[verifier::external_body]
fn replace_all(hay: &str, from: &str, to: &str) -> (r: String)
    ensures
        r@ == replaced(hay@, from@, to@),
{
    hay.replace(from, to)
}

/// What scanning a template for brace-enclosed identifiers yields: the
/// identifiers of every `{name}` occurrence, in match order, where a
/// name is a letter or underscore followed by letters, digits and
/// underscores. The result depends on the template alone.
pub uninterp spec fn template_vars(s: Seq<char>) -> Seq<Seq<char>>;

/// Relies on regex's `Regex::new` and `captures_iter` over the fixed
/// brace-identifier pattern: the captured identifiers, in match
/// order. The pattern is a valid literal, so compiling it never
/// fails; the result depends on the template alone.
#[verifier::external_body]
fn find_template_vars(template: &str) -> (r: Vec<String>)
    ensures
        r@.len() == template_vars(template@).len(),
        forall|i: int| 0 <= i < r@.len() ==> r@[i]@ == template_vars(template@)[i],
{
    let re = regex::Regex::new(r"\{([a-zA-Z_][a-zA-Z0-9_]*)\}").unwrap();
    let mut out = Vec::new();
    for cap in re.captures_iter(template) {
        if let Some(m) = cap.get(1) {
            out.push(m.as_str().to_string());
        }
    }
    out
}

/// The distinct values among the first `n` of `s`, keeping first
/// occurrences in order.
pub open spec fn dedup_upto(s: Seq<Seq<char>>, n: int) -> Seq<Seq<char>>
    decreases n,
{
    if n <= 0 {
        Seq::empty()
    } else {
        let prev = dedup_upto(s, n - 1);
        if prev.contains(s[n - 1]) {
            prev
        } else {
            prev.push(s[n - 1])
        }
    }
}

/// A variable's placeholder: the variable name in braces.
pub open spec fn braced(v: Seq<char>) -> Seq<char> {
    seq!['{'] + v + seq!['}']
}

/// The template after substituting the first `n` variables, each
/// replacing every occurrence of its placeholder with its rendered
/// value, in variable order.
pub open spec fn subst_upto(
    t: Seq<char>,
    vars: Seq<String>,
    values: Seq<(String, StructuredValue)>,
    n: int,
) -> Seq<char>
    decreases n,
{
    if n <= 0 {
        t
    } else {
        replaced(
            subst_upto(t, vars, values, n - 1),
            braced(vars[n - 1]@),
            render_spec(lookup(values, vars[n - 1]@)),
        )
    }
}

/// A prompt template over a string with `{variable}` placeholders.
#[derive(Debug)]
pub struct StringPromptTemplate {
    /// The template string.
    pub template: String,
    /// The variables substituted by `format`, in order.
    pub input_variables: Vec<String>,
}

impl StringPromptTemplate {
    /// Creates a template with an explicit variable list.
    pub fn new(template: String, input_variables: Vec<String>) -> (r: Self)
        ensures
            r.template == template,
            r.input_variables == input_variables,
    {
        StringPromptTemplate { template, input_variables }
    }

    /// Creates a template whose variables are the distinct
    /// brace-enclosed identifiers of the template string, in first
    /// appearance order.
    pub fn from_template(template: String) -> (r: Self)
        ensures
            r.template == template,
            ({
                let dv = dedup_upto(
                    template_vars(template@),
                    template_vars(template@).len() as int,
                );
                &&& r.input_variables@.len() == dv.len()
                &&& forall|i: int| 0 <= i < dv.len() ==> (#[trigger] r.input_variables@[i])@
                    == dv[i]
            }),
    {
        let ghost tvars = template_vars(template@);
        let found = find_template_vars(template.as_str());
        let mut out: Vec<String> = Vec::new();
        let mut k: usize = 0;
        while k < found.len()
            invariant
                k <= found@.len(),
                found@.len() == tvars.len(),
                forall|i: int| 0 <= i < found@.len() ==> (#[trigger] found@[i])@ == tvars[i],
                out@.len() == dedup_upto(tvars, k as int).len(),
                forall|i: int|
                    0 <= i < out@.len() ==> (#[trigger] out@[i])@ == dedup_upto(tvars, k as int)[i],
            decreases found@.len() - k,
        {
            let ghost prev = dedup_upto(tvars, k as int);
            let mut seen = false;
            let mut j: usize = 0;
            while j < out.len()
                invariant
                    k < found@.len(),
                    found@[k as int]@ == tvars[k as int],
                    out@.len() == prev.len(),
                    forall|i: int| 0 <= i < out@.len() ==> (#[trigger] out@[i])@ == prev[i],
                    j <= out@.len(),
                    seen ==> prev.contains(tvars[k as int]),
                    !seen ==> forall|i: int| 0 <= i < j ==> prev[i] != tvars[k as int],
                decreases out@.len() - j,
            {
                if crate::text::str_eq(out[j].as_str(), found[k].as_str()) {
                    seen = true;
                    proof {
                        assert(prev[j as int] == tvars[k as int]);
                    }
                }
                j += 1;
            }
            if !seen {
                proof {
                    if prev.contains(tvars[k as int]) {
                        let w = choose|w: int| 0 <= w < prev.len() && prev[w] == tvars[k as int];
                        assert(out@[w]@ == prev[w]);
                    }
                }
                out.push(found[k].clone());
            }
            k += 1;
        }
        StringPromptTemplate { template, input_variables: out }
    }

    /// Formats the template: each variable's placeholder is replaced,
    /// in variable order, by the rendered value bound to it. Fails
    /// with a `PromptTemplate` error exactly when some variable has no
    /// binding.
    pub fn format(&self, values: &Entries) -> (r: Result<String, Error>)
        requires
            distinct_keys(values@),
        ensures
            (r is Err) <==> (exists|i: int|
                0 <= i < self.input_variables@.len() && !has_key(
                    values@,
                    (#[trigger] self.input_variables@[i])@,
                )),
            r matches Err(e) ==> e is PromptTemplate,
            r matches Ok(out) ==> out@ == subst_upto(
                self.template@,
                self.input_variables@,
                values@,
                self.input_variables@.len() as int,
            ),
    {
        let mut result = self.template.clone();
        let mut i: usize = 0;
        while i < self.input_variables.len()
            invariant
                distinct_keys(values@),
                i <= self.input_variables@.len(),
                forall|j: int|
                    0 <= j < i ==> has_key(values@, (#[trigger] self.input_variables@[j])@),
                result@ == subst_upto(self.template@, self.input_variables@, values@, i as int),
            decreases self.input_variables@.len() - i,
        {
            let var = &self.input_variables[i];
            let idx = match find_entry(values, var.as_str()) {
                Some(idx) => idx,
                None => {
                    return Err(
                        Error::PromptTemplate(compose_msg("Variable not found: ", var.as_str())),
                    );
                },
            };
            proof {
                lemma_lookup_at(values@, idx as int);
            }
            let mut pat = String::new();
            pat.push('{');
            pat.append(var.as_str());
            pat.push('}');
            proof {
                assert(pat@ =~= braced(var@));
            }
            let value_str = render(&values[idx].1);
            result = replace_all(result.as_str(), pat.as_str(), value_str.as_str());
            i += 1;
        }
        Ok(result)
    }

    /// The variables this template substitutes, in order.
    pub fn input_variables(&self) -> (r: Vec<String>)
        ensures
            r@.len() == self.input_variables@.len(),
            forall|i: int| 0 <= i < r@.len() ==> (#[trigger] r@[i])@ == self.input_variables@[i]@,
    {
        let mut out: Vec<String> = Vec::new();
        let mut i: usize = 0;
        while i < self.input_variables.len()
            invariant
                i <= self.input_variables@.len(),
                out@.len() == i,
                forall|j: int| 0 <= j < i ==> (#[trigger] out@[j])@ == self.input_variables@[j]@,
            decreases self.input_variables@.len() - i,
        {
            out.push(self.input_variables[i].clone());
            i += 1;
        }
        out
    }
}

} // verus!
