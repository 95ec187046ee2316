//! The wire form of the data model: a JSON encoder whose output is pinned
//! down, character for character, by spec functions over the model views.
//! Field names are lower-camel-case; feature types are spelled in lower
//! camel case and operators in upper snake case; an `Unknown` operator is
//! spelled as its payload.

use vstd::prelude::*;
use crate::model::{Constraint, ConstraintView, Feature, FeatureView, Strategy, StrategyView};
use crate::model::feature_type_label;
use crate::text::{chars_to_string, dec_nat, push_dec_u32, push_str_chars, str_chars};

verus! {

/// How one character is written inside a JSON string: quote, backslash and
/// the common control characters are escaped, all else stands as itself.
pub open spec fn esc_char(c: char) -> Seq<char> {
    if c == '"' {
        seq!['\\', '"']
    } else if c == '\\' {
        seq!['\\', '\\']
    } else if c == '\n' {
        seq!['\\', 'n']
    } else if c == '\r' {
        seq!['\\', 'r']
    } else if c == '\t' {
        seq!['\\', 't']
    } else {
        seq![c]
    }
}

/// The escaped body of a JSON string.
pub open spec fn escape(s: Seq<char>) -> Seq<char>
    decreases s.len(),
{
    if s.len() == 0 {
        Seq::empty()
    } else {
        esc_char(s[0]) + escape(s.drop_first())
    }
}

/// Escaping distributes over concatenation.
pub proof fn lemma_escape_append(a: Seq<char>, b: Seq<char>)
    ensures
        escape(a + b) == escape(a) + escape(b),
    decreases a.len(),
{
    if a.len() == 0 {
        assert(a + b =~= b);
        assert(escape(a) + escape(b) =~= escape(b));
    } else {
        assert((a + b).drop_first() =~= a.drop_first() + b);
        lemma_escape_append(a.drop_first(), b);
        assert(escape(a + b) =~= escape(a) + escape(b));
    }
}

/// A JSON string: the escaped body between double quotes.
pub open spec fn json_string(s: Seq<char>) -> Seq<char> {
    seq!['"'] + escape(s) + seq!['"']
}

/// A JSON boolean.
pub open spec fn json_bool(b: bool) -> Seq<char> {
    if b {
        "true"@
    } else {
        "false"@
    }
}

/// Already-encoded items joined by commas.
pub open spec fn join_comma(items: Seq<Seq<char>>) -> Seq<char>
    decreases items.len(),
{
    if items.len() == 0 {
        Seq::empty()
    } else if items.len() == 1 {
        items[0]
    } else {
        items[0] + seq![','] + join_comma(items.drop_first())
    }
}

/// Appending one more item extends a comma-joined list at its end.
pub proof fn lemma_join_comma_push(items: Seq<Seq<char>>, x: Seq<char>)
    ensures
        join_comma(items.push(x)) == if items.len() == 0 {
            x
        } else {
            join_comma(items) + seq![','] + x
        },
    decreases items.len(),
{
    if items.len() == 0 {
        assert(items.push(x)[0] =~= x);
        assert(join_comma(items.push(x)) =~= x);
    } else {
        assert(items.push(x).drop_first() =~= items.drop_first().push(x));
        lemma_join_comma_push(items.drop_first(), x);
        if items.len() == 1 {
            assert(join_comma(items.push(x)) =~= join_comma(items) + seq![','] + x);
        } else {
            assert(join_comma(items.push(x)) =~= join_comma(items) + seq![','] + x);
        }
    }
}

/// A JSON array of already-encoded items.
pub open spec fn json_list(items: Seq<Seq<char>>) -> Seq<char> {
    seq!['['] + join_comma(items) + seq![']']
}

/// A JSON object of already-encoded string keys and values.
pub open spec fn json_object(pairs: Seq<(Seq<char>, Seq<char>)>) -> Seq<char> {
    seq!['{'] + join_comma(Seq::new(pairs.len(), |i: int| json_string(pairs[i].0) + seq![':'] + json_string(pairs[i].1))) + seq!['}']
}

/// The JSON form of a constraint.
pub open spec fn json_constraint(c: ConstraintView) -> Seq<char> {
    "{\"contextName\":"@ + json_string(c.context_name) + ",\"operator\":"@ + json_string(
        c.operator.label,
    ) + ",\"caseInsensitive\":"@ + json_bool(c.case_insensitive) + ",\"inverted\":"@ + json_bool(
        c.inverted,
    ) + ",\"values\":"@ + json_list(Seq::new(c.values.len(), |i: int| json_string(c.values[i])))
        + ",\"value\":"@ + json_string(c.value) + "}"@
}

/// The JSON form of a strategy.
pub open spec fn json_strategy(s: StrategyView) -> Seq<char> {
    "{\"name\":"@ + json_string(s.name) + ",\"title\":"@ + json_string(s.title) + ",\"disabled\":"@
        + json_bool(s.disabled) + ",\"sortOrder\":"@ + dec_nat(s.sort_order as nat)
        + ",\"constraints\":"@ + json_list(
        Seq::new(s.constraints.len(), |i: int| json_constraint(s.constraints[i])),
    ) + ",\"parameters\":"@ + json_object(s.parameters) + ",\"segments\":"@ + json_list(
        Seq::new(s.segments.len(), |i: int| dec_nat(s.segments[i] as nat)),
    ) + "}"@
}

/// The JSON form of a feature.
pub open spec fn json_feature(f: FeatureView) -> Seq<char> {
    "{\"name\":"@ + json_string(f.name) + ",\"description\":"@ + (match f.description {
        Option::Some(d) => json_string(d),
        Option::None => "null"@,
    }) + ",\"featureType\":"@ + json_string(feature_type_label(f.feature_type))
        + ",\"impressionData\":"@ + json_bool(f.impression_data) + "}"@
}

/// Appends the escaped body of `s`.
fn push_escaped(out: &mut Vec<char>, s: &str)
    ensures
        final(out)@ == old(out)@ + escape(s@),
{
    let v = str_chars(s);
    let n = v.len();
    let mut i: usize = 0;
    while i < n
        invariant
            i <= n,
            n == v@.len(),
            v@ == s@,
            out@ == old(out)@ + escape(s@.take(i as int)),
        decreases n - i,
    {
        let c = v[i];
        if c == '"' {
            out.push('\\');
            out.push('"');
        } else if c == '\\' {
            out.push('\\');
            out.push('\\');
        } else if c == '\n' {
            out.push('\\');
            out.push('n');
        } else if c == '\r' {
            out.push('\\');
            out.push('r');
        } else if c == '\t' {
            out.push('\\');
            out.push('t');
        } else {
            out.push(c);
        }
        proof {
            assert(s@.take((i + 1) as int) =~= s@.take(i as int) + seq![s@[i as int]]);
            lemma_escape_append(s@.take(i as int), seq![s@[i as int]]);
            assert(escape(seq![s@[i as int]]) =~= esc_char(s@[i as int])) by {
                reveal_with_fuel(escape, 2);
            }
            assert(out@ =~= old(out)@ + escape(s@.take((i + 1) as int)));
        }
        i = i + 1;
    }
    proof {
        assert(s@.take(n as int) =~= s@);
    }
}

/// Appends the JSON string form of `s`.
fn push_json_string(out: &mut Vec<char>, s: &str)
    ensures
        final(out)@ == old(out)@ + json_string(s@),
{
    out.push('"');
    push_escaped(out, s);
    out.push('"');
    proof {
        assert(out@ =~= old(out)@ + json_string(s@));
    }
}

/// Appends the JSON boolean form of `b`.
fn push_json_bool(out: &mut Vec<char>, b: bool)
    ensures
        final(out)@ == old(out)@ + json_bool(b),
{
    if b {
        push_str_chars(out, "true");
    } else {
        push_str_chars(out, "false");
    }
}

/// Appends the JSON form of `c`.
#[verifier::rlimit(100)]
fn push_constraint(out: &mut Vec<char>, c: &Constraint)
    ensures
        final(out)@ == old(out)@ + json_constraint(c@),
{
    push_str_chars(out, "{\"contextName\":");
    push_json_string(out, c.context_name.as_str());
    push_str_chars(out, ",\"operator\":");
    push_json_string(out, c.operator.wire_name());
    push_str_chars(out, ",\"caseInsensitive\":");
    push_json_bool(out, c.case_insensitive);
    push_str_chars(out, ",\"inverted\":");
    push_json_bool(out, c.inverted);
    push_str_chars(out, ",\"values\":");
    let ghost front = old(out)@ + "{\"contextName\":"@ + json_string(c@.context_name)
        + ",\"operator\":"@ + json_string(c@.operator.label) + ",\"caseInsensitive\":"@
        + json_bool(c@.case_insensitive) + ",\"inverted\":"@ + json_bool(c@.inverted)
        + ",\"values\":"@;
    out.push('[');
    let ghost encoded = Seq::new(c@.values.len(), |i: int| json_string(c@.values[i]));
    let n = c.values.len();
    let mut i: usize = 0;
    while i < n
        invariant
            i <= n,
            n == c.values@.len(),
            encoded == Seq::new(c@.values.len(), |k: int| json_string(c@.values[k])),
            c@.values.len() == n,
            c@.values == c.values.deep_view(),
            out@ == front + seq!['['] + join_comma(encoded.take(i as int)),
        decreases n - i,
    {
        if i > 0 {
            out.push(',');
        }
        push_json_string(out, c.values[i].as_str());
        proof {
            assert(c.values@[i as int]@ == c@.values[i as int]);
            assert(encoded.take((i + 1) as int) =~= encoded.take(i as int).push(
                encoded[i as int],
            ));
            lemma_join_comma_push(encoded.take(i as int), encoded[i as int]);
            assert(out@ =~= front + seq!['['] + join_comma(encoded.take((i + 1) as int)));
        }
        i = i + 1;
    }
    proof {
        assert(encoded.take(n as int) =~= encoded);
    }
    out.push(']');
    push_str_chars(out, ",\"value\":");
    push_json_string(out, c.value.as_str());
    push_str_chars(out, "}");
    proof {
        assert(out@ =~= old(out)@ + json_constraint(c@));
    }
}

/// Appends the JSON array of the constraints of a strategy.
fn push_constraint_list(out: &mut Vec<char>, cs: &Vec<Constraint>)
    ensures
        final(out)@ == old(out)@ + json_list(
            Seq::new(cs@.len(), |i: int| json_constraint(cs@[i]@)),
        ),
{
    out.push('[');
    let ghost enc = Seq::new(cs@.len(), |i: int| json_constraint(cs@[i]@));
    let n = cs.len();
    let mut i: usize = 0;
    while i < n
        invariant
            i <= n,
            n == cs@.len(),
            enc == Seq::new(cs@.len(), |k: int| json_constraint(cs@[k]@)),
            out@ == old(out)@ + seq!['['] + join_comma(enc.take(i as int)),
        decreases n - i,
    {
        if i > 0 {
            out.push(',');
        }
        push_constraint(out, &cs[i]);
        proof {
            assert(enc.take((i + 1) as int) =~= enc.take(i as int).push(enc[i as int]));
            lemma_join_comma_push(enc.take(i as int), enc[i as int]);
            assert(out@ =~= old(out)@ + seq!['['] + join_comma(enc.take((i + 1) as int)));
        }
        i = i + 1;
    }
    proof {
        assert(enc.take(n as int) =~= enc);
    }
    out.push(']');
}

/// Appends the JSON object of a parameter mapping.
fn push_param_object(out: &mut Vec<char>, ps: &Vec<(String, String)>)
    ensures
        final(out)@ == old(out)@ + json_object(
            Seq::new(ps@.len(), |i: int| (ps@[i].0@, ps@[i].1@)),
        ),
{
    out.push('{');
    let ghost pairs = Seq::new(ps@.len(), |i: int| (ps@[i].0@, ps@[i].1@));
    let ghost enc = Seq::new(
        pairs.len(),
        |i: int| json_string(pairs[i].0) + seq![':'] + json_string(pairs[i].1),
    );
    let n = ps.len();
    let mut i: usize = 0;
    while i < n
        invariant
            i <= n,
            n == ps@.len(),
            pairs == Seq::new(ps@.len(), |k: int| (ps@[k].0@, ps@[k].1@)),
            enc == Seq::new(
                pairs.len(),
                |k: int| json_string(pairs[k].0) + seq![':'] + json_string(pairs[k].1),
            ),
            out@ == old(out)@ + seq!['{'] + join_comma(enc.take(i as int)),
        decreases n - i,
    {
        if i > 0 {
            out.push(',');
        }
        push_json_string(out, ps[i].0.as_str());
        out.push(':');
        push_json_string(out, ps[i].1.as_str());
        proof {
            assert(enc.take((i + 1) as int) =~= enc.take(i as int).push(enc[i as int]));
            lemma_join_comma_push(enc.take(i as int), enc[i as int]);
            assert(out@ =~= old(out)@ + seq!['{'] + join_comma(enc.take((i + 1) as int)));
        }
        i = i + 1;
    }
    proof {
        assert(enc.take(n as int) =~= enc);
    }
    out.push('}');
}

/// Appends the JSON array of numeric segment identifiers.
fn push_segment_list(out: &mut Vec<char>, segs: &Vec<u32>)
    ensures
        final(out)@ == old(out)@ + json_list(
            Seq::new(segs@.len(), |i: int| dec_nat(segs@[i] as nat)),
        ),
{
    out.push('[');
    let ghost enc = Seq::new(segs@.len(), |i: int| dec_nat(segs@[i] as nat));
    let n = segs.len();
    let mut i: usize = 0;
    while i < n
        invariant
            i <= n,
            n == segs@.len(),
            enc == Seq::new(segs@.len(), |k: int| dec_nat(segs@[k] as nat)),
            out@ == old(out)@ + seq!['['] + join_comma(enc.take(i as int)),
        decreases n - i,
    {
        if i > 0 {
            out.push(',');
        }
        push_dec_u32(out, segs[i]);
        proof {
            assert(enc.take((i + 1) as int) =~= enc.take(i as int).push(enc[i as int]));
            lemma_join_comma_push(enc.take(i as int), enc[i as int]);
            assert(out@ =~= old(out)@ + seq!['['] + join_comma(enc.take((i + 1) as int)));
        }
        i = i + 1;
    }
    proof {
        assert(enc.take(n as int) =~= enc);
    }
    out.push(']');
}

/// Appends the JSON form of `s`.
#[verifier::rlimit(100)]
fn push_strategy(out: &mut Vec<char>, s: &Strategy)
    ensures
        final(out)@ == old(out)@ + json_strategy(s@),
{
    push_str_chars(out, "{\"name\":");
    push_json_string(out, s.name.as_str());
    push_str_chars(out, ",\"title\":");
    push_json_string(out, s.title.as_str());
    push_str_chars(out, ",\"disabled\":");
    push_json_bool(out, s.disabled);
    push_str_chars(out, ",\"sortOrder\":");
    push_dec_u32(out, s.sort_order);
    push_str_chars(out, ",\"constraints\":");
    push_constraint_list(out, &s.constraints);
    proof {
        assert(Seq::new(s.constraints@.len(), |i: int| json_constraint(s.constraints@[i]@))
            =~= Seq::new(s@.constraints.len(), |i: int| json_constraint(s@.constraints[i])));
    }
    push_str_chars(out, ",\"parameters\":");
    push_param_object(out, &s.parameters);
    proof {
        assert(Seq::new(s.parameters@.len(), |i: int| (s.parameters@[i].0@, s.parameters@[i].1@))
            =~= s@.parameters);
    }
    push_str_chars(out, ",\"segments\":");
    push_segment_list(out, &s.segments);
    proof {
        assert(Seq::new(s.segments@.len(), |i: int| dec_nat(s.segments@[i] as nat)) =~= Seq::new(
            s@.segments.len(),
            |i: int| dec_nat(s@.segments[i] as nat),
        ));
    }
    push_str_chars(out, "}");
    proof {
        assert(out@ =~= old(out)@ + json_strategy(s@));
    }
}

/// Appends the JSON form of `f`.
fn push_feature(out: &mut Vec<char>, f: &Feature)
    ensures
        final(out)@ == old(out)@ + json_feature(f@),
{
    push_str_chars(out, "{\"name\":");
    push_json_string(out, f.name.as_str());
    push_str_chars(out, ",\"description\":");
    match &f.description {
        Option::Some(d) => push_json_string(out, d.as_str()),
        Option::None => push_str_chars(out, "null"),
    }
    push_str_chars(out, ",\"featureType\":");
    push_json_string(out, f.feature_type.label());
    push_str_chars(out, ",\"impressionData\":");
    push_json_bool(out, f.impression_data);
    push_str_chars(out, "}");
    proof {
        assert(out@ =~= old(out)@ + json_feature(f@));
    }
}

/// The JSON text of a feature, exactly `json_feature` of its view.
pub fn encode_feature(f: &Feature) -> (r: String)
    ensures
        r@ == json_feature(f@),
{
    let mut out: Vec<char> = Vec::new();
    push_feature(&mut out, f);
    chars_to_string(&out)
}

/// The JSON text of a strategy, exactly `json_strategy` of its view.
pub fn encode_strategy(s: &Strategy) -> (r: String)
    ensures
        r@ == json_strategy(s@),
{
    let mut out: Vec<char> = Vec::new();
    push_strategy(&mut out, s);
    chars_to_string(&out)
}

/// The JSON text of a constraint, exactly `json_constraint` of its view.
pub fn encode_constraint(c: &Constraint) -> (r: String)
    ensures
        r@ == json_constraint(c@),
{
    let mut out: Vec<char> = Vec::new();
    push_constraint(&mut out, c);
    chars_to_string(&out)
}

} // verus!
