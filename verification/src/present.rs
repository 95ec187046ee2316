//! The presenter: renders the generated collection to one text, for runs
//! that print instead of uploading. The text is the JSON array of the
//! features, then one line per feature with its name and the JSON array of
//! its strategies.

use vstd::prelude::*;
use crate::generate::Dataset;
use crate::json::{encode_feature, encode_strategy, join_comma, json_feature, json_list,
    json_strategy, lemma_join_comma_push};
use crate::model::{FeatureView, StrategyView};
use crate::text::{chars_to_string, push_str_chars};

verus! {

/// The name and strategy views of the mapping entries of a collection.
pub open spec fn entry_views(d: Dataset) -> Seq<(Seq<char>, Seq<StrategyView>)> {
    Seq::new(
        d.feature_strategies@.len(),
        |i: int| (
            d.feature_strategies@[i].0@,
            Seq::new(
                d.feature_strategies@[i].1@.len(),
                |j: int| d.feature_strategies@[i].1@[j]@,
            ),
        ),
    )
}

/// One rendered mapping entry: the feature's name, a separator, the JSON
/// array of its strategies, and a line break.
pub open spec fn rendered_entry(name: Seq<char>, ss: Seq<StrategyView>) -> Seq<char> {
    name + ": "@ + json_list(Seq::new(ss.len(), |j: int| json_strategy(ss[j]))) + "\n"@
}

/// The rendered mapping entries, in order.
pub open spec fn rendered_entries(entries: Seq<(Seq<char>, Seq<StrategyView>)>) -> Seq<char>
    decreases entries.len(),
{
    if entries.len() == 0 {
        Seq::empty()
    } else {
        rendered_entry(entries[0].0, entries[0].1) + rendered_entries(entries.drop_first())
    }
}

/// The rendered entries grow by one line at the end.
proof fn lemma_rendered_entries_push(
    entries: Seq<(Seq<char>, Seq<StrategyView>)>,
    e: (Seq<char>, Seq<StrategyView>),
)
    ensures
        rendered_entries(entries.push(e)) == rendered_entries(entries) + rendered_entry(e.0, e.1),
    decreases entries.len(),
{
    if entries.len() == 0 {
        assert(entries.push(e)[0] == e);
        assert(entries.push(e).drop_first() =~= Seq::<(Seq<char>, Seq<StrategyView>)>::empty());
        assert(rendered_entries(Seq::<(Seq<char>, Seq<StrategyView>)>::empty())
            == Seq::<char>::empty());
        assert(rendered_entries(entries.push(e)) =~= rendered_entries(entries) + rendered_entry(
            e.0,
            e.1,
        ));
    } else {
        assert(entries.push(e)[0] == entries[0]);
        assert(entries.push(e).drop_first() =~= entries.drop_first().push(e));
        lemma_rendered_entries_push(entries.drop_first(), e);
        assert(rendered_entries(entries.push(e)) =~= rendered_entries(entries) + rendered_entry(
            e.0,
            e.1,
        ));
    }
}

/// The whole rendered collection.
pub open spec fn rendered_dataset(
    features: Seq<FeatureView>,
    entries: Seq<(Seq<char>, Seq<StrategyView>)>,
) -> Seq<char> {
    json_list(Seq::new(features.len(), |i: int| json_feature(features[i]))) + "\n"@
        + rendered_entries(entries)
}

/// Renders the generated collection to one text: exactly `rendered_dataset`
/// of its views. The presenter performs no network activity.
#[verifier::rlimit(100)]
pub fn render_dataset(d: &Dataset) -> (r: String)
    ensures
        r@ == rendered_dataset(d.features_view(), entry_views(*d)),
{
    let ghost fv = d.features_view();
    let ghost ev = entry_views(*d);
    let ghost fitems = Seq::new(fv.len(), |i: int| json_feature(fv[i]));
    let mut out: Vec<char> = Vec::new();
    out.push('[');
    let n = d.features.len();
    let mut i: usize = 0;
    while i < n
        invariant
            i <= n,
            n == d.features@.len(),
            fv == d.features_view(),
            fitems == Seq::new(fv.len(), |k: int| json_feature(fv[k])),
            out@ == seq!['['] + join_comma(fitems.take(i as int)),
        decreases n - i,
    {
        if i > 0 {
            out.push(',');
        }
        let enc = encode_feature(&d.features[i]);
        push_str_chars(&mut out, enc.as_str());
        proof {
            assert(fitems.take((i + 1) as int) =~= fitems.take(i as int).push(fitems[i as int]));
            lemma_join_comma_push(fitems.take(i as int), fitems[i as int]);
            assert(out@ =~= seq!['['] + join_comma(fitems.take((i + 1) as int)));
        }
        i = i + 1;
    }
    proof {
        assert(fitems.take(n as int) =~= fitems);
    }
    out.push(']');
    push_str_chars(&mut out, "\n");
    let ghost front = json_list(fitems) + "\n"@;
    proof {
        assert(out@ =~= front);
    }
    let m = d.feature_strategies.len();
    let mut k: usize = 0;
    while k < m
        invariant
            k <= m,
            m == d.feature_strategies@.len(),
            ev == entry_views(*d),
            front == json_list(fitems) + "\n"@,
            out@ == front + rendered_entries(ev.take(k as int)),
        decreases m - k,
    {
        push_str_chars(&mut out, d.feature_strategies[k].0.as_str());
        push_str_chars(&mut out, ": ");
        let ghost sitems = Seq::new(
            ev[k as int].1.len(),
            |j: int| json_strategy(ev[k as int].1[j]),
        );
        out.push('[');
        let ghost mid = front + rendered_entries(ev.take(k as int)) + ev[k as int].0 + ": "@;
        let sn = d.feature_strategies[k].1.len();
        let mut j: usize = 0;
        while j < sn
            invariant
                j <= sn,
                k < m,
                m == d.feature_strategies@.len(),
                sn == d.feature_strategies@[k as int].1@.len(),
                ev == entry_views(*d),
                sitems == Seq::new(
                    ev[k as int].1.len(),
                    |l: int| json_strategy(ev[k as int].1[l]),
                ),
                sitems.len() == sn,
                out@ == mid + seq!['['] + join_comma(sitems.take(j as int)),
            decreases sn - j,
        {
            if j > 0 {
                out.push(',');
            }
            let enc = encode_strategy(&d.feature_strategies[k].1[j]);
            push_str_chars(&mut out, enc.as_str());
            proof {
                assert(sitems.take((j + 1) as int) =~= sitems.take(j as int).push(
                    sitems[j as int],
                ));
                lemma_join_comma_push(sitems.take(j as int), sitems[j as int]);
                assert(out@ =~= mid + seq!['['] + join_comma(sitems.take((j + 1) as int)));
            }
            j = j + 1;
        }
        proof {
            assert(sitems.take(sn as int) =~= sitems);
        }
        out.push(']');
        push_str_chars(&mut out, "\n");
        proof {
            assert(ev.take((k + 1) as int) =~= ev.take(k as int).push(ev[k as int]));
            lemma_rendered_entries_push(ev.take(k as int), ev[k as int]);
            assert(out@ =~= front + rendered_entries(ev.take((k + 1) as int)));
        }
        k = k + 1;
    }
    proof {
        assert(ev.take(m as int) =~= ev);
        assert(out@ =~= rendered_dataset(fv, ev));
    }
    chars_to_string(&out)
}

} // verus!
