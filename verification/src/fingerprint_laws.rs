//! How tokenizers are asked and told apart.

use vstd::prelude::*;
use crate::json::JsonView;
use crate::text::{decimal, joined, occurs, padded};
use crate::text_laws::{
    law_joined, lemma_at_end, lemma_between, lemma_in_front, lemma_in_rear, lemma_occurs_in,
};
use crate::tokenizer_fingerprint::{
    delay_after, escaped, law_identical_means_same_counts, matches_among, models_error, pairs,
    plain_report, repeated, response_step, text_comparison_line, text_comparisons, text_model_line,
    text_models, tokenizers, unlisted, Comparison, Fingerprint, ProbeResult, Report, StepView,
};

verus! {

/// The number of matches is the same from either side, all of them where a model is held against
/// itself, and never more than there are results; all results match exactly where every one of
/// them does.
pub proof fn law_matches(a: Seq<ProbeResult>, b: Seq<ProbeResult>, n: int)
    requires
        0 <= n <= a.len(),
        n <= b.len(),
    ensures
        matches_among(a, b, n) == matches_among(b, a, n),
        matches_among(a, a, n) == n,
        matches_among(a, b, n) <= n,
        matches_among(a, b, n) == n <==> forall|i: int|
            0 <= i < n ==> (#[trigger] a[i]).delta_tokens == b[i].delta_tokens,
    decreases n,
{
    if n > 0 {
        law_matches(a, b, n - 1);
        if matches_among(a, b, n) == n {
            law_identical_means_same_counts(a, b, n);
        }
        if forall|i: int| 0 <= i < n ==> (#[trigger] a[i]).delta_tokens == b[i].delta_tokens {
            assert(a[n - 1].delta_tokens == b[n - 1].delta_tokens);
        }
    }
}

/// Every model is held against every later one, once: a pair is among those compared exactly
/// where its first stands before its second.
pub proof fn law_pairs(n: int, len: int, i: int, j: int)
    requires
        0 <= n <= len,
    ensures
        pairs(n, len).contains((i, j)) <==> 0 <= i < n && i < j < len,
        pairs(n, len).no_duplicates(),
        forall|k: int|
            0 <= k < pairs(n, len).len() ==> 0 <= (#[trigger] pairs(n, len)[k]).0 < n
                && pairs(n, len)[k].0 < pairs(n, len)[k].1 < len,
    decreases n,
{
    if n > 0 {
        law_pairs(n - 1, len, i, j);
        let before = pairs(n - 1, len);
        let row = Seq::new((len - n) as nat, |k: int| (n - 1, n + k));
        let all = pairs(n, len);
        assert(all == before + row);
        if before.contains((i, j)) {
            let k = choose|k: int| 0 <= k < before.len() && before[k] == (i, j);
            assert(all[k] == (i, j));
        }
        if i == n - 1 && i < j < len {
            assert(row[j - n] == (i, j));
            assert(all[before.len() + (j - n)] == (i, j));
        }
        if all.contains((i, j)) {
            let k = choose|k: int| 0 <= k < all.len() && all[k] == (i, j);
            if k < before.len() {
                assert(before[k] == (i, j));
            } else {
                assert(row[k - before.len()] == (i, j));
            }
        }
        assert forall|k: int| 0 <= k < all.len() implies 0 <= (#[trigger] all[k]).0 < n
            && all[k].0 < all[k].1 < len by {
            if k < before.len() {
                assert(all[k] == before[k]);
            } else {
                assert(all[k] == row[k - before.len()]);
            }
        }
        assert forall|x: int, y: int|
            0 <= x < all.len() && 0 <= y < all.len() && x != y implies all[x] != all[y] by {
            if x < before.len() && y < before.len() {
                assert(all[x] == before[x] && all[y] == before[y]);
            } else if x < before.len() {
                assert(all[x] == before[x]);
                assert(all[y] == row[y - before.len()]);
            } else if y < before.len() {
                assert(all[y] == before[y]);
                assert(all[x] == row[x - before.len()]);
            } else {
                assert(all[x] == row[x - before.len()]);
                assert(all[y] == row[y - before.len()]);
            }
        }
    }
}

proof fn lemma_repeated(models: Seq<Seq<char>>)
    ensures
        repeated(models).len() == 0 <==> models.no_duplicates(),
        forall|k: int|
            0 <= k < repeated(models).len() ==> models.contains(#[trigger] repeated(models)[k]),
    decreases models.len(),
{
    if models.len() > 0 {
        let init = models.drop_last();
        let last = models.last();
        lemma_repeated(init);
        assert(models[models.len() - 1] == last);
        if models.no_duplicates() {
            assert forall|x: int, y: int|
                0 <= x < init.len() && 0 <= y < init.len() && x != y implies init[x] != init[y] by {
                assert(models[x] != models[y]);
            }
            if init.contains(last) {
                let k = choose|k: int| 0 <= k < init.len() && init[k] == last;
                assert(models[k] != models[models.len() - 1]);
            }
        }
        if init.no_duplicates() && !init.contains(last) {
            assert forall|x: int, y: int|
                0 <= x < models.len() && 0 <= y < models.len() && x != y implies models[x]
                != models[y] by {
                if x < init.len() && y < init.len() {
                    assert(init[x] != init[y]);
                } else if x < init.len() {
                    assert(init.contains(init[x]));
                } else {
                    assert(init.contains(init[y]));
                }
            }
        }
        assert forall|k: int| 0 <= k < repeated(models).len() implies models.contains(
            #[trigger] repeated(models)[k],
        ) by {
            let before = repeated(init);
            if k < before.len() {
                assert(repeated(models)[k] == before[k]);
                let i = choose|i: int| 0 <= i < init.len() && init[i] == before[k];
                assert(models[i] == before[k]);
            }
        }
    }
}

/// Models are accepted where each is named once and all of them are in the catalog, and only
/// there; a refusal names every model that is the reason for it.
pub proof fn law_models_accepted(models: Seq<Seq<char>>, catalog: Map<Seq<char>, Option<String>>)
    ensures
        models_error(models, catalog) is None <==> models.no_duplicates() && forall|i: int|
            0 <= i < models.len() ==> catalog.contains_key(#[trigger] models[i]),
        models_error(models, catalog) matches Some(e) ==> {
            &&& !models.no_duplicates() ==> forall|k: int|
                0 <= k < repeated(models).len() ==> occurs(#[trigger] repeated(models)[k], e)
            &&& models.no_duplicates() ==> forall|i: int|
                0 <= i < models.len() && !catalog.contains_key(#[trigger] models[i]) ==> occurs(
                    models[i],
                    e,
                )
        },
{
    broadcast use vstd::seq_lib::group_filter_ensures;

    lemma_repeated(models);
    let missing = |m: Seq<char>| !catalog.contains_key(m);
    let strange = unlisted(models, catalog);
    assert(strange == models.filter(missing));
    if strange.len() > 0 {
        assert(strange.contains(strange[0]));
        models.lemma_filter_contains_rev(missing, strange[0]);
        assert(missing(strange[0]));
        let i = choose|i: int| 0 <= i < models.len() && models[i] == strange[0];
        assert(!catalog.contains_key(models[i]));
    } else {
        assert forall|i: int| 0 <= i < models.len() implies catalog.contains_key(
            #[trigger] models[i],
        ) by {
            if missing(models[i]) {
                assert(strange.contains(models[i]));
            }
        }
    }
    if let Some(e) = models_error(models, catalog) {
        if !models.no_duplicates() {
            assert forall|k: int| 0 <= k < repeated(models).len() implies occurs(
                #[trigger] repeated(models)[k],
                e,
            ) by {
                law_joined(repeated(models), ", "@, k);
                lemma_in_rear(
                    repeated(models)[k],
                    "duplicate OpenRouter model IDs: "@,
                    joined(repeated(models), ", "@),
                );
            }
        } else {
            assert forall|i: int| 0 <= i < models.len() && !catalog.contains_key(
                #[trigger] models[i],
            ) implies occurs(models[i], e) by {
                assert(missing(models[i]));
                assert(strange.contains(models[i]));
                let k = choose|k: int| 0 <= k < strange.len() && strange[k] == models[i];
                law_joined(strange, ", "@, k);
                lemma_in_rear(
                    strange[k],
                    "unknown OpenRouter model IDs (no inference requests were made): "@,
                    joined(strange, ", "@),
                );
            }
        }
    }
}

/// A response is read where it is a success. It is asked for again only where the failure may
/// pass and an attempt is left, after the time that the server asks for, and else after a time
/// that doubles from attempt to attempt up to a bound. Any other failure is final, and its
/// message holds the model and what the server said.
pub proof fn law_attempts(
    model: Seq<char>,
    attempt: nat,
    status: u16,
    retry_after: Option<u64>,
    body: Seq<char>,
)
    ensures
        ({
            let step = response_step(model, attempt, status, retry_after, body);
            let passing = status == 429 || status == 500 || 502 <= status <= 504;
            &&& step is Decode <==> 200 <= status <= 299
            &&& step is Retry <==> passing && attempt < 5
            &&& step matches StepView::Retry { seconds, notice } ==> {
                &&& seconds == delay_after(attempt, retry_after)
                &&& model.is_prefix_of(notice)
                &&& retry_after matches Some(asked) ==> seconds == asked
            }
            &&& step matches StepView::Fail(e) ==> occurs(model, e) && body.is_suffix_of(e)
        }),
        delay_after(0, None) == 2,
        attempt < 4 ==> delay_after(attempt + 1, None) == 2 * delay_after(attempt, None),
        attempt >= 4 ==> delay_after(attempt, None) == delay_after(4, None),
{
    let step = response_step(model, attempt, status, retry_after, body);
    match step {
        StepView::Fail(e) => {
            let a = "OpenRouter request for "@;
            let behind = e.skip((a.len() + model.len()) as int);
            lemma_between(a, model, behind);
            assert(e =~= a + model + behind);
            assert(e.subrange(e.len() - body.len(), e.len() as int) =~= body);
        },
        StepView::Retry { seconds, notice } => {
            assert(notice.subrange(0, model.len() as int) =~= model);
        },
        _ => {},
    }
}

/// The tokenizer of a model is the one of its last entry in the catalog; a model is in the table
/// where it has an entry, and entries without an id make no difference.
pub proof fn law_catalog(entries: Seq<JsonView>, entry: JsonView, id: Seq<char>)
    ensures
        ({
            let before = tokenizers(entries);
            let after = tokenizers(entries.push(entry));
            &&& entry.at("id"@) == JsonView::Text(id) ==> after.contains_key(id) && after[id]
                == entry.at("architecture"@).at("tokenizer"@).text()
            &&& entry.at("id"@) != JsonView::Text(id) ==> (after.contains_key(id)
                <==> before.contains_key(id)) && (before.contains_key(id) ==> after[id]
                == before[id])
            &&& !(entry.at("id"@) is Text) ==> after == before
        }),
        !tokenizers(Seq::empty()).contains_key(id),
{
    assert(entries.push(entry).drop_last() =~= entries);
}

/// In a cell of a table neither a bar nor a backquote stands without a backslash in front of it,
/// and a text without them stays as it is.
pub proof fn law_escaped(s: Seq<char>, i: int)
    requires
        0 <= i < escaped(s).len(),
    ensures
        escaped(s)[i] == '|' || escaped(s)[i] == '`' ==> i > 0 && escaped(s)[i - 1] == '\\',
        !s.contains('|') && !s.contains('`') ==> escaped(s) == s,
    decreases s.len(),
{
    lemma_escaped_plain(s);
    if s.len() > 0 {
        let before = escaped(s.drop_last());
        if i < before.len() {
            law_escaped(s.drop_last(), i);
        }
    }
}

proof fn lemma_escaped_plain(s: Seq<char>)
    ensures
        !s.contains('|') && !s.contains('`') ==> escaped(s) == s,
    decreases s.len(),
{
    if s.len() > 0 {
        let init = s.drop_last();
        lemma_escaped_plain(init);
        if !s.contains('|') && !s.contains('`') {
            assert(s[s.len() - 1] == s.last());
            assert forall|c: char| init.contains(c) implies s.contains(c) by {
                let k = choose|k: int| 0 <= k < init.len() && init[k] == c;
                assert(s[k] == c);
            }
            assert(init.push(s.last()) =~= s);
        }
    } else {
        assert(s =~= Seq::empty());
    }
}

proof fn lemma_model_told(f: Fingerprint, cost: Seq<char>)
    ensures
        occurs(f.model@, text_model_line(f, cost)),
{
    let line = text_model_line(f, cost);
    let behind = line.skip(f.model@.len() as int);
    assert(padded(f.model@, 42).take(f.model@.len() as int) =~= f.model@);
    assert(line.take(f.model@.len() as int) =~= f.model@);
    lemma_between(Seq::empty(), f.model@, behind);
    assert(Seq::<char>::empty() + f.model@ + behind =~= line);
}

proof fn lemma_models_told(
    start: Seq<char>,
    f: Seq<Fingerprint>,
    costs: Seq<Seq<char>>,
    i: int,
)
    requires
        f.len() == costs.len(),
        0 <= i < f.len(),
    ensures
        occurs(f[i].model@, text_models(start, f, costs)),
    decreases f.len(),
{
    let before = text_models(start, f.drop_last(), costs.drop_last());
    let line = text_model_line(f.last(), costs.last());
    if i < f.len() - 1 {
        lemma_models_told(start, f.drop_last(), costs.drop_last(), i);
        assert(f.drop_last()[i] == f[i]);
        lemma_in_front(f[i].model@, before, line);
    } else {
        lemma_model_told(f.last(), costs.last());
        lemma_in_rear(f[i].model@, before, line);
    }
}

proof fn lemma_comparison_starts(
    start: Seq<char>,
    c: Seq<Comparison>,
    percents: Seq<Seq<char>>,
)
    ensures
        start.is_prefix_of(text_comparisons(start, c, percents)),
    decreases c.len(),
{
    if c.len() > 0 && percents.len() > 0 {
        lemma_comparison_starts(start, c.drop_last(), percents.drop_last());
        let before = text_comparisons(start, c.drop_last(), percents.drop_last());
        let all = text_comparisons(start, c, percents);
        assert(all.subrange(0, start.len() as int) =~= before.subrange(0, start.len() as int));
    }
}

proof fn lemma_comparisons_told(
    start: Seq<char>,
    c: Seq<Comparison>,
    percents: Seq<Seq<char>>,
    k: int,
)
    requires
        c.len() == percents.len(),
        0 <= k < c.len(),
    ensures
        occurs(text_comparison_line(c[k], percents[k]), text_comparisons(start, c, percents)),
    decreases c.len(),
{
    let before = text_comparisons(start, c.drop_last(), percents.drop_last());
    let line = text_comparison_line(c.last(), percents.last());
    if k < c.len() - 1 {
        lemma_comparisons_told(start, c.drop_last(), percents.drop_last(), k);
        assert(c.drop_last()[k] == c[k]);
        assert(percents.drop_last()[k] == percents[k]);
        lemma_in_front(text_comparison_line(c[k], percents[k]), before, line);
    } else {
        lemma_at_end(before, line);
    }
}

/// The report names every model, and tells every comparison: the two models, how many of the
/// results match, and of how many.
pub proof fn law_report_tells(report: Report, i: int, k: int)
    requires
        report.costs@.len() == report.fingerprints@.len(),
        report.percents@.len() == report.comparisons@.len(),
        0 <= i < report.fingerprints@.len(),
        0 <= k < report.comparisons@.len(),
    ensures
        ({
            let told = plain_report(report);
            let c = report.comparisons@[k];
            &&& occurs(report.fingerprints@[i].model@, told)
            &&& occurs(
                c.left@ + " vs "@ + c.right@ + ": "@ + decimal(c.matching_probes as nat) + "/"@
                    + decimal(c.total_probes as nat),
                told,
            )
        }),
{
    let told = plain_report(report);
    let costs = crate::text::texts(report.costs@);
    let percents = crate::text::texts(report.percents@);
    let heading = crate::tokenizer_fingerprint::text_heading(report.method@);
    let models = text_models(heading, report.fingerprints@, costs);
    let start = models + "\n"@;
    let all = text_comparisons(start, report.comparisons@, percents);
    let end =
        "\nMatching deltas are evidence of shared tokenization behavior, not proof of model identity.\n"@;
    assert(told == all + end);
    let model = report.fingerprints@[i].model@;
    lemma_models_told(heading, report.fingerprints@, costs, i);
    lemma_in_front(model, models, "\n"@);
    lemma_comparison_starts(start, report.comparisons@, percents);
    let rest = all.skip(start.len() as int);
    assert(all =~= start + rest) by {
        assert(all.subrange(0, start.len() as int) == start);
    }
    lemma_in_front(model, start, rest);
    lemma_in_front(model, all, end);
    let c = report.comparisons@[k];
    let line = text_comparison_line(c, percents[k]);
    lemma_comparisons_told(start, report.comparisons@, percents, k);
    lemma_in_front(line, all, end);
    let front = c.left@ + " vs "@ + c.right@ + ": "@ + decimal(c.matching_probes as nat) + "/"@
        + decimal(c.total_probes as nat);
    let behind = line.skip(front.len() as int);
    assert(line.take(front.len() as int) =~= front);
    lemma_between(Seq::empty(), front, behind);
    assert(Seq::<char>::empty() + front + behind =~= line);
    lemma_occurs_in(front, line, told);
}

} // verus!
