//! Order of the rows, exit codes, settings, and what a failure is told as.

use vstd::prelude::*;

use crate::aws::ec2::OldestFirst;
use crate::aws::errors::{
    chain_text, expired_credentials_markers, explains, marked,
    missing_or_invalid_credentials_markers, OperationError,
};
use crate::cli::{level_name, Command};
use crate::config::config_source;
use crate::error::Error;
use crate::model::InstanceRecord;
use crate::order::{sorted, sorting_keeps_elements, sorting_orders, Order};
use crate::run::{
    are_evaluations, cost_rank, in_seconds, is_evaluation, overall_worst,
    overall_worst_is_the_maximum, present, urgency, ByName, CostliestFirst, Evaluated, WorstFirst,
};
use crate::slack::{accepted, webhook_of, MentionThreshold};
use crate::staleness::{verdict_views, worst_is_the_maximum, Config, Severity};
use crate::text::{begins_with, is_blank, is_space, lower, occurs_at, occurs_in, precedes, trimmed};

verus! {

// ───────────────────────── Order and exit codes ─────────────────────────

/// Of two known costs the higher ranks higher, and a cost that is not known
/// ranks below every cost that is not negative.
pub proof fn unknown_costs_rank_lowest(a: InstanceRecord, b: InstanceRecord)
    ensures
        a.estimated_cost_usd is Some && b.estimated_cost_usd is Some
            && a.estimated_cost_usd->0.less(b.estimated_cost_usd->0) ==> cost_rank(a) < cost_rank(b),
        a.estimated_cost_usd is None && b.estimated_cost_usd is Some
            && !b.estimated_cost_usd->0.negative() ==> cost_rank(a) < cost_rank(b),
        a.estimated_cost_usd is None && b.estimated_cost_usd is None ==> cost_rank(a) == cost_rank(
            b,
        ),
        a.estimated_cost_usd == b.estimated_cost_usd ==> cost_rank(a) == cost_rank(b),
{
}

/// Every record has a row with its own verdicts, and every row is that of a
/// record: nothing is lost or made up when the rows are ordered.
pub proof fn every_record_is_evaluated(
    out: Seq<Evaluated>,
    records: Seq<InstanceRecord>,
    cfg: Config,
    list: Seq<Evaluated>,
)
    requires
        are_evaluations(list, records, cfg),
        out == sorted::<Evaluated, WorstFirst>(list),
    ensures
        out.len() == records.len(),
        forall|r: InstanceRecord|
            #[trigger] records.contains(r) ==> exists|e: Evaluated|
                #[trigger] out.contains(e) && is_evaluation(e, r, cfg),
        forall|e: Evaluated|
            #[trigger] out.contains(e) ==> records.contains(e.0) && is_evaluation(e, e.0, cfg),
{
    broadcast use vstd::seq_lib::group_to_multiset_ensures;

    sorting_keeps_elements::<Evaluated, WorstFirst>(list);
    assert forall|e: Evaluated| #[trigger] out.contains(e) <==> list.contains(e) by {
        assert(out.contains(e) <==> out.to_multiset().count(e) > 0);
        assert(list.contains(e) <==> list.to_multiset().count(e) > 0);
    }
    assert forall|r: InstanceRecord| #[trigger] records.contains(r) implies exists|e: Evaluated|
        #[trigger] out.contains(e) && is_evaluation(e, r, cfg) by {
        let k = choose|k: int| 0 <= k < records.len() && records[k] == r;
        assert(is_evaluation(list[k], records[k], cfg));
        assert(list.contains(list[k]));
        assert(out.contains(list[k]));
    }
    assert forall|e: Evaluated| #[trigger] out.contains(e) implies records.contains(e.0)
        && is_evaluation(e, e.0, cfg) by {
        assert(list.contains(e));
        let k = choose|k: int| 0 <= k < list.len() && list[k] == e;
        assert(is_evaluation(list[k], records[k], cfg));
        assert(records[k] == e.0);
    }
}

/// Whether `a` comes before `b` in a dictionary: they agree up to a place at
/// which `a` ends or has the lower character.
pub open spec fn in_dictionary_order(a: Seq<char>, b: Seq<char>, k: int) -> bool {
    &&& 0 <= k <= a.len()
    &&& k < b.len()
    &&& a.take(k) == b.take(k)
    &&& k == a.len() || a[k] < b[k]
}

/// Texts are ordered as in a dictionary, by their code points.
pub proof fn texts_are_ordered_as_in_a_dictionary(a: Seq<char>, b: Seq<char>)
    ensures
        precedes(a, b) <==> exists|k: int| in_dictionary_order(a, b, k),
    decreases a.len(),
{
    if b.len() > 0 {
        if a.len() == 0 {
            assert(a.take(0) =~= b.take(0));
            assert(in_dictionary_order(a, b, 0));
        } else if a[0] != b[0] {
            if a[0] < b[0] {
                assert(a.take(0) =~= b.take(0));
                assert(in_dictionary_order(a, b, 0));
            }
            if exists|k: int| in_dictionary_order(a, b, k) {
                let k = choose|k: int| in_dictionary_order(a, b, k);
                if k > 0 {
                    assert(a.take(k)[0] == a[0] && b.take(k)[0] == b[0]);
                }
            }
        } else {
            let c = a.drop_first();
            let d = b.drop_first();
            texts_are_ordered_as_in_a_dictionary(c, d);
            if exists|k: int| in_dictionary_order(c, d, k) {
                let k = choose|k: int| in_dictionary_order(c, d, k);
                assert(a.take(k + 1) =~= seq![a[0]] + c.take(k));
                assert(b.take(k + 1) =~= seq![b[0]] + d.take(k));
                assert(in_dictionary_order(a, b, k + 1));
            }
            if exists|k: int| in_dictionary_order(a, b, k) {
                let k = choose|k: int| in_dictionary_order(a, b, k);
                assert(k > 0);
                assert(c.take(k - 1) =~= a.take(k).drop_first());
                assert(d.take(k - 1) =~= b.take(k).drop_first());
                assert(in_dictionary_order(c, d, k - 1));
            }
        }
    }
}

/// Where two rows tie, the older stands first, and of one age the one whose id
/// comes first: among rows of one urgency, of one cost, and among records.
pub proof fn ties_go_by_age_and_id(
    rows: Seq<Evaluated>,
    records: Seq<InstanceRecord>,
    i: int,
    j: int,
)
    requires
        0 <= i < j,
    ensures
        ({
            let s = sorted::<Evaluated, WorstFirst>(rows);
            j < s.len() && urgency(s[i]) == urgency(s[j]) ==> s[i].0.total_age_seconds
                >= s[j].0.total_age_seconds && (s[i].0.total_age_seconds
                == s[j].0.total_age_seconds ==> !precedes(
                s[j].0.instance_id@,
                s[i].0.instance_id@,
            ))
        }),
        ({
            let s = sorted::<InstanceRecord, CostliestFirst>(records);
            j < s.len() && cost_rank(s[i]) == cost_rank(s[j]) ==> s[i].total_age_seconds
                >= s[j].total_age_seconds && (s[i].total_age_seconds == s[j].total_age_seconds
                ==> !precedes(s[j].instance_id@, s[i].instance_id@))
        }),
        ({
            let s = sorted::<InstanceRecord, OldestFirst>(records);
            j < s.len() && s[i].total_age_seconds == s[j].total_age_seconds ==> !precedes(
                s[j].instance_id@,
                s[i].instance_id@,
            )
        }),
{
    sorting_orders::<Evaluated, WorstFirst>(rows);
    sorting_orders::<InstanceRecord, CostliestFirst>(records);
    sorting_orders::<InstanceRecord, OldestFirst>(records);
    let a = sorted::<Evaluated, WorstFirst>(rows);
    let b = sorted::<InstanceRecord, CostliestFirst>(records);
    let c = sorted::<InstanceRecord, OldestFirst>(records);
    if j < a.len() {
        assert(!WorstFirst::before(a[j], a[i]));
    }
    if j < b.len() {
        assert(!CostliestFirst::before(b[j], b[i]));
    }
    if j < c.len() {
        assert(!OldestFirst::before(c[j], c[i]));
    }
}

/// Whether some row has a verdict of this severity.
pub open spec fn some_verdict(rows: Seq<Evaluated>, s: Severity) -> bool {
    exists|i: int, j: int|
        0 <= i < rows.len() && 0 <= j < verdict_views(rows[i].2@).len() && (
        #[trigger] verdict_views(rows[i].2@)[j]).severity() == s
}

proof fn lemma_urgency(e: Evaluated)
    ensures
        forall|j: int|
            0 <= j < verdict_views(e.2@).len() ==> (
            #[trigger] verdict_views(e.2@)[j]).severity().rank() <= urgency(e),
        urgency(e) >= 0 ==> exists|j: int|
            0 <= j < verdict_views(e.2@).len() && (
            #[trigger] verdict_views(e.2@)[j]).severity().rank() == urgency(e),
{
    worst_is_the_maximum(verdict_views(e.2@));
}

/// The exit code is that of the worst verdict of all rows: 2 where one is High,
/// else 1 where one is Medium, else 0.
pub proof fn the_exit_code_is_that_of_the_worst_row(rows: Seq<Evaluated>)
    ensures
        ({
            let code: int = match overall_worst(rows) {
                Some(s) => s.code(),
                None => 0,
            };
            &&& code == 2 <==> some_verdict(rows, Severity::High)
            &&& code == 1 <==> some_verdict(rows, Severity::Medium) && !some_verdict(
                rows,
                Severity::High,
            )
            &&& code == 0 <==> !some_verdict(rows, Severity::Medium) && !some_verdict(
                rows,
                Severity::High,
            )
        }),
{
    overall_worst_is_the_maximum(rows);
    let top: int = match overall_worst(rows) {
        Some(s) => s.rank(),
        None => -1,
    };
    assert forall|i: int, j: int|
        0 <= i < rows.len() && 0 <= j < verdict_views(rows[i].2@).len() implies (
    #[trigger] verdict_views(rows[i].2@)[j]).severity().rank() <= top by {
        lemma_urgency(rows[i]);
        assert(urgency(rows[i]) <= top);
    }
    if overall_worst(rows) is Some {
        let s = overall_worst(rows)->0;
        let i = choose|i: int| 0 <= i < rows.len() && urgency(#[trigger] rows[i]) == s.rank();
        lemma_urgency(rows[i]);
        let j = choose|j: int|
            0 <= j < verdict_views(rows[i].2@).len() && (
            #[trigger] verdict_views(rows[i].2@)[j]).severity().rank() == s.rank();
        assert(verdict_views(rows[i].2@)[j].severity() == s);
        assert(some_verdict(rows, s));
    }
    if some_verdict(rows, Severity::High) {
        let (i, j) = choose|i: int, j: int|
            0 <= i < rows.len() && 0 <= j < verdict_views(rows[i].2@).len() && (
            #[trigger] verdict_views(rows[i].2@)[j]).severity() == Severity::High;
        assert(verdict_views(rows[i].2@)[j].severity().rank() <= top);
    }
    if some_verdict(rows, Severity::Medium) {
        let (i, j) = choose|i: int, j: int|
            0 <= i < rows.len() && 0 <= j < verdict_views(rows[i].2@).len() && (
            #[trigger] verdict_views(rows[i].2@)[j]).severity() == Severity::Medium;
        assert(verdict_views(rows[i].2@)[j].severity().rank() <= top);
    }
}

/// The regions that are queried are those that have a name: each of them, and
/// no other.
pub proof fn all_named_regions_are_queried(names: Seq<Option<String>>, name: String)
    ensures
        sorted::<String, ByName>(present(names)).contains(name) <==> names.contains(Some(name)),
{
    broadcast use vstd::seq_lib::group_to_multiset_ensures;

    let list = present(names);
    lemma_present(names, name);
    sorting_keeps_elements::<String, ByName>(list);
    let all = sorted::<String, ByName>(list);
    assert(all.contains(name) <==> all.to_multiset().count(name) > 0);
    assert(list.contains(name) <==> list.to_multiset().count(name) > 0);
}

proof fn lemma_present(names: Seq<Option<String>>, name: String)
    ensures
        present(names).contains(name) <==> names.contains(Some(name)),
    decreases names.len(),
{
    let list = present(names);
    if names.len() > 0 {
        let front = names.drop_last();
        let n = names.len() - 1;
        let some = present(front);
        assert(names[n] == names.last());
        lemma_present(front, name);
        if list.contains(name) {
            let k = choose|k: int| 0 <= k < list.len() && list[k] == name;
            if k < some.len() {
                assert(some[k] == name);
                assert(some.contains(name));
                let j = choose|j: int| 0 <= j < front.len() && front[j] == Some(name);
                assert(names[j] == Some(name));
            } else {
                assert(names[n] == Some(name));
            }
        }
        if names.contains(Some(name)) {
            let j = choose|j: int| 0 <= j < names.len() && names[j] == Some(name);
            if j < n {
                assert(front[j] == Some(name));
                assert(some.contains(name));
                let k = choose|k: int| 0 <= k < some.len() && some[k] == name;
                assert(list[k] == name);
            } else {
                assert(list[some.len() as int] == name);
            }
        }
    }
}

// ───────────────────────── Settings ─────────────────────────

/// A setting in days or hours counts in seconds: exactly, as far as that fits,
/// and else as much as fits. What is not set stays unset.
pub proof fn settings_count_in_seconds(v: i64, unit: int)
    requires
        unit > 0,
    ensures
        in_seconds(None, unit) is None,
        in_seconds(Some(v), unit) is Some,
        i64::MIN <= v * unit <= i64::MAX ==> in_seconds(Some(v), unit) == Some(v * unit),
        v * unit > i64::MAX ==> in_seconds(Some(v), unit) == Some(i64::MAX as int),
        v * unit < i64::MIN ==> in_seconds(Some(v), unit) == Some(i64::MIN as int),
{
}

/// A config file that is named on the command line is the one to use, whatever
/// else is set; then one that is named in the environment; then the one below
/// the home directory. Only the first two were asked for.
pub proof fn the_command_line_names_the_config_file(
    flag: Option<Seq<char>>,
    env: Option<Seq<char>>,
    home: Option<Seq<char>>,
)
    ensures
        flag is Some ==> config_source(flag, env, home) == Some((flag->0, true)),
        flag is None && env is Some && env->0.len() > 0 ==> config_source(flag, env, home) == Some(
            (env->0, true),
        ),
        flag is None && (env is None || env->0.len() == 0) && home is Some && home->0.len() > 0 ==> {
            let found = config_source(flag, env, home);
            &&& found is Some
            &&& !(found->0).1
            &&& begins_with((found->0).0, home->0)
            &&& exists|front: Seq<char>|
                (found->0).0 == #[trigger] (front + "/.config/gasleak/gasleak.toml"@)
        },
        flag is None && (env is None || env->0.len() == 0) && (home is None || home->0.len() == 0)
            ==> config_source(flag, env, home) is None,
{
    if home is Some && home->0.len() > 0 {
        let h = home->0;
        reveal_strlit("/.config/gasleak/gasleak.toml");
        reveal_strlit(".config/gasleak/gasleak.toml");
        let path = crate::config::home_path(h);
        assert(path.take(h.len() as int) =~= h);
        if h.last() == '/' {
            assert(path =~= h.drop_last() + "/.config/gasleak/gasleak.toml"@);
        } else {
            assert(path =~= h + "/.config/gasleak/gasleak.toml"@);
        }
    }
}

/// The webhook of the file is used before that of the environment, and there is
/// none where neither names one.
pub proof fn the_file_names_the_webhook(file: Option<Seq<char>>, env: Option<Seq<char>>)
    ensures
        file is Some ==> webhook_of(file, env) == file,
        file is None ==> webhook_of(file, env) == env,
{
}

/// The name of a threshold may be in any case.
pub proof fn thresholds_are_named_in_any_case(a: Seq<char>, b: Seq<char>)
    requires
        lower(a) == lower(b),
    ensures
        MentionThreshold::named(Some(a)) == MentionThreshold::named(Some(b)),
        MentionThreshold::named(None) == Some(MentionThreshold::High),
{
}

/// Lower case is the same in either case, and changes nothing but the letters
/// `A` to `Z`.
pub proof fn lower_case_is_kept(s: Seq<char>)
    ensures
        lower(lower(s)) == lower(s),
        lower(s).len() == s.len(),
        forall|i: int|
            0 <= i < s.len() && !('A' <= #[trigger] s[i] <= 'Z') ==> lower(s)[i] == s[i],
        forall|i: int|
            0 <= i < s.len() && 'A' <= #[trigger] s[i] <= 'Z' ==> lower(s)[i] as int - 'a' as int
                == s[i] as int - 'A' as int,
{
    assert(lower(lower(s)) =~= lower(s));
}

proof fn lemma_trimmed_parts(s: Seq<char>)
    ensures
        exists|before: Seq<char>, after: Seq<char>|
            is_blank(before) && is_blank(after) && s == #[trigger] (before + trimmed(s) + after),
        trimmed(s).len() > 0 ==> !is_space(trimmed(s)[0]) && !is_space(trimmed(s).last()),
    decreases s.len(),
{
    let none = Seq::<char>::empty();
    if s.len() == 0 {
        assert(s =~= none + trimmed(s) + none);
    } else if is_space(s[0]) {
        let rest = s.drop_first();
        lemma_trimmed_parts(rest);
        let (before, after) = choose|before: Seq<char>, after: Seq<char>|
            is_blank(before) && is_blank(after) && rest == #[trigger] (before + trimmed(rest)
                + after);
        let more = seq![s[0]] + before;
        assert(is_blank(more)) by {
            assert forall|i: int| 0 <= i < more.len() implies is_space(#[trigger] more[i]) by {
                if i > 0 {
                    assert(more[i] == before[i - 1]);
                }
            }
        }
        assert(s =~= seq![s[0]] + rest);
        assert(s =~= more + trimmed(s) + after);
    } else if is_space(s.last()) {
        let rest = s.drop_last();
        lemma_trimmed_parts(rest);
        let (before, after) = choose|before: Seq<char>, after: Seq<char>|
            is_blank(before) && is_blank(after) && rest == #[trigger] (before + trimmed(rest)
                + after);
        let more = after.push(s.last());
        assert(is_blank(more)) by {
            assert forall|i: int| 0 <= i < more.len() implies is_space(#[trigger] more[i]) by {
                if i < after.len() {
                    assert(more[i] == after[i]);
                }
            }
        }
        assert(s =~= rest.push(s.last()));
        assert(s =~= before + trimmed(s) + more);
    } else {
        assert(s =~= none + trimmed(s) + none);
    }
}

/// A reply says that the payload was taken exactly where its status is in the
/// two hundreds and its body is `ok` between white space.
pub proof fn only_ok_is_accepted(status: int, body: Seq<char>)
    ensures
        accepted(status, body) <==> 200 <= status <= 299 && exists|before: Seq<char>, after: Seq<
            char,
        >|
            is_blank(before) && is_blank(after) && body == #[trigger] (before + "ok"@ + after),
{
    lemma_trimmed_parts(body);
    if 200 <= status <= 299 && exists|before: Seq<char>, after: Seq<char>|
        is_blank(before) && is_blank(after) && body == #[trigger] (before + "ok"@ + after) {
        let (before, after) = choose|before: Seq<char>, after: Seq<char>|
            is_blank(before) && is_blank(after) && body == #[trigger] (before + "ok"@ + after);
        crate::slack::white_space_around_ok_is_ignored(before, after, status);
    }
}

// ───────────────────────── Failures ─────────────────────────

proof fn lemma_lower_adds(a: Seq<char>, b: Seq<char>)
    ensures
        lower(a + b) == lower(a) + lower(b),
{
    assert(lower(a + b) =~= lower(a) + lower(b));
}

proof fn lemma_occurs_within(a: Seq<char>, s: Seq<char>, b: Seq<char>, needle: Seq<char>)
    requires
        occurs_in(s, needle),
    ensures
        occurs_in(a + s + b, needle),
{
    let i = choose|i: int| occurs_at(s, needle, i);
    let text = a + s + b;
    assert(text.subrange(a.len() + i, a.len() + i + needle.len()) =~= s.subrange(
        i,
        i + needle.len(),
    ));
    assert(occurs_at(text, needle, a.len() + i));
}

proof fn lemma_chain_keeps(messages: Seq<Seq<char>>, k: int, needle: Seq<char>)
    requires
        0 <= k < messages.len(),
        occurs_in(lower(messages[k]), needle),
        needle.len() > 0,
    ensures
        occurs_in(lower(chain_text(messages)), needle),
    decreases messages.len(),
{
    let none = Seq::<char>::empty();
    let front = messages.drop_last();
    let n = messages.len() - 1;
    let head = chain_text(front);
    let last = messages[n];
    assert(messages.last() == last);
    let text = chain_text(messages);
    if head.len() > 0 {
        assert(text == head + " | "@ + last);
        lemma_lower_adds(head + " | "@, last);
        lemma_lower_adds(head, " | "@);
        let low = lower(head) + lower(" | "@);
        assert(lower(text) =~= low + lower(last) + none);
        assert(lower(text) =~= none + lower(head) + (lower(" | "@) + lower(last)));
        if k == n {
            lemma_occurs_within(low, lower(last), none, needle);
        } else {
            assert(front[k] == messages[k]);
            lemma_chain_keeps(front, k, needle);
            lemma_occurs_within(none, lower(head), lower(" | "@) + lower(last), needle);
        }
    } else if k < n {
        assert(front[k] == messages[k]);
        lemma_chain_keeps(front, k, needle);
        let i = choose|i: int| occurs_at(lower(head), needle, i);
        assert(false);
    }
}

/// Whether some message of an error, its own or that of a cause, has the words
/// in it, in any case.
pub open spec fn speaks_of(err: Error, words: Seq<char>) -> bool {
    ||| occurs_in(lower(err.shown()), words)
    ||| exists|k: int|
        0 <= k < err.cause_texts().len() && occurs_in(
            lower(#[trigger] err.cause_texts()[k]),
            words,
        )
}

/// Whether an error speaks of credentials that have expired.
pub open spec fn speaks_of_expiry(err: Error) -> bool {
    ||| speaks_of(err, "requestexpired"@)
    ||| speaks_of(err, "request has expired"@)
    ||| speaks_of(err, "expiredtoken"@)
    ||| speaks_of(err, "token is expired"@)
}

/// Whether an error speaks of credentials that are missing or were refused.
pub open spec fn speaks_of_refusal(err: Error) -> bool {
    ||| speaks_of(err, "authfailure"@)
    ||| speaks_of(err, "invalidclienttokenid"@)
    ||| speaks_of(err, "unrecognizedclient"@)
    ||| speaks_of(err, "unable to locate credentials"@)
    ||| speaks_of(err, "no valid credential sources"@)
    ||| speaks_of(err, "could not load credentials"@)
    ||| speaks_of(err, "aws was not able to validate the provided access credentials"@)
}

proof fn lemma_speaks(err: Error, words: Seq<char>)
    requires
        speaks_of(err, words),
        words.len() > 0,
    ensures
        occurs_in(lower(chain_text(seq![err.shown()] + err.cause_texts())), words),
{
    let all = seq![err.shown()] + err.cause_texts();
    if occurs_in(lower(err.shown()), words) {
        assert(all[0] == err.shown());
        lemma_chain_keeps(all, 0, words);
    } else {
        let k = choose|k: int|
            0 <= k < err.cause_texts().len() && occurs_in(
                lower(#[trigger] err.cause_texts()[k]),
                words,
            );
        assert(all[k + 1] == err.cause_texts()[k]);
        lemma_chain_keeps(all, k + 1, words);
    }
}

proof fn lemma_expiry_marked(err: Error)
    requires
        speaks_of_expiry(err),
    ensures
        marked(
            lower(chain_text(seq![err.shown()] + err.cause_texts())),
            expired_credentials_markers(),
        ),
{
    reveal_strlit("requestexpired");
    reveal_strlit("request has expired");
    reveal_strlit("expiredtoken");
    reveal_strlit("token is expired");
    let list = expired_credentials_markers();
    let k: int = if speaks_of(err, "requestexpired"@) {
        0
    } else if speaks_of(err, "request has expired"@) {
        1
    } else if speaks_of(err, "expiredtoken"@) {
        2
    } else {
        3
    };
    assert(list[0] == "requestexpired"@ && list[1] == "request has expired"@ && list[2]
        == "expiredtoken"@ && list[3] == "token is expired"@);
    lemma_speaks(err, list[k]);
}

proof fn lemma_refusal_marked(err: Error)
    requires
        speaks_of_refusal(err),
    ensures
        marked(
            lower(chain_text(seq![err.shown()] + err.cause_texts())),
            missing_or_invalid_credentials_markers(),
        ),
{
    reveal_strlit("authfailure");
    reveal_strlit("invalidclienttokenid");
    reveal_strlit("unrecognizedclient");
    reveal_strlit("unable to locate credentials");
    reveal_strlit("no valid credential sources");
    reveal_strlit("could not load credentials");
    reveal_strlit("aws was not able to validate the provided access credentials");
    let list = missing_or_invalid_credentials_markers();
    let k: int = if speaks_of(err, "authfailure"@) {
        0
    } else if speaks_of(err, "invalidclienttokenid"@) {
        1
    } else if speaks_of(err, "unrecognizedclient"@) {
        2
    } else if speaks_of(err, "unable to locate credentials"@) {
        3
    } else if speaks_of(err, "no valid credential sources"@) {
        4
    } else if speaks_of(err, "could not load credentials"@) {
        5
    } else {
        6
    };
    assert(list[0] == "authfailure"@ && list[1] == "invalidclienttokenid"@ && list[2]
        == "unrecognizedclient"@ && list[3] == "unable to locate credentials"@ && list[4]
        == "no valid credential sources"@ && list[5] == "could not load credentials"@ && list[6]
        == "aws was not able to validate the provided access credentials"@);
    lemma_speaks(err, list[k]);
}

/// A failure that speaks of expired credentials is told as such, with the
/// operation; one that speaks of missing or refused ones is never passed on as
/// it is. What is passed on names the operation and keeps the error.
pub proof fn credential_failures_are_told_as_such(r: OperationError, err: Error, operation: Seq<char>)
    requires
        explains(r, err, operation),
    ensures
        speaks_of_expiry(err) ==> r is Remedy && begins_with(
            r->Remedy_0@,
            "AWS credentials appear to be expired while trying to "@ + operation,
        ),
        speaks_of_refusal(err) ==> r is Remedy,
        r matches OperationError::Remedy(m) ==> begins_with(
            m@,
            "AWS credentials appear to be expired while trying to "@ + operation,
        ) || begins_with(
            m@,
            "AWS credentials are missing or invalid while trying to "@ + operation,
        ),
        r matches OperationError::Failed { context, error } ==> error == err && context@
            == "failed to "@ + operation && !speaks_of_expiry(err) && !speaks_of_refusal(err),
{
    if speaks_of_expiry(err) {
        lemma_expiry_marked(err);
    }
    if speaks_of_refusal(err) {
        lemma_refusal_marked(err);
    }
    if let OperationError::Remedy(m) = r {
        let a = "AWS credentials appear to be expired while trying to "@ + operation;
        let b = "AWS credentials are missing or invalid while trying to "@ + operation;
        if m@ == crate::aws::errors::expired_remedy(operation) {
            assert(m@.take(a.len() as int) =~= a);
        }
        if m@ == crate::aws::errors::missing_remedy(operation) {
            assert(m@.take(b.len() as int) =~= b);
        }
    }
}

/// The message of an error tells what it is about: the file, the instance and
/// the region, the call, or the outermost cause.
pub proof fn messages_name_what_failed(err: Error)
    ensures
        err matches Error::ConfigMissing { path } ==> occurs_in(err.shown(), path@),
        err matches Error::ConfigRead { path, .. } ==> occurs_in(err.shown(), path@),
        err matches Error::ConfigParse { path, .. } ==> occurs_in(err.shown(), path@),
        err matches Error::InstanceNotFound { id, region } ==> occurs_in(err.shown(), id@)
            && occurs_in(err.shown(), region@),
        err matches Error::InvalidTimestamp(m) ==> occurs_in(err.shown(), m@),
        err matches Error::SlackConfigInvalid(m) ==> occurs_in(err.shown(), m@),
        err matches Error::Aws { context, causes } ==> occurs_in(err.shown(), context@) && (
        causes@.len() > 0 ==> occurs_in(err.shown(), causes@[0]@)),
{
    let none = Seq::<char>::empty();
    let text = err.shown();
    match err {
        Error::ConfigMissing { path } => {
            lemma_part("config file not found: "@, path@, none);
            assert(text =~= "config file not found: "@ + path@ + none);
        },
        Error::ConfigRead { path, .. } => {
            lemma_part("failed to read config file "@, path@, none);
            assert(text =~= "failed to read config file "@ + path@ + none);
        },
        Error::ConfigParse { path, .. } => {
            lemma_part("failed to parse config file "@, path@, none);
            assert(text =~= "failed to parse config file "@ + path@ + none);
        },
        Error::InstanceNotFound { id, region } => {
            let mid = "' not found in region '"@;
            lemma_part("instance '"@, id@, mid + region@ + "'"@);
            assert(text =~= "instance '"@ + id@ + (mid + region@ + "'"@));
            lemma_part("instance '"@ + id@ + mid, region@, "'"@);
        },
        Error::InvalidTimestamp(m) => {
            lemma_part("invalid timestamp from AWS SDK: "@, m@, none);
            assert(text =~= "invalid timestamp from AWS SDK: "@ + m@ + none);
        },
        Error::SlackConfigInvalid(m) => {
            lemma_part("invalid Slack config: "@, m@, none);
            assert(text =~= "invalid Slack config: "@ + m@ + none);
        },
        Error::Aws { context, causes } => {
            if causes@.len() > 0 {
                let first = crate::text::strings(causes@)[0];
                lemma_part(none, context@, ": "@ + first);
                assert(text =~= none + context@ + (": "@ + first));
                lemma_part(context@ + ": "@, first, none);
                assert(text =~= context@ + ": "@ + first + none);
            } else {
                lemma_part(none, context@, ": "@);
                assert(text =~= none + context@ + ": "@);
            }
        },
        _ => {},
    }
}

proof fn lemma_part(a: Seq<char>, part: Seq<char>, b: Seq<char>)
    ensures
        occurs_in(a + part + b, part),
{
    assert((a + part + b).subrange(a.len() as int, (a.len() + part.len()) as int) =~= part);
    assert(occurs_at(a + part + b, part, a.len() as int));
}

/// `list` looks at CPU load only where it is asked to, `stale` unless it is
/// told not to, and `explain` always.
pub proof fn commands_look_at_cpu_where_asked(c: Command)
    ensures
        c matches Command::List(args) ==> (c.looks_at_cpu() <==> args.with_cpu),
        c matches Command::Stale(args) ==> (c.looks_at_cpu() <==> !args.no_cpu),
        c is Explain ==> c.looks_at_cpu(),
{
}

/// Warnings are logged in any case, information from the first `-v` on, and
/// details from the second on.
pub proof fn more_is_logged_when_asked(verbose: int)
    requires
        0 <= verbose,
    ensures
        level_name(verbose) == "warn"@ <==> verbose == 0,
        level_name(verbose) == "info"@ <==> verbose == 1,
        level_name(verbose) == "debug"@ <==> verbose >= 2,
{
    reveal_strlit("warn");
    reveal_strlit("info");
    reveal_strlit("debug");
    assert("warn"@[0] == 'w' && "info"@[0] == 'i' && "debug"@[0] == 'd');
}

/// The CPU load is looked at as far back as inactivity is measured, or as far
/// as idleness is where inactivity is not.
pub proof fn the_load_is_looked_at_far_enough_back(cfg: Config)
    ensures
        cfg.inactive_high_secs is Some ==> Some(cfg.lookback()) == cfg.inactive_high_secs,
        cfg.inactive_high_secs is None ==> cfg.lookback() == cfg.idle_lookback_secs,
{
}

} // verus!
