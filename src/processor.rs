use vstd::prelude::*;
use vstd::string::*;

use crate::catalog::MetricDefinition;
use crate::error::M2SError;
use crate::outside::{json_kind, millis_of, parse_kind, since_epoch};
use crate::catalog::names_distinct;
use crate::router::{bucket, lemma_bucket_names_distinct, lemma_fan_out, RouteTable};

verus! {

/// The kind of a JSON document.
#[derive(Debug, Clone, Copy, PartialEq, Eq)]
pub enum JsonKind {
    Null,
    Bool,
    Number,
    Text,
    Array,
    Object,
}

/// Booleans, numbers and strings are stored; the other kinds are not.
pub open spec fn is_scalar(k: JsonKind) -> bool {
    k is Bool || k is Number || k is Text
}

/// What becomes of one metric of one message.
#[derive(Debug, PartialEq, Eq)]
pub enum Outcome {
    /// Append `(timestamp, value)` to the metric's value table.
    Write { metric_name: String, timestamp: i64, value: String },
    /// The expression found nothing (no result, or null): nothing is stored.
    NothingFound { metric_name: String },
    /// The expression gave an array or an object: nothing is stored.
    Unsupported { metric_name: String },
}

/// `s` without the line breaks at its end.
pub open spec fn strip_newlines(s: Seq<char>) -> Seq<char>
    decreases s.len(),
{
    if s.len() > 0 && s.last() == '\n' {
        strip_newlines(s.drop_last())
    } else {
        s
    }
}

/// A value that is not empty and not one JSON document cannot be classified.
pub open spec fn fails(value: Seq<char>, kind: Option<JsonKind>) -> bool {
    value.len() > 0 && kind is None
}

/// `o` is what becomes of `metric` when its result, line breaks at the end
/// removed, is `value`, of kind `kind`, for a message taken at `timestamp`:
/// an empty value or null is nothing found, a scalar is written as it was
/// printed, an array or an object is unsupported.
pub open spec fn expected_outcome(
    o: Outcome,
    metric: MetricDefinition,
    value: Seq<char>,
    kind: Option<JsonKind>,
    timestamp: i64,
) -> bool {
    if value.len() == 0 || kind == Some(JsonKind::Null) {
        o == Outcome::NothingFound { metric_name: metric.metric_name }
    } else if kind matches Some(k) && is_scalar(k) {
        o matches Outcome::Write { metric_name, timestamp: t, value: v } && metric_name
            == metric.metric_name && t == timestamp && v@ == value
    } else {
        o == Outcome::Unsupported { metric_name: metric.metric_name }
    }
}

/// The value that the printed `output` stands for.
pub open spec fn value_of(output: Seq<char>) -> Seq<char> {
    strip_newlines(output)
}

/// The kind of the value that the printed `output` stands for.
pub open spec fn kind_of(output: Seq<char>) -> Option<JsonKind> {
    json_kind(strip_newlines(output))
}

/// The milliseconds since the epoch of the instant `secs` seconds and
/// `nanos` nanoseconds after it, the nanoseconds rounded down; `None` where
/// the instant cannot be represented.
pub fn millis_from(secs: u64, nanos: u32) -> (r: Option<i64>)
    requires
        nanos < 1_000_000_000,
    ensures
        secs > i64::MAX ==> r is None,
        secs <= 8_000_000_000_000 ==> r == Some((secs * 1000 + nanos / 1_000_000) as i64),
        r matches Some(m) ==> m == secs * 1000 + nanos / 1_000_000,
{
    if secs > i64::MAX as u64 {
        None
    } else {
        millis_of(secs as i64, nanos)
    }
}

/// The wall clock in milliseconds since the epoch, or `None` where it reads
/// before the epoch or beyond the range of dates that can be represented.
pub fn clock_millis() -> (r: Option<i64>)
    ensures
        r matches Some(m) ==> m >= 0,
{
    match since_epoch() {
        None => None,
        Some((secs, nanos)) => millis_from(secs, nanos),
    }
}

/// `output` without the line breaks at its end.
pub fn strip_line_breaks(output: &str) -> (r: String)
    ensures
        r@ == strip_newlines(output@),
{
    let mut end: usize = output.unicode_len();
    assert(output@.subrange(0, end as int) == output@);
    while end > 0 && output.get_char(end - 1) == '\n'
        invariant
            end <= output@.len(),
            strip_newlines(output@) == strip_newlines(output@.subrange(0, end as int)),
        decreases end,
    {
        proof {
            assert(output@.subrange(0, end as int).drop_last() == output@.subrange(
                0,
                end - 1,
            ));
        }
        end = end - 1;
    }
    proof {
        let s = output@.subrange(0, end as int);
        if end > 0 {
            assert(s.last() == output@[end - 1]);
        }
    }
    String::from_str(output.substring_char(0, end))
}

/// `r` is the classification of `metric`'s value `value` of kind `kind`:
/// the failure where it cannot be classified, else the expected outcome.
pub open spec fn classified(
    r: Result<Outcome, M2SError>,
    metric: MetricDefinition,
    value: Seq<char>,
    kind: Option<JsonKind>,
    timestamp: i64,
) -> bool {
    if fails(value, kind) {
        r == Err::<Outcome, M2SError>(M2SError::MalformedResult { metric_name: metric.metric_name })
    } else {
        r matches Ok(o) && expected_outcome(o, metric, value, kind, timestamp)
    }
}

/// Every output of the message can be classified.
pub open spec fn all_classify(outputs: Seq<String>) -> bool {
    forall|i: int|
        0 <= i < outputs.len() ==> !fails(value_of(#[trigger] outputs[i]@), kind_of(outputs[i]@))
}

/// `v` holds the expected outcome of each metric, in order, at `timestamp`.
pub open spec fn outcomes_at(
    v: Seq<Outcome>,
    metrics: Seq<MetricDefinition>,
    outputs: Seq<String>,
    timestamp: i64,
) -> bool {
    &&& v.len() == metrics.len()
    &&& forall|i: int|
        0 <= i < v.len() ==> expected_outcome(
            #[trigger] v[i],
            metrics[i],
            value_of(outputs[i]@),
            kind_of(outputs[i]@),
            timestamp,
        )
}

/// `e` is the failure of the first metric whose output cannot be classified.
pub open spec fn first_failure(e: M2SError, metrics: Seq<MetricDefinition>, outputs: Seq<String>) -> bool {
    exists|i: int|
        0 <= i < metrics.len() && fails(value_of(#[trigger] outputs[i]@), kind_of(outputs[i]@))
            && (forall|k: int|
            0 <= k < i ==> !fails(value_of(#[trigger] outputs[k]@), kind_of(outputs[k]@)))
            && e == M2SError::MalformedResult { metric_name: metrics[i].metric_name }
}

/// Classifies one metric's result, given the kind of its value (`None`
/// where the value is not one JSON document).
pub fn classify(metric: &MetricDefinition, value: String, kind: Option<JsonKind>, timestamp: i64) -> (r:
    Result<Outcome, M2SError>)
    ensures
        classified(r, *metric, value@, kind, timestamp),
{
    if value.unicode_len() == 0 {
        return Ok(Outcome::NothingFound { metric_name: metric.metric_name.clone() });
    }
    match kind {
        None => Err(M2SError::MalformedResult { metric_name: metric.metric_name.clone() }),
        Some(k) => match k {
            JsonKind::Bool | JsonKind::Number | JsonKind::Text => Ok(
                Outcome::Write { metric_name: metric.metric_name.clone(), timestamp, value },
            ),
            JsonKind::Null => Ok(Outcome::NothingFound { metric_name: metric.metric_name.clone() }),
            _ => Ok(Outcome::Unsupported { metric_name: metric.metric_name.clone() }),
        },
    }
}

/// What becomes of `metric` when its extraction program printed `output`.
pub fn evaluate(metric: &MetricDefinition, output: &str, timestamp: i64) -> (r: Result<
    Outcome,
    M2SError,
>)
    ensures
        classified(r, *metric, value_of(output@), kind_of(output@), timestamp),
{
    let value = strip_line_breaks(output);
    let kind = match parse_kind(value.as_str()) {
        Ok(k) => Some(k),
        Err(_) => None,
    };
    classify(metric, value, kind, timestamp)
}

/// What becomes of each metric of one message, `outputs[i]` being what the
/// extraction program of `metrics[i]` printed; every write carries
/// `timestamp`. The first result that cannot be classified fails the message.
pub fn process_outputs(metrics: &Vec<MetricDefinition>, outputs: &Vec<String>, timestamp: i64) -> (r:
    Result<Vec<Outcome>, M2SError>)
    requires
        outputs@.len() == metrics@.len(),
    ensures
        r is Ok <==> all_classify(outputs@),
        r matches Ok(v) ==> outcomes_at(v@, metrics@, outputs@, timestamp),
        r matches Err(e) ==> first_failure(e, metrics@, outputs@),
{
    let mut v: Vec<Outcome> = Vec::new();
    let mut i: usize = 0;
    while i < metrics.len()
        invariant
            outputs@.len() == metrics@.len(),
            i <= metrics@.len(),
            all_classify(outputs@.subrange(0, i as int)),
            outcomes_at(v@, metrics@.subrange(0, i as int), outputs@.subrange(0, i as int), timestamp),
        decreases metrics@.len() - i,
    {
        let r = evaluate(&metrics[i], outputs[i].as_str(), timestamp);
        proof {
            let pre = outputs@.subrange(0, i as int);
            assert forall|k: int| 0 <= k < i implies !fails(
                value_of(#[trigger] outputs@[k]@),
                kind_of(outputs@[k]@),
            ) by {
                assert(pre[k] == outputs@[k]);
            }
        }
        match r {
            Ok(o) => v.push(o),
            Err(e) => {
                return Err(e);
            },
        }
        proof {
            let pre = outputs@.subrange(0, i as int);
            let next = outputs@.subrange(0, i + 1);
            assert forall|k: int| 0 <= k <= i implies !fails(
                value_of(#[trigger] next[k]@),
                kind_of(next[k]@),
            ) by {
                if k < i {
                    assert(pre[k] == next[k]);
                }
            }
            let ms = metrics@.subrange(0, i + 1);
            assert forall|k: int| 0 <= k < v@.len() implies expected_outcome(
                #[trigger] v@[k],
                ms[k],
                value_of(next[k]@),
                kind_of(next[k]@),
                timestamp,
            ) by {
                if k < i {
                    assert(pre[k] == next[k]);
                    assert(metrics@.subrange(0, i as int)[k] == ms[k]);
                }
            }
        }
        i = i + 1;
    }
    proof {
        assert(outputs@.subrange(0, i as int) == outputs@);
        assert(metrics@.subrange(0, i as int) == metrics@);
    }
    Ok(v)
}

/// `process_outputs` for a message taken now: every write of the message
/// carries the one timestamp read from the clock. Where the clock cannot be
/// read the message fails with `ClockUnreadable` and nothing is written.
pub fn process_message(metrics: &Vec<MetricDefinition>, outputs: &Vec<String>) -> (r: Result<
    Vec<Outcome>,
    M2SError,
>)
    requires
        outputs@.len() == metrics@.len(),
    ensures
        r is Ok ==> all_classify(outputs@),
        !all_classify(outputs@) ==> r is Err,
        r matches Ok(v) ==> exists|t: i64| t >= 0 && outcomes_at(v@, metrics@, outputs@, t),
        r matches Err(e) ==> e is ClockUnreadable || first_failure(e, metrics@, outputs@),
{
    match clock_millis() {
        None => Err(M2SError::ClockUnreadable),
        Some(timestamp) => process_outputs(metrics, outputs, timestamp),
    }
}

/// The result printed for `output` is a scalar.
pub open spec fn scalar_output(output: String) -> bool {
    value_of(output@).len() > 0 && (kind_of(output@) matches Some(kind) && is_scalar(kind))
}

/// Two metrics of the catalog on one topic, with distinct names, both get a
/// write from one message on that topic whose results for them are scalars,
/// and the two writes carry the same timestamp.
pub proof fn lemma_same_topic_same_timestamp(
    table: RouteTable,
    catalog: Seq<MetricDefinition>,
    a: int,
    b: int,
    v: Seq<Outcome>,
    outputs: Seq<String>,
    timestamp: i64,
)
    requires
        table.built_from(catalog),
        0 <= a < catalog.len(),
        0 <= b < catalog.len(),
        catalog[a].metric_name@ != catalog[b].metric_name@,
        catalog[a].topic@ == catalog[b].topic@,
        outputs.len() == table.routed(catalog[a].topic@).len(),
        forall|k: int|
            0 <= k < outputs.len() && (table.routed(catalog[a].topic@)[k] == catalog[a]
                || table.routed(catalog[a].topic@)[k] == catalog[b]) ==> scalar_output(
                #[trigger] outputs[k],
            ),
        outcomes_at(v, table.routed(catalog[a].topic@), outputs, timestamp),
    ensures
        exists|i: int, j: int|
            0 <= i < v.len() && 0 <= j < v.len() && i != j
                && (#[trigger] v[i] matches Outcome::Write { metric_name: n, timestamp: t, .. }
                && n == catalog[a].metric_name && t == timestamp)
                && (#[trigger] v[j] matches Outcome::Write { metric_name: m, timestamp: u, .. }
                && m == catalog[b].metric_name && u == timestamp),
{
    lemma_fan_out(table, catalog, a, b);
    let ms = table.routed(catalog[a].topic@);
    let i = choose|i: int| 0 <= i < ms.len() && ms[i] == catalog[a];
    let j = choose|j: int| 0 <= j < ms.len() && ms[j] == catalog[b];
    assert(scalar_output(outputs[i]));
    assert(scalar_output(outputs[j]));
    assert(expected_outcome(v[i], ms[i], value_of(outputs[i]@), kind_of(outputs[i]@), timestamp));
    assert(expected_outcome(v[j], ms[j], value_of(outputs[j]@), kind_of(outputs[j]@), timestamp));
}

/// The metric that an outcome is about.
pub open spec fn outcome_metric(o: Outcome) -> String {
    match o {
        Outcome::Write { metric_name, .. } => metric_name,
        Outcome::NothingFound { metric_name } => metric_name,
        Outcome::Unsupported { metric_name } => metric_name,
    }
}

/// In a catalog of distinct names, one message on a topic gives each
/// metric at most one outcome, hence at most one row.
pub proof fn lemma_one_outcome_per_metric(
    table: RouteTable,
    catalog: Seq<MetricDefinition>,
    topic: Seq<char>,
    v: Seq<Outcome>,
    outputs: Seq<String>,
    timestamp: i64,
    k1: int,
    k2: int,
)
    requires
        table.built_from(catalog),
        names_distinct(catalog),
        outcomes_at(v, table.routed(topic), outputs, timestamp),
        0 <= k1 < v.len(),
        0 <= k2 < v.len(),
        outcome_metric(v[k1]) == outcome_metric(v[k2]),
    ensures
        k1 == k2,
{
    let ms = table.routed(topic);
    if table.has_topic(topic) {
        let j = choose|j: int| 0 <= j < table.routes@.len() && #[trigger] table.routes@[j].topic@ == topic;
        assert(ms == bucket(catalog, topic));
        lemma_bucket_names_distinct(catalog, topic);
    }
    assert(expected_outcome(v[k1], ms[k1], value_of(outputs[k1]@), kind_of(outputs[k1]@), timestamp));
    assert(expected_outcome(v[k2], ms[k2], value_of(outputs[k2]@), kind_of(outputs[k2]@), timestamp));
    assert(outcome_metric(v[k1]) == ms[k1].metric_name);
    assert(outcome_metric(v[k2]) == ms[k2].metric_name);
    if k1 < k2 {
        assert(ms[k1].metric_name@ != ms[k2].metric_name@);
    } else if k2 < k1 {
        assert(ms[k2].metric_name@ != ms[k1].metric_name@);
    }
}

} // verus!
