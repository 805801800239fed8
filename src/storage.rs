use vstd::prelude::*;

use crate::catalog::{names_distinct, Catalog, MetricDefinition};

verus! {

/// The display text of an optional string: the string, or empty.
pub open spec fn text_of(o: Option<String>) -> Seq<char> {
    match o {
        Some(s) => s@,
        None => Seq::empty(),
    }
}

/// The statement that brings a metric's metadata row in step with the
/// catalog: an insert where its value table was just created, else an update.
#[derive(Debug, PartialEq, Eq)]
pub struct MetadataStatement {
    pub insert: bool,
    pub metric_name: String,
    pub unit: String,
    pub description: String,
}

impl MetadataStatement {
    pub open spec fn view(&self) -> (bool, Seq<char>, Seq<char>, Seq<char>) {
        (self.insert, self.metric_name@, self.unit@, self.description@)
    }
}

/// The metadata statement owed to `metric`, as (insert, name, unit, description).
pub open spec fn metadata_for(metric: MetricDefinition, created: bool) -> (
    bool,
    Seq<char>,
    Seq<char>,
    Seq<char>,
) {
    (created, metric.metric_name@, text_of(metric.unit), text_of(metric.description))
}

fn text_or_empty(o: &Option<String>) -> (r: String)
    ensures
        r@ == text_of(*o),
{
    match o {
        Some(s) => s.clone(),
        None => String::new(),
    }
}

/// The metadata statement for `metric` once its value table has been made,
/// `created` telling whether that table is new.
pub fn metadata_statement(metric: &MetricDefinition, created: bool) -> (r: MetadataStatement)
    ensures
        r.view() == metadata_for(*metric, created),
{
    MetadataStatement {
        insert: created,
        metric_name: metric.metric_name.clone(),
        unit: text_or_empty(&metric.unit),
        description: text_or_empty(&metric.description),
    }
}

/// The names of the value tables that provisioning makes sure of, in
/// catalog order.
pub fn table_names(catalog: &Catalog) -> (r: Vec<&str>)
    ensures
        r@.len() == catalog.metrics@.len(),
        forall|i: int|
            0 <= i < r@.len() ==> #[trigger] r@[i]@ == catalog.metrics@[i].metric_name@,
{
    let mut r: Vec<&str> = Vec::new();
    let mut i: usize = 0;
    while i < catalog.metrics.len()
        invariant
            i <= catalog.metrics@.len(),
            r@.len() == i,
            forall|k: int| 0 <= k < i ==> #[trigger] r@[k]@ == catalog.metrics@[k].metric_name@,
        decreases catalog.metrics@.len() - i,
    {
        r.push(catalog.metrics[i].metric_name.as_str());
        i = i + 1;
    }
    r
}

/// The store as provisioning sees it: the value tables that exist, and the
/// metadata rows by metric name, as (unit, description).
pub struct StoreModel {
    pub tables: Set<Seq<char>>,
    pub metadata: Map<Seq<char>, (Seq<char>, Seq<char>)>,
}

/// Every value table has its metadata row.
pub open spec fn consistent(s: StoreModel) -> bool {
    forall|n: Seq<char>| #[trigger] s.tables.contains(n) ==> s.metadata.contains_key(n)
}

/// Runs one metadata statement: an insert fails where the row exists, an
/// update changes the row where it exists and nothing otherwise.
pub open spec fn run_statement(s: StoreModel, st: (bool, Seq<char>, Seq<char>, Seq<char>)) -> Option<
    StoreModel,
> {
    let (insert, name, unit, description) = st;
    if insert && s.metadata.contains_key(name) {
        None
    } else if insert || s.metadata.contains_key(name) {
        Some(StoreModel { tables: s.tables, metadata: s.metadata.insert(name, (unit, description)) })
    } else {
        Some(s)
    }
}

/// Provisions one metric: makes its value table if it is missing, then runs
/// the metadata statement owed to it.
pub open spec fn provision_metric(s: StoreModel, metric: MetricDefinition) -> Option<StoreModel> {
    let name = metric.metric_name@;
    let created = !s.tables.contains(name);
    let made = StoreModel { tables: s.tables.insert(name), metadata: s.metadata };
    run_statement(made, metadata_for(metric, created))
}

/// Provisions the metrics in order; the first failure ends it.
pub open spec fn provision(s: StoreModel, ms: Seq<MetricDefinition>) -> Option<StoreModel>
    decreases ms.len(),
{
    if ms.len() == 0 {
        Some(s)
    } else {
        match provision(s, ms.drop_last()) {
            None => None,
            Some(p) => provision_metric(p, ms.last()),
        }
    }
}

/// After a successful provisioning of distinctly named metrics, each has its
/// value table and a metadata row that holds its unit and description.
pub proof fn lemma_provision_effect(s: StoreModel, ms: Seq<MetricDefinition>)
    requires
        consistent(s),
        names_distinct(ms),
        provision(s, ms) is Some,
    ensures
        consistent(provision(s, ms)->0),
        forall|i: int|
            0 <= i < ms.len() ==> (#[trigger] provision(s, ms)->0.tables.contains(ms[i].metric_name@)
                && provision(s, ms)->0.metadata[ms[i].metric_name@] == (
                text_of(ms[i].unit),
                text_of(ms[i].description),
            )),
    decreases ms.len(),
{
    if ms.len() > 0 {
        let pre = ms.drop_last();
        assert(names_distinct(pre)) by {
            assert forall|i: int, j: int| 0 <= i < j < pre.len() implies #[trigger] pre[i].metric_name@
                != #[trigger] pre[j].metric_name@ by {
                assert(ms[i] == pre[i] && ms[j] == pre[j]);
            }
        }
        lemma_provision_effect(s, pre);
        let p = provision(s, pre)->0;
        let s1 = provision(s, ms)->0;
        let last = ms.last();
        assert(s1.tables == p.tables.insert(last.metric_name@));
        assert(s1.metadata == p.metadata.insert(
            last.metric_name@,
            (text_of(last.unit), text_of(last.description)),
        ));
        assert forall|i: int| 0 <= i < ms.len() implies (#[trigger] s1.tables.contains(
            ms[i].metric_name@,
        ) && s1.metadata[ms[i].metric_name@] == (text_of(ms[i].unit), text_of(ms[i].description))) by {
            if i < ms.len() - 1 {
                assert(pre[i] == ms[i]);
                assert(ms[i].metric_name@ != ms[ms.len() - 1].metric_name@);
                assert(p.tables.contains(pre[i].metric_name@));
            }
        }
    }
}

/// A consistent store that already holds every metric's table and
/// metadata row is left as it is by provisioning.
pub proof fn lemma_provision_fixpoint(s: StoreModel, ms: Seq<MetricDefinition>)
    requires
        consistent(s),
        forall|i: int|
            0 <= i < ms.len() ==> (#[trigger] s.tables.contains(ms[i].metric_name@)
                && s.metadata[ms[i].metric_name@] == (text_of(ms[i].unit), text_of(ms[i].description))),
    ensures
        provision(s, ms) == Some(s),
    decreases ms.len(),
{
    if ms.len() > 0 {
        let pre = ms.drop_last();
        assert forall|i: int| 0 <= i < pre.len() implies (#[trigger] s.tables.contains(
            pre[i].metric_name@,
        ) && s.metadata[pre[i].metric_name@] == (text_of(pre[i].unit), text_of(pre[i].description))) by {
            assert(pre[i] == ms[i]);
            assert(s.tables.contains(ms[i].metric_name@));
        }
        lemma_provision_fixpoint(s, pre);
        let last = ms.last();
        assert(s.tables.contains(ms[ms.len() - 1].metric_name@));
        assert(s.tables.insert(last.metric_name@) =~= s.tables);
        assert(s.metadata.insert(
            last.metric_name@,
            (text_of(last.unit), text_of(last.description)),
        ) =~= s.metadata);
    }
}

/// Provisioning twice is provisioning once: the second run makes no value
/// table (each already exists), and leaves each metric's metadata row
/// holding the catalog's unit and description.
pub proof fn lemma_provision_idempotent(s: StoreModel, catalog: Seq<MetricDefinition>)
    requires
        consistent(s),
        names_distinct(catalog),
        provision(s, catalog) is Some,
    ensures
        provision(provision(s, catalog)->0, catalog) == provision(s, catalog),
        forall|i: int|
            0 <= i < catalog.len() ==> (#[trigger] provision(s, catalog)->0.tables.contains(
                catalog[i].metric_name@,
            ) && provision(s, catalog)->0.metadata[catalog[i].metric_name@] == (
                text_of(catalog[i].unit),
                text_of(catalog[i].description),
            )),
{
    lemma_provision_effect(s, catalog);
    lemma_provision_fixpoint(provision(s, catalog)->0, catalog);
}

/// A metric whose value table and metadata row already exist keeps its
/// table as it is (none is made), and its metadata row is updated in place
/// to the catalog's unit and description, not inserted a second time.
pub proof fn lemma_existing_table_kept(s: StoreModel, metric: MetricDefinition)
    requires
        s.tables.contains(metric.metric_name@),
        s.metadata.contains_key(metric.metric_name@),
    ensures
        !metadata_for(metric, !s.tables.contains(metric.metric_name@)).0,
        provision_metric(s, metric) == Some(
            StoreModel {
                tables: s.tables,
                metadata: s.metadata.insert(
                    metric.metric_name@,
                    (text_of(metric.unit), text_of(metric.description)),
                ),
            },
        ),
{
    assert(s.tables.insert(metric.metric_name@) =~= s.tables);
}

} // verus!
