use vstd::prelude::*;

use crate::catalog::{names_distinct, Catalog, MetricDefinition};

verus! {

/// The definitions of `ms` whose topic is exactly `t`, in catalog order.
pub open spec fn bucket(ms: Seq<MetricDefinition>, t: Seq<char>) -> Seq<MetricDefinition>
    decreases ms.len(),
{
    if ms.len() == 0 {
        Seq::empty()
    } else {
        let rest = bucket(ms.drop_last(), t);
        if ms.last().topic@ == t {
            rest.push(ms.last())
        } else {
            rest
        }
    }
}

/// Some definition of `ms` has topic exactly `t`.
pub open spec fn topic_in(ms: Seq<MetricDefinition>, t: Seq<char>) -> bool {
    exists|i: int| 0 <= i < ms.len() && #[trigger] ms[i].topic@ == t
}

/// A definition with topic `t` lies in the bucket of `t`.
pub proof fn lemma_bucket_contains(ms: Seq<MetricDefinition>, t: Seq<char>, i: int)
    requires
        0 <= i < ms.len(),
        ms[i].topic@ == t,
    ensures
        bucket(ms, t).contains(ms[i]),
    decreases ms.len(),
{
    let rest = bucket(ms.drop_last(), t);
    if i == ms.len() - 1 {
        assert(bucket(ms, t).last() == ms[i]);
    } else {
        lemma_bucket_contains(ms.drop_last(), t, i);
        let k = choose|k: int| 0 <= k < rest.len() && rest[k] == ms[i];
        if ms.last().topic@ == t {
            assert(rest.push(ms.last())[k] == ms[i]);
        }
    }
}

/// Every member of the bucket of `t` is a definition of `ms` with topic `t`.
pub proof fn lemma_bucket_members(ms: Seq<MetricDefinition>, t: Seq<char>, k: int)
    requires
        0 <= k < bucket(ms, t).len(),
    ensures
        bucket(ms, t)[k].topic@ == t,
        ms.contains(bucket(ms, t)[k]),
    decreases ms.len(),
{
    let rest = bucket(ms.drop_last(), t);
    if k < rest.len() {
        lemma_bucket_members(ms.drop_last(), t, k);
        let a = choose|a: int| 0 <= a < ms.drop_last().len() && ms.drop_last()[a] == rest[k];
        assert(ms[a] == rest[k]);
        if ms.last().topic@ == t {
            assert(rest.push(ms.last())[k] == rest[k]);
        }
    } else {
        assert(ms[ms.len() - 1] == ms.last());
    }
}

/// Where the names of `ms` are distinct, so are those of each bucket.
pub proof fn lemma_bucket_names_distinct(ms: Seq<MetricDefinition>, t: Seq<char>)
    requires
        names_distinct(ms),
    ensures
        names_distinct(bucket(ms, t)),
    decreases ms.len(),
{
    if ms.len() > 0 {
        let pre = ms.drop_last();
        assert(names_distinct(pre)) by {
            assert forall|i: int, j: int| 0 <= i < j < pre.len() implies #[trigger] pre[i].metric_name@
                != #[trigger] pre[j].metric_name@ by {
                assert(ms[i] == pre[i] && ms[j] == pre[j]);
            }
        }
        lemma_bucket_names_distinct(pre, t);
        if ms.last().topic@ == t {
            let b = bucket(ms, t);
            let rb = bucket(pre, t);
            assert forall|i: int, j: int| 0 <= i < j < b.len() implies #[trigger] b[i].metric_name@
                != #[trigger] b[j].metric_name@ by {
                if j == b.len() - 1 {
                    lemma_bucket_members(pre, t, i);
                    let w = choose|w: int| 0 <= w < pre.len() && pre[w] == rb[i];
                    assert(ms[w] == pre[w]);
                    assert(ms[ms.len() - 1] == ms.last());
                    assert(b[i] == rb[i]);
                } else {
                    assert(b[i] == rb[i] && b[j] == rb[j]);
                }
            }
        }
    }
}

/// The metrics fed by one topic.
#[derive(Debug)]
pub struct Route {
    pub topic: String,
    pub metrics: Vec<MetricDefinition>,
}

/// The map from topic to the metrics that a message on it feeds; exact match only.
#[derive(Debug)]
pub struct RouteTable {
    pub routes: Vec<Route>,
}

/// No two routes share a topic.
pub open spec fn topics_distinct(rs: Seq<Route>) -> bool {
    forall|a: int, b: int| 0 <= a < b < rs.len() ==> #[trigger] rs[a].topic@ != #[trigger] rs[b].topic@
}

/// Some route has topic exactly `t`.
pub open spec fn has_route(rs: Seq<Route>, t: Seq<char>) -> bool {
    exists|j: int| 0 <= j < rs.len() && #[trigger] rs[j].topic@ == t
}

impl RouteTable {
    pub open spec fn wf(&self) -> bool {
        topics_distinct(self.routes@)
    }

    pub open spec fn has_topic(&self, t: Seq<char>) -> bool {
        has_route(self.routes@, t)
    }

    /// The metrics routed from topic `t`: empty where no route has that topic.
    pub open spec fn routed(&self, t: Seq<char>) -> Seq<MetricDefinition> {
        if self.has_topic(t) {
            let j = choose|j: int| 0 <= j < self.routes@.len() && #[trigger] self.routes@[j].topic@ == t;
            self.routes@[j].metrics@
        } else {
            Seq::empty()
        }
    }

    /// The table routes exactly the definitions of `ms`: one non-empty bucket
    /// per distinct topic, holding the definitions with that topic in order.
    pub open spec fn built_from(&self, ms: Seq<MetricDefinition>) -> bool {
        &&& self.wf()
        &&& forall|j: int|
            0 <= j < self.routes@.len() ==> #[trigger] self.routes@[j].metrics@ == bucket(
                ms,
                self.routes@[j].topic@,
            ) && self.routes@[j].metrics@.len() > 0
        &&& forall|t: Seq<char>| #[trigger] self.has_topic(t) <==> topic_in(ms, t)
    }

    /// Groups the catalog's metrics by exact topic string.
    pub fn new(catalog: &Catalog) -> (r: Self)
        ensures
            r.built_from(catalog.metrics@),
    {
        let ghost ms = catalog.metrics@;
        let mut routes: Vec<Route> = Vec::new();
        let mut i: usize = 0;
        while i < catalog.metrics.len()
            invariant
                ms == catalog.metrics@,
                i <= ms.len(),
                topics_distinct(routes@),
                forall|j: int|
                    0 <= j < routes@.len() ==> #[trigger] routes@[j].metrics@ == bucket(
                        ms,
                        routes@[j].topic@,
                    ) && routes@[j].metrics@.len() > 0,
                forall|j: int|
                    0 <= j < routes@.len() ==> topic_in(ms, #[trigger] routes@[j].topic@),
                forall|k: int|
                    0 <= k < i ==> has_route(routes@, #[trigger] ms[k].topic@),
            decreases ms.len() - i,
        {
            let topic = &catalog.metrics[i].topic;
            let mut found = false;
            let mut j: usize = 0;
            while j < routes.len()
                invariant
                    j <= routes@.len(),
                    found ==> has_route(routes@, topic@),
                    !found ==> forall|k: int| 0 <= k < j ==> routes@[k].topic@ != topic@,
                decreases routes@.len() - j,
            {
                if routes[j].topic == *topic {
                    assert(routes@[j as int].topic@ == topic@);
                    found = true;
                }
                j = j + 1;
            }
            if !found {
                let metrics = collect(&catalog.metrics, topic);
                proof {
                    lemma_bucket_contains(ms, topic@, i as int);
                }
                let ghost old_routes = routes@;
                routes.push(Route { topic: topic.clone(), metrics });
                proof {
                    assert(routes@[old_routes.len() as int].topic@ == topic@);
                    assert forall|k: int| 0 <= k <= i implies has_route(routes@, 
                        #[trigger] ms[k].topic@,
                    ) by {
                        if k < i {
                            let w = choose|w: int|
                                0 <= w < old_routes.len() && #[trigger] old_routes[w].topic@
                                    == ms[k].topic@;
                            assert(routes@[w] == old_routes[w]);
                        }
                    }
                }
            }
            i = i + 1;
        }
        let r = RouteTable { routes };
        proof {
            assert forall|t: Seq<char>| #[trigger] r.has_topic(t) <==> topic_in(ms, t) by {
                if topic_in(ms, t) {
                    let k = choose|k: int| 0 <= k < ms.len() && #[trigger] ms[k].topic@ == t;
                    assert(r.has_topic(ms[k].topic@));
                }
                if r.has_topic(t) {
                    let j = choose|j: int| 0 <= j < r.routes@.len() && #[trigger] r.routes@[j].topic@ == t;
                    assert(topic_in(ms, r.routes@[j].topic@));
                }
            }
        }
        r
    }

    /// The metrics fed by a message on `topic`, or `None` where no metric has
    /// exactly that topic.
    pub fn lookup(&self, topic: &str) -> (r: Option<&Vec<MetricDefinition>>)
        requires
            self.wf(),
        ensures
            r is None <==> !self.has_topic(topic@),
            r matches Some(b) ==> b@ == self.routed(topic@),
    {
        let wanted = topic.to_owned();
        let mut j: usize = 0;
        while j < self.routes.len()
            invariant
                self.wf(),
                wanted@ == topic@,
                j <= self.routes@.len(),
                forall|k: int| 0 <= k < j ==> self.routes@[k].topic@ != topic@,
            decreases self.routes@.len() - j,
        {
            if self.routes[j].topic == wanted {
                proof {
                    assert(self.routes@[j as int].topic@ == topic@);
                    let c = choose|c: int|
                        0 <= c < self.routes@.len() && #[trigger] self.routes@[c].topic@ == topic@;
                    if c > j {
                        assert(self.routes@[j as int].topic@ != self.routes@[c].topic@);
                    }
                }
                return Some(&self.routes[j].metrics);
            }
            j = j + 1;
        }
        None
    }

    /// The topics to subscribe to: one per route, each once.
    pub fn topics(&self) -> (r: Vec<&str>)
        ensures
            r@.len() == self.routes@.len(),
            forall|j: int| 0 <= j < r@.len() ==> #[trigger] r@[j]@ == self.routes@[j].topic@,
    {
        let mut r: Vec<&str> = Vec::new();
        let mut j: usize = 0;
        while j < self.routes.len()
            invariant
                j <= self.routes@.len(),
                r@.len() == j,
                forall|k: int| 0 <= k < j ==> #[trigger] r@[k]@ == self.routes@[k].topic@,
            decreases self.routes@.len() - j,
        {
            r.push(self.routes[j].topic.as_str());
            j = j + 1;
        }
        r
    }
}

/// The definitions of `ms` whose topic is exactly `topic`, in order.
fn collect(ms: &Vec<MetricDefinition>, topic: &String) -> (r: Vec<MetricDefinition>)
    ensures
        r@ == bucket(ms@, topic@),
{
    let mut r: Vec<MetricDefinition> = Vec::new();
    let mut k: usize = 0;
    while k < ms.len()
        invariant
            k <= ms@.len(),
            r@ == bucket(ms@.subrange(0, k as int), topic@),
        decreases ms@.len() - k,
    {
        proof {
            assert(ms@.subrange(0, k + 1).drop_last() == ms@.subrange(0, k as int));
        }
        if ms[k].topic == *topic {
            r.push(ms[k].clone());
        }
        k = k + 1;
    }
    proof {
        assert(ms@.subrange(0, ms@.len() as int) == ms@);
    }
    r
}

/// Metrics with distinct names are each placed in the bucket of their own
/// topic, and when they share a topic a message on it feeds both.
pub proof fn lemma_fan_out(table: RouteTable, ms: Seq<MetricDefinition>, a: int, b: int)
    requires
        table.built_from(ms),
        0 <= a < ms.len(),
        0 <= b < ms.len(),
        ms[a].metric_name@ != ms[b].metric_name@,
    ensures
        table.has_topic(ms[a].topic@),
        table.has_topic(ms[b].topic@),
        table.routed(ms[a].topic@).contains(ms[a]),
        table.routed(ms[b].topic@).contains(ms[b]),
        ms[a].topic@ == ms[b].topic@ ==> table.routed(ms[a].topic@).contains(ms[b]),
{
    assert(topic_in(ms, ms[a].topic@));
    assert(topic_in(ms, ms[b].topic@));
    lemma_bucket_contains(ms, ms[a].topic@, a);
    lemma_bucket_contains(ms, ms[b].topic@, b);
}

/// A topic that is not, character for character, the topic of some metric
/// has no route, whatever it shares with the configured topics.
pub proof fn lemma_exact_match_only(table: RouteTable, ms: Seq<MetricDefinition>, t: Seq<char>)
    requires
        table.built_from(ms),
        forall|i: int| 0 <= i < ms.len() ==> #[trigger] ms[i].topic@ != t,
    ensures
        !table.has_topic(t),
        table.routed(t) == Seq::<MetricDefinition>::empty(),
{
}

} // verus!
