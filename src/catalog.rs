use vstd::prelude::*;

use crate::config::{lemma_text_less_irreflexive, text_less, Config, Topic};
use crate::error::M2SError;

verus! {

/// One metric of the catalog. Its name is also the name of its value table.
#[derive(Debug)]
pub struct MetricDefinition {
    pub metric_name: String,
    pub topic: String,
    pub extraction_expression: String,
    pub unit: Option<String>,
    pub description: Option<String>,
}

pub(crate) fn clone_text(o: &Option<String>) -> (r: Option<String>)
    ensures
        r == *o,
{
    match o {
        Some(s) => Some(s.clone()),
        None => None,
    }
}

impl Clone for MetricDefinition {
    fn clone(&self) -> (r: Self)
        ensures
            r == *self,
    {
        MetricDefinition {
            metric_name: self.metric_name.clone(),
            topic: self.topic.clone(),
            extraction_expression: self.extraction_expression.clone(),
            unit: clone_text(&self.unit),
            description: clone_text(&self.description),
        }
    }
}

/// The definition that a configuration entry `(name, topic)` stands for.
pub open spec fn definition_of(entry: (String, Topic)) -> MetricDefinition {
    MetricDefinition {
        metric_name: entry.0,
        topic: entry.1.mqtt_topic,
        extraction_expression: entry.1.json_path,
        unit: entry.1.unit,
        description: entry.1.description,
    }
}

/// No two configuration entries share a name.
pub open spec fn entry_names_distinct(entries: Seq<(String, Topic)>) -> bool {
    forall|i: int, j: int|
        0 <= i < j < entries.len() ==> #[trigger] entries[i].0@ != #[trigger] entries[j].0@
}

/// No two definitions share a name.
pub open spec fn names_distinct(ms: Seq<MetricDefinition>) -> bool {
    forall|i: int, j: int|
        0 <= i < j < ms.len() ==> #[trigger] ms[i].metric_name@ != #[trigger] ms[j].metric_name@
}

/// The ordered set of metric definitions, unique by name.
#[derive(Debug)]
pub struct Catalog {
    pub metrics: Vec<MetricDefinition>,
}

impl Catalog {
    pub open spec fn wf(&self) -> bool {
        names_distinct(self.metrics@)
    }

    /// Builds the catalog from the configured metrics, in their order.
    /// Fails with `DuplicateMetric` exactly when two entries share a name.
    pub fn from_config(config: &Config) -> (r: Result<Catalog, M2SError>)
        ensures
            r is Ok <==> entry_names_distinct(config.metrics@),
            config.wf() ==> r is Ok,
            r matches Ok(c) ==> c.wf() && c.metrics@ == config.metrics@.map_values(
                |e: (String, Topic)| definition_of(e),
            ),
            r matches Err(e) ==> (e matches M2SError::DuplicateMetric { metric_name } && exists|
                i: int,
                j: int,
            |
                0 <= i < j < config.metrics@.len() && config.metrics@[i].0@ == metric_name@
                    && config.metrics@[j].0@ == metric_name@),
    {
        let ghost entries = config.metrics@;
        let mut metrics: Vec<MetricDefinition> = Vec::new();
        let mut i: usize = 0;
        while i < config.metrics.len()
            invariant
                entries == config.metrics@,
                i <= entries.len(),
                metrics@ == entries.subrange(0, i as int).map_values(
                    |e: (String, Topic)| definition_of(e),
                ),
                entry_names_distinct(entries.subrange(0, i as int)),
            decreases entries.len() - i,
        {
            let entry = &config.metrics[i];
            let mut j: usize = 0;
            while j < i
                invariant
                    entries == config.metrics@,
                    i < entries.len(),
                    j <= i,
                    entry == &entries[i as int],
                    forall|k: int| 0 <= k < j ==> entries[k].0@ != entries[i as int].0@,
                decreases i - j,
            {
                if config.metrics[j].0 == entry.0 {
                    proof {
                        if config.wf() {
                            assert(text_less(entries[j as int].0@, entries[i as int].0@));
                            lemma_text_less_irreflexive(entries[i as int].0@);
                        }
                    }
                    return Err(M2SError::DuplicateMetric { metric_name: entry.0.clone() });
                }
                j = j + 1;
            }
            metrics.push(
                MetricDefinition {
                    metric_name: entry.0.clone(),
                    topic: entry.1.mqtt_topic.clone(),
                    extraction_expression: entry.1.json_path.clone(),
                    unit: clone_text(&entry.1.unit),
                    description: clone_text(&entry.1.description),
                },
            );
            proof {
                let prev = entries.subrange(0, i as int);
                let next = entries.subrange(0, i + 1);
                assert(next == prev.push(entries[i as int]));
                assert forall|a: int, b: int| 0 <= a < b < next.len() implies #[trigger] next[a].0@
                    != #[trigger] next[b].0@ by {
                    if b < i {
                        assert(prev[a] == next[a] && prev[b] == next[b]);
                    }
                }
                assert(metrics@ =~= next.map_values(|e: (String, Topic)| definition_of(e)));
            }
            i = i + 1;
        }
        proof {
            assert(entries.subrange(0, entries.len() as int) == entries);
            let ms = metrics@;
            assert forall|a: int, b: int| 0 <= a < b < ms.len() implies #[trigger] ms[a].metric_name@
                != #[trigger] ms[b].metric_name@ by {
                assert(entries[a].0@ != entries[b].0@);
            }
        }
        Ok(Catalog { metrics })
    }
}

} // verus!
