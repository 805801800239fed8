use vstd::prelude::*;

verus! {

/// One metric as the configuration gives it: its source topic, its
/// extraction expression and its optional display strings.
#[derive(Debug)]
pub struct Topic {
    pub mqtt_topic: String,
    pub json_path: String,
    pub unit: Option<String>,
    pub description: Option<String>,
}

/// The delivery level of the last-will message when none is configured
/// (at least once).
pub fn default_qos() -> (r: i32)
    ensures
        r == 1,
{
    1
}

/// The message the broker publishes for this client if it drops.
#[derive(Debug, PartialEq, Eq)]
pub struct LwtSettings {
    pub topic: String,
    pub message: String,
    pub qos: i32,
}

impl LwtSettings {
    pub fn new(topic: &str, message: &str, qos: i32) -> (r: Self)
        ensures
            r.topic@ == topic@,
            r.message@ == message@,
            r.qos == qos,
    {
        LwtSettings { topic: topic.to_owned(), message: message.to_owned(), qos }
    }
}

pub open spec fn default_client_key_path() -> Seq<char> {
    "/etc/mqtt-to-sqlite/client.key"@
}

pub open spec fn default_client_cert_path() -> Seq<char> {
    "/etc/mqtt-to-sqlite/client.crt"@
}

pub open spec fn default_ca_cert_path() -> Seq<char> {
    "/etc/mqtt-to-sqlite/ca.crt"@
}

pub fn default_client_key() -> (r: String)
    ensures
        r@ == default_client_key_path(),
{
    "/etc/mqtt-to-sqlite/client.key".to_owned()
}

pub fn default_client_cert() -> (r: String)
    ensures
        r@ == default_client_cert_path(),
{
    "/etc/mqtt-to-sqlite/client.crt".to_owned()
}

pub fn default_ca_cert() -> (r: String)
    ensures
        r@ == default_ca_cert_path(),
{
    "/etc/mqtt-to-sqlite/ca.crt".to_owned()
}

/// The TLS client identity, as three file paths.
#[derive(Debug, PartialEq, Eq)]
pub struct ClientAuth {
    pub client_key: String,
    pub client_cert: String,
    pub ca_cert: String,
}

impl ClientAuth {
    pub fn new(client_key: &str, client_cert: &str, ca_cert: &str) -> (r: Self)
        ensures
            r.client_key@ == client_key@,
            r.client_cert@ == client_cert@,
            r.ca_cert@ == ca_cert@,
    {
        ClientAuth {
            client_key: client_key.to_owned(),
            client_cert: client_cert.to_owned(),
            ca_cert: ca_cert.to_owned(),
        }
    }
}

impl Default for ClientAuth {
    fn default() -> (r: Self)
        ensures
            r.client_key@ == default_client_key_path(),
            r.client_cert@ == default_client_cert_path(),
            r.ca_cert@ == default_ca_cert_path(),
    {
        ClientAuth {
            client_key: default_client_key(),
            client_cert: default_client_cert(),
            ca_cert: default_ca_cert(),
        }
    }
}

/// Texts in the order of `String`'s `Ord`: lexicographic by code point.
pub open spec fn text_less(a: Seq<char>, b: Seq<char>) -> bool
    decreases a.len(),
{
    if b.len() == 0 {
        false
    } else if a.len() == 0 {
        true
    } else if a[0] != b[0] {
        (a[0] as u32) < (b[0] as u32)
    } else {
        text_less(a.drop_first(), b.drop_first())
    }
}

/// No text comes before itself.
pub proof fn lemma_text_less_irreflexive(a: Seq<char>)
    ensures
        !text_less(a, a),
    decreases a.len(),
{
    if a.len() > 0 {
        lemma_text_less_irreflexive(a.drop_first());
    }
}

/// The parsed configuration: broker address, last will, TLS identity,
/// store location, and the metrics as (name, definition) pairs.
#[derive(Debug)]
pub struct Config {
    pub uri: String,
    pub lwt: Option<LwtSettings>,
    pub client_auth: Option<ClientAuth>,
    pub db: String,
    pub metrics: Vec<(String, Topic)>,
}

/// Some metric of `metrics` has topic exactly `t`.
pub open spec fn metric_topic(metrics: Seq<(String, Topic)>, t: Seq<char>) -> bool {
    exists|k: int| 0 <= k < metrics.len() && #[trigger] metrics[k].1.mqtt_topic@ == t
}

/// No two metrics share a topic.
pub open spec fn topics_distinct(metrics: Seq<(String, Topic)>) -> bool {
    forall|a: int, b: int|
        0 <= a < b < metrics.len() ==> #[trigger] metrics[a].1.mqtt_topic@
            != #[trigger] metrics[b].1.mqtt_topic@
}

impl Config {
    /// The metrics are held in name order, as a map keyed by name holds
    /// them: names strictly ascending, hence each name once.
    pub open spec fn wf(&self) -> bool {
        forall|i: int, j: int|
            0 <= i < j < self.metrics@.len() ==> text_less(
                #[trigger] self.metrics@[i].0@,
                #[trigger] self.metrics@[j].0@,
            )
    }

    /// The topics of the metrics, each once, in the order in which they
    /// first occur.
    pub fn get_mqtt_topics(&self) -> (r: Vec<&str>)
        ensures
            forall|a: int, b: int| 0 <= a < b < r@.len() ==> #[trigger] r@[a]@ != #[trigger] r@[b]@,
            forall|t: Seq<char>|
                metric_topic(self.metrics@, t) <==> exists|j: int|
                    0 <= j < r@.len() && #[trigger] r@[j]@ == t,
            topics_distinct(self.metrics@) ==> r@.len() == self.metrics@.len(),
            topics_distinct(self.metrics@) ==> forall|i: int|
                0 <= i < r@.len() ==> #[trigger] r@[i]@ == self.metrics@[i].1.mqtt_topic@,
    {
        let mut r: Vec<&str> = Vec::new();
        let mut i: usize = 0;
        while i < self.metrics.len()
            invariant
                i <= self.metrics@.len(),
                topics_distinct(self.metrics@) ==> r@.len() == i,
                topics_distinct(self.metrics@) ==> forall|k: int|
                    0 <= k < r@.len() ==> #[trigger] r@[k]@ == self.metrics@[k].1.mqtt_topic@,
                forall|a: int, b: int| 0 <= a < b < r@.len() ==> #[trigger] r@[a]@ != #[trigger] r@[b]@,
                forall|j: int|
                    0 <= j < r@.len() ==> metric_topic(self.metrics@.subrange(0, i as int), #[trigger] r@[j]@),
                forall|k: int|
                    0 <= k < i ==> exists|j: int|
                        0 <= j < r@.len() && #[trigger] r@[j]@ == #[trigger] self.metrics@[k].1.mqtt_topic@,
            decreases self.metrics@.len() - i,
        {
            let topic = &self.metrics[i].1.mqtt_topic;
            let mut seen = false;
            let mut k: usize = 0;
            while k < i
                invariant
                    i < self.metrics@.len(),
                    k <= i,
                    *topic == self.metrics@[i as int].1.mqtt_topic,
                    seen ==> exists|w: int| 0 <= w < i && #[trigger] self.metrics@[w].1.mqtt_topic@ == topic@,
                    !seen ==> forall|w: int| 0 <= w < k ==> self.metrics@[w].1.mqtt_topic@ != topic@,
                decreases i - k,
            {
                if self.metrics[k].1.mqtt_topic == *topic {
                    assert(self.metrics@[k as int].1.mqtt_topic@ == topic@);
                    seen = true;
                }
                k = k + 1;
            }
            let ghost old_r = r@;
            let ghost pre = self.metrics@.subrange(0, i as int);
            let ghost next = self.metrics@.subrange(0, i + 1);
            proof {
                assert forall|t: Seq<char>| metric_topic(pre, t) implies metric_topic(next, t) by {
                    let w = choose|w: int| 0 <= w < pre.len() && #[trigger] pre[w].1.mqtt_topic@ == t;
                    assert(next[w] == pre[w]);
                }
                assert(next[i as int] == self.metrics@[i as int]);
            }
            if !seen {
                proof {
                    assert forall|j: int| 0 <= j < old_r.len() implies old_r[j]@ != topic@ by {
                        let w = choose|w: int| 0 <= w < pre.len() && #[trigger] pre[w].1.mqtt_topic@ == old_r[j]@;
                        assert(pre[w] == self.metrics@[w]);
                    }
                }
                r.push(topic.as_str());
                proof {
                    assert(r@[old_r.len() as int]@ == topic@);
                    assert forall|k: int| 0 <= k <= i implies exists|j: int|
                        0 <= j < r@.len() && #[trigger] r@[j]@ == #[trigger] self.metrics@[k].1.mqtt_topic@ by {
                        if k < i {
                            let j = choose|j: int|
                                0 <= j < old_r.len() && #[trigger] old_r[j]@ == self.metrics@[k].1.mqtt_topic@;
                            assert(r@[j] == old_r[j]);
                        } else {
                            assert(r@[old_r.len() as int]@ == self.metrics@[k].1.mqtt_topic@);
                        }
                    }
                    assert(metric_topic(next, topic@));
                }
            } else {
                proof {
                    let w = choose|w: int| 0 <= w < i && #[trigger] self.metrics@[w].1.mqtt_topic@ == topic@;
                    if topics_distinct(self.metrics@) {
                        assert(self.metrics@[w].1.mqtt_topic@ != self.metrics@[i as int].1.mqtt_topic@);
                    }
                    let j = choose|j: int|
                        0 <= j < r@.len() && #[trigger] r@[j]@ == self.metrics@[w].1.mqtt_topic@;
                    assert(r@[j]@ == self.metrics@[i as int].1.mqtt_topic@);
                }
            }
            i = i + 1;
        }
        proof {
            assert(self.metrics@.subrange(0, i as int) == self.metrics@);
            assert forall|t: Seq<char>| metric_topic(self.metrics@, t) implies exists|j: int|
                0 <= j < r@.len() && #[trigger] r@[j]@ == t by {
                let k = choose|k: int| 0 <= k < self.metrics@.len() && #[trigger] self.metrics@[k].1.mqtt_topic@ == t;
                let j = choose|j: int| 0 <= j < r@.len() && #[trigger] r@[j]@ == self.metrics@[k].1.mqtt_topic@;
            }
        }
        r
    }
}

} // verus!
