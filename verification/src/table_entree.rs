use vstd::prelude::*;

verus! {

/// One telemetry observation: a topic name, an opaque serialized payload, and
/// a timestamp in store units.
#[derive(Debug)]
pub struct TableEntree {
    pub topic: String,
    pub value: String,
    pub timestamp: u32,
}

impl TableEntree {
    pub fn new(topic: String, value: String, timestamp: u32) -> (r: Self)
        ensures
            r.topic == topic,
            r.value == value,
            r.timestamp == timestamp,
    {
        Self { topic, value, timestamp }
    }

    /// The placeholder row handed out when a lookup finds nothing.
    pub fn get_error() -> (r: Self)
        ensures
            r.topic@ == "ERROR"@,
            r.value@ == "ERROR"@,
            r.timestamp == u32::MIN,
    {
        Self { topic: "ERROR".to_owned(), value: "ERROR".to_owned(), timestamp: u32::MIN }
    }
}

impl Clone for TableEntree {
    fn clone(&self) -> (r: Self)
        ensures
            r == *self,
    {
        TableEntree {
            topic: self.topic.clone(),
            value: self.value.clone(),
            timestamp: self.timestamp,
        }
    }
}

} // verus!
