//! Topics.

use vstd::prelude::*;

use crate::dds::qos::QosPolicies;

verus! {

/// Does a topic have instances that are told apart by a key?
#[derive(Clone, Copy, Debug, PartialEq, Eq, Structural, Hash)]
pub enum TopicKind {
    NoKey,
    WithKey,
}

/// A name under which data of one type is published.
#[derive(Debug)]
pub struct Topic {
    pub name: String,
    pub type_desc: String,
    pub qos: QosPolicies,
    pub kind: TopicKind,
}

impl Clone for Topic {
    fn clone(&self) -> (copy: Self)
        ensures
            copy.same(*self),
    {
        Topic {
            name: self.name.clone(),
            type_desc: self.type_desc.clone(),
            qos: self.qos,
            kind: self.kind,
        }
    }
}

impl Topic {
    /// All of the topic is as in `other`.
    pub open spec fn same(self, other: Self) -> bool {
        &&& self.name@ == other.name@
        &&& self.type_desc@ == other.type_desc@
        &&& self.qos == other.qos
        &&& self.kind == other.kind
    }
}

/// A topic that another participant told of.
pub struct DiscoveredTopicData {
    pub topic_name: String,
    pub type_desc: String,
    pub qos: QosPolicies,
    /// Did it tell of a key?
    pub has_key: bool,
}

impl DiscoveredTopicData {
    /// The topic that was told of.
    pub fn to_topic(&self) -> (topic: Topic)
        ensures
            topic.name@ == self.topic_name@,
            topic.type_desc@ == self.type_desc@,
            topic.qos == self.qos,
            topic.kind == (if self.has_key {
                TopicKind::WithKey
            } else {
                TopicKind::NoKey
            }),
    {
        Topic {
            name: self.topic_name.clone(),
            type_desc: self.type_desc.clone(),
            qos: self.qos,
            kind: if self.has_key {
                TopicKind::WithKey
            } else {
                TopicKind::NoKey
            },
        }
    }
}

} // verus!
