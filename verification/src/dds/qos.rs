//! Quality-of-service policies.

use vstd::prelude::*;

use crate::structure::time::Duration;

verus! {

#[derive(Clone, Copy, Debug, PartialEq, Eq, Structural, Hash, PartialOrd, Ord)]
pub enum Durability {
    Volatile,
    TransientLocal,
    Transient,
    Persistent,
}

#[derive(Clone, Copy, Debug, PartialEq, Eq, Structural, Hash, PartialOrd, Ord)]
pub enum PresentationAccessScope {
    Instance,
    Topic,
    Group,
}

#[derive(Clone, Copy, Debug, PartialEq, Eq, Structural, Hash, PartialOrd, Ord)]
pub struct Presentation {
    pub access_scope: PresentationAccessScope,
    pub coherent_access: bool,
    pub ordered_access: bool,
}

#[derive(Clone, Copy, Debug, PartialEq, Eq, Structural, Hash, PartialOrd, Ord)]
pub enum Ownership {
    Shared,
    Exclusive { strength: i32 },
}

#[derive(Clone, Copy, Debug, PartialEq, Eq, Structural, Hash, PartialOrd, Ord)]
pub enum Liveliness {
    Automatic { lease_duration: Duration },
    ManualByParticipant { lease_duration: Duration },
    ManualByTopic { lease_duration: Duration },
}

#[derive(Clone, Copy, Debug, PartialEq, Eq, Structural, Hash, PartialOrd, Ord)]
pub enum Reliability {
    BestEffort,
    Reliable { max_blocking_time: Duration },
}

#[derive(Clone, Copy, Debug, PartialEq, Eq, Structural, Hash, PartialOrd, Ord)]
pub enum DestinationOrder {
    ByReceptionTimestamp,
    BySourceTimeStamp,
}

#[derive(Clone, Copy, Debug, PartialEq, Eq, Structural, Hash, PartialOrd, Ord)]
pub enum History {
    KeepLast { depth: i32 },
    KeepAll,
}

/// Limits on what an endpoint stores. A limit that is not positive is no limit.
#[derive(Clone, Copy, Debug, PartialEq, Eq, Structural, Hash, PartialOrd, Ord)]
pub struct ResourceLimits {
    pub max_samples: i32,
    pub max_instances: i32,
    pub max_samples_per_instance: i32,
}

/// Names a policy, such as the one over which two endpoints disagree.
#[derive(Clone, Copy, Debug, PartialEq, Eq, Structural, Hash, PartialOrd, Ord)]
pub enum QosPolicyId {
    Durability,
    Presentation,
    Deadline,
    LatencyBudget,
    Ownership,
    Liveliness,
    TimeBasedFilter,
    Reliability,
    DestinationOrder,
    History,
    ResourceLimits,
    Lifespan,
}

/// The policies of an entity. One that is `None` is left to the default.
#[derive(Clone, Copy, Debug, PartialEq, Eq, Structural, Hash, PartialOrd, Ord)]
pub struct QosPolicies {
    pub durability: Option<Durability>,
    pub presentation: Option<Presentation>,
    pub deadline: Option<Duration>,
    pub latency_budget: Option<Duration>,
    pub ownership: Option<Ownership>,
    pub liveliness: Option<Liveliness>,
    pub time_based_filter: Option<Duration>,
    pub reliability: Option<Reliability>,
    pub destination_order: Option<DestinationOrder>,
    pub history: Option<History>,
    pub resource_limits: Option<ResourceLimits>,
    pub lifespan: Option<Duration>,
}

/// The policy of `change` where it has one, else that of `base`.
pub open spec fn overridden<T>(base: Option<T>, change: Option<T>) -> Option<T> {
    match change {
        Some(_) => change,
        None => base,
    }
}

fn override_policy<T: Copy>(base: Option<T>, change: Option<T>) -> (r: Option<T>)
    ensures
        r == overridden(base, change),
{
    match change {
        Some(_) => change,
        None => base,
    }
}

impl QosPolicies {
    /// No policy at all.
    #[verifier::allow_in_spec]
    pub fn qos_none() -> (q: QosPolicies)
        returns
            (QosPolicies {
                durability: None,
                presentation: None,
                deadline: None,
                latency_budget: None,
                ownership: None,
                liveliness: None,
                time_based_filter: None,
                reliability: None,
                destination_order: None,
                history: None,
                resource_limits: None,
                lifespan: None,
            }),
    {
        QosPolicies {
            durability: None,
            presentation: None,
            deadline: None,
            latency_budget: None,
            ownership: None,
            liveliness: None,
            time_based_filter: None,
            reliability: None,
            destination_order: None,
            history: None,
            resource_limits: None,
            lifespan: None,
        }
    }

    pub open spec fn spec_modify_by(self, change: QosPolicies) -> QosPolicies {
        QosPolicies {
            durability: overridden(self.durability, change.durability),
            presentation: overridden(self.presentation, change.presentation),
            deadline: overridden(self.deadline, change.deadline),
            latency_budget: overridden(self.latency_budget, change.latency_budget),
            ownership: overridden(self.ownership, change.ownership),
            liveliness: overridden(self.liveliness, change.liveliness),
            time_based_filter: overridden(self.time_based_filter, change.time_based_filter),
            reliability: overridden(self.reliability, change.reliability),
            destination_order: overridden(self.destination_order, change.destination_order),
            history: overridden(self.history, change.history),
            resource_limits: overridden(self.resource_limits, change.resource_limits),
            lifespan: overridden(self.lifespan, change.lifespan),
        }
    }

    /// These policies, with those that `change` defines in place of their own.
    pub fn modify_by(&self, change: &QosPolicies) -> (q: QosPolicies)
        ensures
            q == self.spec_modify_by(*change),
    {
        QosPolicies {
            durability: override_policy(self.durability, change.durability),
            presentation: override_policy(self.presentation, change.presentation),
            deadline: override_policy(self.deadline, change.deadline),
            latency_budget: override_policy(self.latency_budget, change.latency_budget),
            ownership: override_policy(self.ownership, change.ownership),
            liveliness: override_policy(self.liveliness, change.liveliness),
            time_based_filter: override_policy(self.time_based_filter, change.time_based_filter),
            reliability: override_policy(self.reliability, change.reliability),
            destination_order: override_policy(self.destination_order, change.destination_order),
            history: override_policy(self.history, change.history),
            resource_limits: override_policy(self.resource_limits, change.resource_limits),
            lifespan: override_policy(self.lifespan, change.lifespan),
        }
    }

    pub open spec fn spec_is_reliable(self) -> bool {
        self.reliability matches Some(Reliability::Reliable { .. })
    }

    pub fn is_reliable(&self) -> (r: bool)
        ensures
            r == self.spec_is_reliable(),
    {
        match self.reliability {
            Some(Reliability::Reliable { .. }) => true,
            _ => false,
        }
    }

    /// Volatile is the default.
    pub open spec fn spec_is_volatile(self) -> bool {
        self.durability is None || self.durability == Some(Durability::Volatile)
    }

    pub fn is_volatile(&self) -> (r: bool)
        ensures
            r == self.spec_is_volatile(),
    {
        match self.durability {
            None => true,
            Some(Durability::Volatile) => true,
            _ => false,
        }
    }

    /// The limit on the number of samples, if there is one.
    pub open spec fn spec_max_samples(self) -> Option<usize> {
        match self.resource_limits {
            Some(rl) if rl.max_samples > 0 => Some(rl.max_samples as usize),
            _ => None,
        }
    }

    pub fn max_samples(&self) -> (r: Option<usize>)
        ensures
            r == self.spec_max_samples(),
    {
        match self.resource_limits {
            Some(rl) => if rl.max_samples > 0 {
                Some(rl.max_samples as usize)
            } else {
                None
            },
            None => None,
        }
    }
}

impl Default for QosPolicies {
    fn default() -> (q: QosPolicies)
        ensures
            q == QosPolicies::qos_none(),
    {
        QosPolicies::qos_none()
    }
}

/// Laying policies over others twice is laying them over once with the combined
/// changes, and an empty change changes nothing.
pub proof fn law_policies_layer(base: QosPolicies, first: QosPolicies, second: QosPolicies)
    ensures
        base.spec_modify_by(first).spec_modify_by(second) == base.spec_modify_by(
            first.spec_modify_by(second),
        ),
        base.spec_modify_by(QosPolicies::qos_none()) == base,
{
}

/// A policy of the change where it has one, and else that of the base.
pub open spec fn is_changed<T>(after: Option<T>, base: Option<T>, change: Option<T>) -> bool {
    &&& change is Some ==> after == change
    &&& change is None ==> after == base
}

/// Every policy that a change sets holds, and every policy that it does not set stays.
pub proof fn law_every_policy_is_changed_alone(base: QosPolicies, change: QosPolicies)
    ensures
        ({
            let q = base.spec_modify_by(change);
            &&& is_changed(q.durability, base.durability, change.durability)
            &&& is_changed(q.presentation, base.presentation, change.presentation)
            &&& is_changed(q.deadline, base.deadline, change.deadline)
            &&& is_changed(q.latency_budget, base.latency_budget, change.latency_budget)
            &&& is_changed(q.ownership, base.ownership, change.ownership)
            &&& is_changed(q.liveliness, base.liveliness, change.liveliness)
            &&& is_changed(q.time_based_filter, base.time_based_filter, change.time_based_filter)
            &&& is_changed(q.reliability, base.reliability, change.reliability)
            &&& is_changed(q.destination_order, base.destination_order, change.destination_order)
            &&& is_changed(q.history, base.history, change.history)
            &&& is_changed(q.resource_limits, base.resource_limits, change.resource_limits)
            &&& is_changed(q.lifespan, base.lifespan, change.lifespan)
        }),
{
}

/// Where nothing is said, a writer is best-effort and volatile, and without a limit on its
/// samples; a limit below one is none.
pub proof fn law_policies_are_read_as_they_are_set(qos: QosPolicies)
    ensures
        qos.spec_is_reliable() <==> (qos.reliability matches Some(Reliability::Reliable { .. })),
        qos.durability is None ==> qos.spec_is_volatile(),
        qos.durability matches Some(d) ==> (qos.spec_is_volatile() <==> d is Volatile),
        qos.spec_max_samples() matches Some(n) ==> (qos.resource_limits matches Some(limits)
            && limits.max_samples == n),
        qos.spec_max_samples() is None ==> (qos.resource_limits matches Some(limits)
            ==> limits.max_samples < 1),
{
}

} // verus!
