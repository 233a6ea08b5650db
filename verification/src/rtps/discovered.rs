//! What discovery tells about remote endpoints.

use vstd::prelude::*;

use crate::dds::qos::QosPolicies;
use crate::structure::guid::GUID;
use crate::structure::locator::{copy_locators, Locator};

verus! {

/// A remote writer as its participant announces it.
pub struct WriterProxy {
    pub remote_writer_guid: GUID,
    pub unicast_locator_list: Vec<Locator>,
    pub multicast_locator_list: Vec<Locator>,
}

pub struct DiscoveredWriterData {
    pub writer_proxy: WriterProxy,
}

/// A remote reader as its participant announces it.
pub struct ReaderProxy {
    pub remote_reader_guid: GUID,
    pub expects_inline_qos: bool,
    pub unicast_locator_list: Vec<Locator>,
    pub multicast_locator_list: Vec<Locator>,
}

pub struct DiscoveredReaderData {
    pub reader_proxy: ReaderProxy,
    pub qos: QosPolicies,
}

/// The locators that an endpoint announced, or those of its participant where it
/// announced none.
pub open spec fn announced_or_default(
    announced: Seq<Locator>,
    default: Seq<Locator>,
) -> Seq<Locator> {
    if announced.len() == 0 {
        default
    } else {
        announced
    }
}

pub fn discovered_or_default(announced: &Vec<Locator>, default: &Vec<Locator>) -> (r: Vec<Locator>)
    ensures
        r@ == announced_or_default(announced@, default@),
{
    if announced.len() == 0 {
        copy_locators(default)
    } else {
        copy_locators(announced)
    }
}

/// An endpoint is reached where it says itself, and only where it says nothing, where its
/// participant says.
pub proof fn law_own_locators_come_first(announced: Seq<Locator>, default: Seq<Locator>)
    ensures
        announced.len() > 0 ==> announced_or_default(announced, default) == announced,
        announced.len() == 0 ==> announced_or_default(announced, default) == default,
{
}

} // verus!
