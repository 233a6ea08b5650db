//! What can go wrong when entities are made and samples are written.

use vstd::prelude::*;
use vstd::string::StringExecFns;

use crate::dds::topic::TopicKind;

verus! {

/// Why an entity could not be made.
#[derive(Debug)]
pub enum CreateError {
    /// The entity that it was to belong to is gone.
    ResourceDropped { reason: String },
    /// A lock was left in an unknown state, or a thread is gone.
    Poisoned { reason: String },
    OutOfResources { reason: String },
    Internal { reason: String },
    NotAllowedBySecurity { reason: String },
    /// The topic is not of this kind.
    TopicKind(TopicKind),
}

/// Why a sample could not be written.
#[derive(Debug)]
pub enum WriteError {
    Serialization { reason: String },
    /// There is no room for it now.
    WouldBlock,
    Internal { reason: String },
}

/// The text of an error with a detail behind it.
pub(crate) fn text_with(text: &str, detail: &String) -> (s: String)
    ensures
        s@ == text@ + detail@,
{
    text.to_owned().concat(detail.as_str())
}

/// The text of an error with a detail and what it is about behind it.
pub(crate) fn text_about(text: &str, detail: &String, between: &str, about: &String) -> (s: String)
    ensures
        s@ == text@ + detail@ + between@ + about@,
{
    text_with(text, detail).concat(between).concat(about.as_str())
}

} // verus!
