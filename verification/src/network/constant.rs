//! Well-known ports.

use vstd::prelude::*;

verus! {

/// How many participants on the same host are told over the loopback interface.
pub const SPDP_LOCALHOST_PEER_COUNT: u16 = 32;

/// The port on which participant number `participant_id` of a domain hears unicast
/// discovery.
pub open spec fn spec_spdp_well_known_unicast_port(domain_id: int, participant_id: int) -> int {
    7400 + 250 * domain_id + 10 + 2 * participant_id
}

pub fn spdp_well_known_unicast_port(domain_id: u16, participant_id: u16) -> (port: u16)
    requires
        spec_spdp_well_known_unicast_port(domain_id as int, participant_id as int) <= u16::MAX,
    ensures
        port == spec_spdp_well_known_unicast_port(domain_id as int, participant_id as int),
{
    7400 + 250 * domain_id + 10 + 2 * participant_id
}

/// The port on which the participants of a domain hear multicast discovery.
pub open spec fn spec_spdp_well_known_multicast_port(domain_id: int) -> int {
    7400 + 250 * domain_id
}

pub fn spdp_well_known_multicast_port(domain_id: u16) -> (port: u16)
    requires
        spec_spdp_well_known_multicast_port(domain_id as int) <= u16::MAX,
    ensures
        port == spec_spdp_well_known_multicast_port(domain_id as int),
{
    7400 + 250 * domain_id
}

/// The port on which participant number `participant_id` of a domain hears unicast data.
pub open spec fn spec_user_traffic_unicast_port(domain_id: int, participant_id: int) -> int {
    7400 + 250 * domain_id + 11 + 2 * participant_id
}

pub fn user_traffic_unicast_port(domain_id: u16, participant_id: u16) -> (port: u16)
    requires
        spec_user_traffic_unicast_port(domain_id as int, participant_id as int) <= u16::MAX,
    ensures
        port == spec_user_traffic_unicast_port(domain_id as int, participant_id as int),
{
    7400 + 250 * domain_id + 11 + 2 * participant_id
}

/// The port on which the participants of a domain hear multicast data.
pub open spec fn spec_user_traffic_multicast_port(domain_id: int) -> int {
    7400 + 250 * domain_id + 1
}

pub fn user_traffic_multicast_port(domain_id: u16) -> (port: u16)
    requires
        spec_user_traffic_multicast_port(domain_id as int) <= u16::MAX,
    ensures
        port == spec_user_traffic_multicast_port(domain_id as int),
{
    7400 + 250 * domain_id + 1
}

/// Whether there are such ports for the multicast of a domain.
pub fn has_multicast_ports(domain_id: u16) -> (there: bool)
    ensures
        there == (spec_spdp_well_known_multicast_port(domain_id as int) <= u16::MAX
            && spec_user_traffic_multicast_port(domain_id as int) <= u16::MAX),
{
    250 * (domain_id as u64) + 7401 <= 65535
}

/// Whether there are such ports for the unicast of participant number `participant_id` of a
/// domain.
pub fn has_unicast_ports(domain_id: u16, participant_id: u16) -> (there: bool)
    ensures
        there == (spec_spdp_well_known_unicast_port(domain_id as int, participant_id as int)
            <= u16::MAX && spec_user_traffic_unicast_port(domain_id as int, participant_id as int)
            <= u16::MAX),
{
    250 * (domain_id as u64) + 2 * (participant_id as u64) + 7411 <= 65535
}

/// Where a participant of a domain has ports, so have those of lower numbers, and so has the
/// multicast of the domain.
pub proof fn law_lower_numbers_have_ports(domain_id: int, lower: int, higher: int)
    requires
        0 <= lower <= higher,
        spec_user_traffic_unicast_port(domain_id, higher) <= u16::MAX,
    ensures
        spec_spdp_well_known_unicast_port(domain_id, lower) <= u16::MAX,
        spec_user_traffic_unicast_port(domain_id, lower) <= u16::MAX,
        spec_spdp_well_known_multicast_port(domain_id) <= u16::MAX,
        spec_user_traffic_multicast_port(domain_id) <= u16::MAX,
{
}

/// No two participants of a domain listen on the same unicast port, nor does one of them
/// use a port twice or one of those for multicast.
pub proof fn law_ports_do_not_collide(domain_id: int, first: int, second: int)
    requires
        0 <= first,
        0 <= second,
    ensures
        first != second ==> spec_spdp_well_known_unicast_port(domain_id, first)
            != spec_spdp_well_known_unicast_port(domain_id, second),
        first != second ==> spec_user_traffic_unicast_port(domain_id, first)
            != spec_user_traffic_unicast_port(domain_id, second),
        spec_spdp_well_known_unicast_port(domain_id, first) != spec_user_traffic_unicast_port(
            domain_id,
            second,
        ),
        spec_spdp_well_known_unicast_port(domain_id, first) > spec_user_traffic_multicast_port(
            domain_id,
        ),
        spec_user_traffic_unicast_port(domain_id, first) > spec_user_traffic_multicast_port(
            domain_id,
        ),
        spec_user_traffic_multicast_port(domain_id) != spec_spdp_well_known_multicast_port(
            domain_id,
        ),
{
}

/// Ports follow from the numbers of the domain and the participant: the first domain starts
/// at the registered port, each next one two hundred and fifty further, and each next
/// participant takes the two ports after those of the one before.
pub proof fn law_ports_go_up_with_the_numbers(domain_id: int, participant_id: int)
    ensures
        spec_spdp_well_known_multicast_port(0) == 7400,
        spec_user_traffic_multicast_port(domain_id) == spec_spdp_well_known_multicast_port(
            domain_id,
        ) + 1,
        spec_spdp_well_known_unicast_port(domain_id, 0) == spec_spdp_well_known_multicast_port(
            domain_id,
        ) + 10,
        spec_user_traffic_unicast_port(domain_id, participant_id)
            == spec_spdp_well_known_unicast_port(domain_id, participant_id) + 1,
        spec_spdp_well_known_multicast_port(domain_id + 1) == spec_spdp_well_known_multicast_port(
            domain_id,
        ) + 250,
        spec_spdp_well_known_unicast_port(domain_id, participant_id + 1)
            == spec_spdp_well_known_unicast_port(domain_id, participant_id) + 2,
{
}

} // verus!
