//! Which destinations a message goes to.

use vstd::prelude::*;

use crate::rtps::rtps_reader_proxy::RtpsReaderProxy;
use crate::rtps::transmit::{find_udp, first_udp, InterfaceSelector};
use crate::structure::guid::GUID;
use crate::structure::locator::Locator;
use crate::structure::sorted_map::{SortKey, SortedMap};

verus! {

/// Which kind of destination is preferred where a reader has both.
#[derive(Clone, Copy, Debug, PartialEq, Eq, Structural)]
pub enum DeliveryMode {
    Unicast,
    Multicast,
}

/// One datagram to send.
#[derive(Clone, Copy, Debug, PartialEq, Eq, Structural)]
pub enum Emission {
    /// To a multicast group over one interface.
    Multicast(Locator, InterfaceSelector),
    /// To the one address that a route names.
    Unicast(Locator),
    /// To an address that was announced, for multicast over every interface.
    Everywhere(Locator),
}

pub open spec fn everywhere(locators: Seq<Locator>) -> Seq<Emission> {
    locators.map_values(|l: Locator| Emission::Everywhere(l))
}

/// The datagrams that reach one reader.
///
/// A reader with a known route gets one datagram along it. One without gets a datagram
/// to each locator of the preferred kind, or of the other kind where it has none of the
/// preferred.
pub open spec fn emissions_for(mode: DeliveryMode, rp: RtpsReaderProxy) -> Seq<Emission> {
    if rp.send_route.fallback {
        let unicast = first_udp(rp.unicast_locator_list@) is Some;
        let multicast = first_udp(rp.multicast_locator_list@) is Some;
        if multicast && (mode is Multicast || !unicast) {
            everywhere(rp.multicast_locator_list@)
        } else if unicast {
            everywhere(rp.unicast_locator_list@)
        } else {
            Seq::empty()
        }
    } else {
        match (mode, rp.send_route.multicast, rp.send_route.unicast) {
            (DeliveryMode::Multicast, Some((group, iface)), _) => seq![
                Emission::Multicast(group, iface),
            ],
            (_, _, Some(locator)) => seq![Emission::Unicast(locator)],
            (_, Some((group, iface)), None) => seq![Emission::Multicast(group, iface)],
            (_, None, None) => Seq::empty(),
        }
    }
}

/// The datagrams that reach all readers of a list, with repetitions.
pub open spec fn emissions_for_all(
    mode: DeliveryMode,
    readers: Seq<RtpsReaderProxy>,
) -> Seq<Emission>
    decreases readers.len(),
{
    if readers.len() == 0 {
        Seq::empty()
    } else {
        emissions_for_all(mode, readers.drop_last()) + emissions_for(mode, readers.last())
    }
}

/// `out` followed by what is in `more` and not there yet.
pub open spec fn merged(out: Seq<Emission>, more: Seq<Emission>) -> Seq<Emission>
    decreases more.len(),
{
    if more.len() == 0 {
        out
    } else {
        let so_far = merged(out, more.drop_last());
        if so_far.contains(more.last()) {
            so_far
        } else {
            so_far.push(more.last())
        }
    }
}

/// Does a datagram go to this address, along a route or because it was announced?
pub open spec fn reaches(plan: Seq<Emission>, locator: Locator) -> bool {
    plan.contains(Emission::Unicast(locator)) || plan.contains(Emission::Everywhere(locator))
}

/// `out` followed by datagrams to those addresses that it does not reach yet.
pub open spec fn with_extra(out: Seq<Emission>, extra: Seq<Locator>) -> Seq<Emission>
    decreases extra.len(),
{
    if extra.len() == 0 {
        out
    } else {
        let so_far = with_extra(out, extra.drop_last());
        if reaches(so_far, extra.last()) {
            so_far
        } else {
            so_far.push(Emission::Everywhere(extra.last()))
        }
    }
}

/// The datagrams to send so that a message reaches all readers and the fixed extra
/// destinations, no datagram twice. An extra destination that is reached for the sake of a
/// reader gets nothing more.
pub open spec fn send_plan(
    mode: DeliveryMode,
    readers: Seq<RtpsReaderProxy>,
    extra: Seq<Locator>,
) -> Seq<Emission> {
    with_extra(merged(Seq::empty(), emissions_for_all(mode, readers)), extra)
}

/// The readers of a map in the order of their identifiers.
pub open spec fn in_order(readers: SortedMap<GUID, RtpsReaderProxy>) -> Seq<RtpsReaderProxy> {
    readers.keys().map_values(|k: GUID| readers@[k.rank()])
}

proof fn lemma_merged_in_two(out: Seq<Emission>, a: Seq<Emission>, b: Seq<Emission>)
    ensures
        merged(merged(out, a), b) == merged(out, a + b),
    decreases b.len(),
{
    if b.len() == 0 {
        assert(a + b =~= a);
    } else {
        lemma_merged_in_two(out, a, b.drop_last());
        assert((a + b).drop_last() =~= a + b.drop_last());
        assert((a + b).last() == b.last());
    }
}

/// Adds a datagram to the plan, unless it is there already.
fn emit(out: &mut Vec<Emission>, e: Emission)
    ensures
        final(out)@ == merged(old(out)@, seq![e]),
{
    proof {
        assert(seq![e].drop_last() =~= Seq::empty());
        reveal_with_fuel(merged, 2);
    }
    let mut i: usize = 0;
    while i < out.len()
        invariant
            out@ == old(out)@,
            i <= out@.len(),
            out@.contains(e) ==> merged(out@, seq![e]) == out@,
            forall|j: int| 0 <= j < i ==> out@[j] != e,
        decreases out@.len() - i,
    {
        if out[i] == e {
            assert(out@[i as int] == e);
            return;
        }
        i += 1;
    }
    out.push(e);
}

fn emit_everywhere(out: &mut Vec<Emission>, locators: &Vec<Locator>)
    ensures
        final(out)@ == merged(old(out)@, everywhere(locators@)),
{
    let ghost all = everywhere(locators@);
    let mut i: usize = 0;
    while i < locators.len()
        invariant
            i <= locators@.len(),
            all == everywhere(locators@),
            out@ == merged(old(out)@, all.take(i as int)),
        decreases locators@.len() - i,
    {
        emit(out, Emission::Everywhere(locators[i]));
        i += 1;
        proof {
            lemma_merged_in_two(old(out)@, all.take(i - 1), seq![all[i - 1]]);
            assert(all.take(i as int) =~= all.take(i - 1) + seq![all[i - 1]]);
        }
    }
    assert(all.take(i as int) =~= all);
}

fn emit_extra(out: &mut Vec<Emission>, extra: &Vec<Locator>)
    ensures
        final(out)@ == with_extra(old(out)@, extra@),
{
    let mut i: usize = 0;
    while i < extra.len()
        invariant
            i <= extra@.len(),
            out@ == with_extra(old(out)@, extra@.take(i as int)),
        decreases extra@.len() - i,
    {
        let locator: Locator = extra[i];
        let mut reached: bool = false;
        let mut j: usize = 0;
        while j < out.len()
            invariant
                j <= out@.len(),
                reached ==> reaches(out@, locator),
                !reached ==> forall|k: int|
                    0 <= k < j ==> out@[k] != Emission::Unicast(locator) && out@[k]
                        != Emission::Everywhere(locator),
            decreases out@.len() - j,
        {
            if out[j] == Emission::Unicast(locator) || out[j] == Emission::Everywhere(locator) {
                assert(out@.contains(out@[j as int]));
                reached = true;
            }
            j += 1;
        }
        if !reached {
            out.push(Emission::Everywhere(locator));
        }
        i += 1;
        assert(extra@.take(i as int).drop_last() =~= extra@.take(i - 1));
        assert(extra@.take(i as int).last() == locator);
    }
    assert(extra@.take(i as int) =~= extra@);
}

fn emit_for_reader(out: &mut Vec<Emission>, mode: DeliveryMode, reader: &RtpsReaderProxy)
    ensures
        final(out)@ == merged(old(out)@, emissions_for(mode, *reader)),
{
    let route = reader.send_route();
    if route.fallback {
        let unicast: bool = find_udp(&reader.unicast_locator_list).is_some();
        let multicast: bool = find_udp(&reader.multicast_locator_list).is_some();
        if multicast && (mode == DeliveryMode::Multicast || !unicast) {
            emit_everywhere(out, &reader.multicast_locator_list);
        } else if unicast {
            emit_everywhere(out, &reader.unicast_locator_list);
        }
    } else {
        match (mode, route.multicast, route.unicast) {
            (DeliveryMode::Multicast, Some((group, iface)), _) => emit(
                out,
                Emission::Multicast(group, iface),
            ),
            (_, _, Some(locator)) => emit(out, Emission::Unicast(locator)),
            (_, Some((group, iface)), None) => emit(out, Emission::Multicast(group, iface)),
            (_, None, None) => {},
        }
    }
}

/// The datagrams to send so that a message reaches one reader and the fixed extra
/// destinations.
pub fn plan_for_one(mode: DeliveryMode, reader: &RtpsReaderProxy, extra: &Vec<Locator>) -> (out: Vec<
    Emission,
>)
    ensures
        out@ == send_plan(mode, seq![*reader], extra@),
        is_plan_for(out@, mode, seq![*reader], extra@),
{
    let mut out: Vec<Emission> = Vec::new();
    emit_for_reader(&mut out, mode, reader);
    proof {
        let one = seq![*reader];
        assert(one.drop_last() =~= Seq::empty());
        reveal_with_fuel(emissions_for_all, 2);
        assert(emissions_for_all(mode, one) =~= emissions_for(mode, *reader));
        law_plan_reaches_each_reader(mode, one, extra@);
    }
    emit_extra(&mut out, extra);
    out
}

/// The datagrams to send so that a message reaches all readers and the fixed extra
/// destinations.
pub fn plan_for_all(
    mode: DeliveryMode,
    readers: &SortedMap<GUID, RtpsReaderProxy>,
    extra: &Vec<Locator>,
) -> (out: Vec<Emission>)
    ensures
        out@ == send_plan(mode, in_order(*readers), extra@),
        is_plan_for(out@, mode, in_order(*readers), extra@),
        reaches_all(out@, mode, readers@),
{
    let mut out: Vec<Emission> = Vec::new();
    let ghost all = in_order(*readers);
    let n: usize = readers.len();
    let mut i: usize = 0;
    while i < n
        invariant
            i <= n,
            n == readers.keys().len(),
            readers.listed(),
            all == in_order(*readers),
            out@ == merged(Seq::empty(), emissions_for_all(mode, all.take(i as int))),
        decreases n - i,
    {
        let rp: &RtpsReaderProxy = readers.value_at(i);
        emit_for_reader(&mut out, mode, rp);
        i += 1;
        proof {
            assert(all.take(i as int).drop_last() =~= all.take(i - 1));
            assert(all.take(i as int).last() == *rp);
            lemma_merged_in_two(
                Seq::empty(),
                emissions_for_all(mode, all.take(i - 1)),
                emissions_for(mode, *rp),
            );
        }
    }
    proof {
        assert(all.take(i as int) =~= all);
        law_plan_reaches_each_reader(mode, all, extra@);
        law_plan_reaches_all_matched(mode, *readers, extra@);
    }
    emit_extra(&mut out, extra);
    out
}

proof fn lemma_merged(out: Seq<Emission>, more: Seq<Emission>)
    requires
        out.no_duplicates(),
    ensures
        merged(out, more).no_duplicates(),
        forall|e: Emission| #[trigger]
            merged(out, more).contains(e) <==> out.contains(e) || more.contains(e),
    decreases more.len(),
{
    if more.len() > 0 {
        let rest = more.drop_last();
        let e = more.last();
        lemma_merged(out, rest);
        let so_far = merged(out, rest);
        assert(more =~= rest.push(e));
        assert forall|x: Emission| #[trigger]
            more.contains(x) <==> rest.contains(x) || x == e by {
            if rest.contains(x) {
                let k = choose|k: int| 0 <= k < rest.len() && rest[k] == x;
                assert(more[k] == x);
            }
            assert(more[more.len() - 1] == e);
        }
        assert forall|x: Emission| #[trigger]
            so_far.push(e).contains(x) <==> so_far.contains(x) || x == e by {
            if so_far.contains(x) {
                let k = choose|k: int| 0 <= k < so_far.len() && so_far[k] == x;
                assert(so_far.push(e)[k] == x);
            }
            assert(so_far.push(e)[so_far.len() as int] == e);
        }
    }
}

proof fn lemma_emissions_of_each(mode: DeliveryMode, readers: Seq<RtpsReaderProxy>, i: int)
    requires
        0 <= i < readers.len(),
    ensures
        forall|e: Emission| #[trigger]
            emissions_for(mode, readers[i]).contains(e) ==> emissions_for_all(mode, readers).contains(e),
    decreases readers.len(),
{
    let last = emissions_for(mode, readers.last());
    let rest = emissions_for_all(mode, readers.drop_last());
    if i < readers.len() - 1 {
        lemma_emissions_of_each(mode, readers.drop_last(), i);
        assert(readers.drop_last()[i] == readers[i]);
    }
    assert forall|e: Emission| #[trigger]
        emissions_for(mode, readers[i]).contains(e) implies (rest + last).contains(e) by {
        if i < readers.len() - 1 {
            let k = choose|k: int| 0 <= k < rest.len() && rest[k] == e;
            assert((rest + last)[k] == e);
        } else {
            let k = choose|k: int| 0 <= k < last.len() && last[k] == e;
            assert((rest + last)[rest.len() + k] == e);
        }
    }
}

proof fn lemma_with_extra(out: Seq<Emission>, extra: Seq<Locator>)
    requires
        out.no_duplicates(),
    ensures
        with_extra(out, extra).no_duplicates(),
        forall|e: Emission| #[trigger] out.contains(e) ==> with_extra(out, extra).contains(e),
        forall|l: Locator| #[trigger] extra.contains(l) ==> reaches(with_extra(out, extra), l),
        forall|e: Emission| #[trigger]
            with_extra(out, extra).contains(e) && !out.contains(e) ==> exists|l: Locator|
                #[trigger] extra.contains(l) && e == Emission::Everywhere(l) && !reaches(out, l),
    decreases extra.len(),
{
    if extra.len() > 0 {
        let rest = extra.drop_last();
        let l = extra.last();
        lemma_with_extra(out, rest);
        let so_far = with_extra(out, rest);
        let all = with_extra(out, extra);
        assert(extra[extra.len() - 1] == l);
        assert forall|x: Emission| #[trigger] so_far.contains(x) implies all.contains(x) by {
            let k = choose|k: int| 0 <= k < so_far.len() && so_far[k] == x;
            assert(all[k] == x);
        }
        assert forall|x: Locator| #[trigger] rest.contains(x) implies extra.contains(x) by {
            let k = choose|k: int| 0 <= k < rest.len() && rest[k] == x;
            assert(extra[k] == x);
        }
        if !reaches(so_far, l) {
            assert(all[so_far.len() as int] == Emission::Everywhere(l));
            assert(reaches(all, l));
            if reaches(out, l) {
                assert(so_far.contains(Emission::Unicast(l)) || so_far.contains(
                    Emission::Everywhere(l),
                ));
            }
        }
        assert forall|x: Locator| #[trigger] extra.contains(x) implies reaches(all, x) by {
            let k = choose|k: int| 0 <= k < extra.len() && extra[k] == x;
            if k < rest.len() {
                assert(rest[k] == x);
                assert(rest.contains(x));
            }
        }
        assert forall|e: Emission| #[trigger] all.contains(e) && !out.contains(e) implies exists|
            x: Locator,
        | #[trigger] extra.contains(x) && e == Emission::Everywhere(x) && !reaches(out, x) by {
            if so_far.contains(e) {
                let x = choose|x: Locator| #[trigger]
                    rest.contains(x) && e == Emission::Everywhere(x) && !reaches(out, x);
                assert(extra.contains(x));
            } else {
                assert(e == Emission::Everywhere(l));
                assert(extra.contains(l));
            }
        }
    }
}

/// No datagram goes out twice, and every reader gets all that is meant for it. The fixed
/// extra destinations are reached too, and get nothing where a reader is reached there
/// already.
pub proof fn law_plan_reaches_everyone_once(
    mode: DeliveryMode,
    readers: Seq<RtpsReaderProxy>,
    extra: Seq<Locator>,
)
    ensures
        send_plan(mode, readers, extra).no_duplicates(),
        forall|i: int, e: Emission|
            0 <= i < readers.len() && #[trigger] emissions_for(mode, readers[i]).contains(e)
                ==> send_plan(mode, readers, extra).contains(e),
        forall|l: Locator| #[trigger]
            extra.contains(l) ==> reaches(send_plan(mode, readers, extra), l),
        forall|e: Emission| #[trigger]
            send_plan(mode, readers, extra).contains(e) && !emissions_for_all(
                mode,
                readers,
            ).contains(e) ==> exists|l: Locator| #[trigger]
                extra.contains(l) && e == Emission::Everywhere(l) && !reaches(
                    emissions_for_all(mode, readers),
                    l,
                ),
{
    let wanted = emissions_for_all(mode, readers);
    let base = merged(Seq::empty(), wanted);
    lemma_merged(Seq::empty(), wanted);
    lemma_with_extra(base, extra);
    assert(forall|l: Locator| #[trigger] reaches(base, l) == reaches(wanted, l));
    assert forall|i: int, e: Emission|
        0 <= i < readers.len() && #[trigger] emissions_for(mode, readers[i]).contains(
            e,
        ) implies send_plan(mode, readers, extra).contains(e) by {
        lemma_emissions_of_each(mode, readers, i);
        assert(wanted.contains(e));
        assert(base.contains(e));
    }
    assert forall|e: Emission| #[trigger]
        send_plan(mode, readers, extra).contains(e) && !wanted.contains(e) implies exists|
        l: Locator,
    | #[trigger] extra.contains(l) && e == Emission::Everywhere(l) && !reaches(wanted, l) by {
        assert(!base.contains(e));
        let l = choose|l: Locator| #[trigger]
            extra.contains(l) && e == Emission::Everywhere(l) && !reaches(base, l);
        assert(!reaches(wanted, l));
    }
}

/// Does the list have an address that can be sent to?
pub open spec fn has_udp(locators: Seq<Locator>) -> bool {
    exists|i: int|
        0 <= i < locators.len() && (#[trigger] locators[i] is UdpV4 || locators[i] is UdpV6)
}

/// Is a datagram to this address over this way meant for the reader? One goes along the
/// route that was chosen for it, in the preferred kind where the route has both. Without a
/// route one goes to each address that it announced, again of the preferred kind where
/// there is one of it to send to.
pub open spec fn is_meant_for(e: Emission, mode: DeliveryMode, rp: RtpsReaderProxy) -> bool {
    let route = rp.send_route;
    let unicast = rp.unicast_locator_list@;
    let multicast = rp.multicast_locator_list@;
    match e {
        Emission::Unicast(locator) => {
            &&& !route.fallback
            &&& route.unicast == Some(locator)
            &&& mode == DeliveryMode::Unicast || route.multicast is None
        },
        Emission::Multicast(group, interface) => {
            &&& !route.fallback
            &&& route.multicast == Some((group, interface))
            &&& mode == DeliveryMode::Multicast || route.unicast is None
        },
        Emission::Everywhere(locator) => {
            &&& route.fallback
            &&& {
                ||| {
                    &&& unicast.contains(locator)
                    &&& has_udp(unicast)
                    &&& mode == DeliveryMode::Unicast || !has_udp(multicast)
                }
                ||| {
                    &&& multicast.contains(locator)
                    &&& has_udp(multicast)
                    &&& mode == DeliveryMode::Multicast || !has_udp(unicast)
                }
            }
        },
    }
}

/// Is anything known of the reader that could be sent to?
pub open spec fn has_destination(rp: RtpsReaderProxy) -> bool {
    if rp.send_route.fallback {
        has_udp(rp.unicast_locator_list@) || has_udp(rp.multicast_locator_list@)
    } else {
        rp.send_route.unicast is Some || rp.send_route.multicast is Some
    }
}

/// The plan has everything that is meant for the reader, and that is something unless
/// nothing is known to send to.
pub open spec fn is_reached(plan: Seq<Emission>, mode: DeliveryMode, rp: RtpsReaderProxy) -> bool {
    &&& forall|e: Emission| #[trigger] is_meant_for(e, mode, rp) ==> plan.contains(e)
    &&& has_destination(rp) ==> exists|e: Emission| #[trigger]
        plan.contains(e) && is_meant_for(e, mode, rp)
}

/// The plan reaches all readers and the fixed extra destinations, sends no datagram twice,
/// and none that is meant for nobody.
pub open spec fn is_plan_for(
    plan: Seq<Emission>,
    mode: DeliveryMode,
    readers: Seq<RtpsReaderProxy>,
    extra: Seq<Locator>,
) -> bool {
    &&& plan.no_duplicates()
    &&& forall|i: int| 0 <= i < readers.len() ==> is_reached(plan, mode, #[trigger] readers[i])
    &&& forall|l: Locator| #[trigger]
        extra.contains(l) ==> plan.contains(Emission::Unicast(l)) || plan.contains(
            Emission::Everywhere(l),
        )
    &&& forall|e: Emission| #[trigger]
        plan.contains(e) ==> (exists|i: int|
            0 <= i < readers.len() && is_meant_for(e, mode, #[trigger] readers[i])) || (
        e matches Emission::Everywhere(l) && extra.contains(l))
}

proof fn lemma_has_udp(locators: Seq<Locator>)
    ensures
        has_udp(locators) == first_udp(locators) is Some,
    decreases locators.len(),
{
    if locators.len() > 0 {
        let rest = locators.skip(1);
        lemma_has_udp(rest);
        if has_udp(rest) {
            let i = choose|i: int|
                0 <= i < rest.len() && (#[trigger] rest[i] is UdpV4 || rest[i] is UdpV6);
            assert(locators[i + 1] == rest[i]);
        }
        if has_udp(locators) && !(locators[0] is UdpV4 || locators[0] is UdpV6) {
            let i = choose|i: int|
                0 <= i < locators.len() && (#[trigger] locators[i] is UdpV4
                    || locators[i] is UdpV6);
            assert(rest[i - 1] == locators[i]);
        }
    }
}

proof fn lemma_everywhere(locators: Seq<Locator>)
    ensures
        forall|e: Emission| #[trigger]
            everywhere(locators).contains(e) <==> (e matches Emission::Everywhere(l)
                && locators.contains(l)),
{
    let all = everywhere(locators);
    assert forall|e: Emission| #[trigger]
        all.contains(e) <==> (e matches Emission::Everywhere(l) && locators.contains(l)) by {
        if all.contains(e) {
            let k = choose|k: int| 0 <= k < all.len() && all[k] == e;
            assert(locators[k] == e->Everywhere_0);
        }
        if e is Everywhere && locators.contains(e->Everywhere_0) {
            let k = choose|k: int| 0 <= k < locators.len() && locators[k] == e->Everywhere_0;
            assert(all[k] == e);
        }
    }
}

proof fn lemma_emissions_are_meant(mode: DeliveryMode, rp: RtpsReaderProxy)
    ensures
        forall|e: Emission| #[trigger]
            emissions_for(mode, rp).contains(e) <==> is_meant_for(e, mode, rp),
        has_destination(rp) ==> emissions_for(mode, rp).len() > 0,
{
    let all = emissions_for(mode, rp);
    lemma_has_udp(rp.unicast_locator_list@);
    lemma_has_udp(rp.multicast_locator_list@);
    lemma_everywhere(rp.unicast_locator_list@);
    lemma_everywhere(rp.multicast_locator_list@);
    if !rp.send_route.fallback && all.len() > 0 {
        assert(all =~= seq![all[0]]);
        assert(forall|e: Emission| #[trigger] all.contains(e) <==> e == all[0]);
    }
}

proof fn lemma_emissions_of_some(mode: DeliveryMode, readers: Seq<RtpsReaderProxy>, e: Emission)
    requires
        emissions_for_all(mode, readers).contains(e),
    ensures
        exists|i: int|
            0 <= i < readers.len() && emissions_for(mode, #[trigger] readers[i]).contains(e),
    decreases readers.len(),
{
    let n = readers.len() - 1;
    if readers.len() > 0 {
        let rest = emissions_for_all(mode, readers.drop_last());
        let last = emissions_for(mode, readers.last());
        let k = choose|k: int| 0 <= k < (rest + last).len() && (rest + last)[k] == e;
        if k < rest.len() {
            assert(rest[k] == e);
            lemma_emissions_of_some(mode, readers.drop_last(), e);
            let i = choose|i: int|
                0 <= i < readers.drop_last().len() && emissions_for(
                    mode,
                    #[trigger] readers.drop_last()[i],
                ).contains(e);
            assert(readers[i] == readers.drop_last()[i]);
        } else {
            assert(last[k - rest.len()] == e);
            assert(readers[n] == readers.last());
        }
    }
}

/// Every reader is reached at a destination of its own, in the preferred kind where it has
/// one of that kind; nobody is sent to who is not to be reached, and nothing is sent twice.
pub proof fn law_plan_reaches_each_reader(
    mode: DeliveryMode,
    readers: Seq<RtpsReaderProxy>,
    extra: Seq<Locator>,
)
    ensures
        is_plan_for(send_plan(mode, readers, extra), mode, readers, extra),
{
    let plan = send_plan(mode, readers, extra);
    let wanted = emissions_for_all(mode, readers);
    law_plan_reaches_everyone_once(mode, readers, extra);
    assert forall|i: int| 0 <= i < readers.len() implies is_reached(
        plan,
        mode,
        #[trigger] readers[i],
    ) by {
        let mine = emissions_for(mode, readers[i]);
        lemma_emissions_are_meant(mode, readers[i]);
        assert forall|e: Emission| #[trigger]
            is_meant_for(e, mode, readers[i]) implies plan.contains(e) by {
            assert(mine.contains(e));
        }
        if has_destination(readers[i]) {
            assert(mine.contains(mine[0]));
            assert(plan.contains(mine[0]) && is_meant_for(mine[0], mode, readers[i]));
        }
    }
    assert forall|e: Emission| #[trigger] plan.contains(e) implies (exists|i: int|
        0 <= i < readers.len() && is_meant_for(e, mode, #[trigger] readers[i])) || (
    e matches Emission::Everywhere(l) && extra.contains(l)) by {
        if wanted.contains(e) {
            lemma_emissions_of_some(mode, readers, e);
            let i = choose|i: int|
                0 <= i < readers.len() && emissions_for(mode, #[trigger] readers[i]).contains(e);
            lemma_emissions_are_meant(mode, readers[i]);
            assert(is_meant_for(e, mode, readers[i]));
        }
    }
    assert forall|l: Locator| #[trigger] extra.contains(l) implies plan.contains(
        Emission::Unicast(l),
    ) || plan.contains(Emission::Everywhere(l)) by {
        assert(reaches(plan, l));
    }
}

/// The plan reaches every reader of a map.
pub open spec fn reaches_all(
    plan: Seq<Emission>,
    mode: DeliveryMode,
    readers: Map<int, RtpsReaderProxy>,
) -> bool {
    forall|k: int| #[trigger]
        readers.contains_key(k) ==> is_reached(plan, mode, readers[k])
}

/// Each reader of a map has its place in the order.
pub(crate) proof fn lemma_place(readers: SortedMap<GUID, RtpsReaderProxy>, k: int) -> (i: int)
    requires
        readers.listed(),
        readers@.contains_key(k),
    ensures
        0 <= i < in_order(readers).len(),
        in_order(readers)[i] == readers@[k],
{
    choose|i: int| 0 <= i < readers.keys().len() && (#[trigger] readers.keys()[i]).rank() == k
}

/// What goes out for all matched readers reaches each of them.
pub proof fn law_plan_reaches_all_matched(
    mode: DeliveryMode,
    readers: SortedMap<GUID, RtpsReaderProxy>,
    extra: Seq<Locator>,
)
    requires
        readers.listed(),
    ensures
        reaches_all(send_plan(mode, in_order(readers), extra), mode, readers@),
{
    let plan = send_plan(mode, in_order(readers), extra);
    law_plan_reaches_each_reader(mode, in_order(readers), extra);
    assert forall|k: int| #[trigger] readers@.contains_key(k) implies is_reached(
        plan,
        mode,
        readers@[k],
    ) by {
        let i = lemma_place(readers, k);
        assert(is_reached(plan, mode, in_order(readers)[i]));
    }
}

} // verus!
