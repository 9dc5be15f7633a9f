//! What holds of every lookup.

use vstd::prelude::*;

use crate::address::{address_key, AddressKey};
use crate::controllers::lookup::{
    candidates, first_step, first_sub_group, is_best, lemma_best_is_unique,
    nearest_sub2_filter, nearest_sub_filter, netmask_array, netmask_value, next_step, pair_filter,
    relaxed_options, resolution, right_entry, triple_filter, Answer, LookupOutcome, LookupState,
    Step,
};
use crate::controllers::response::{composed, reply_to, Reply};
use crate::error::LookupError;
use crate::models::ip::{
    by_sub_descending, lemma_by_sub_descending_members, lemma_from_sub_down_first,
    lemma_limited_members, lemma_select_empty, lemma_select_members, lemma_select_single, limited,
    only_sub, only_sub2, passes, select, Ip,
};
use crate::models::location::{lemma_located_from, located, Location};
use crate::models::Stores;

verus! {

/// Every weighted entry is a candidate with its weight, and every candidate
/// whose descriptor can be read is weighted.
pub proof fn lemma_netmask_array_members(candidates: Seq<Ip>)
    ensures
        forall|i: int|
            0 <= i < netmask_array(candidates).len() ==> candidates.contains(
                (#[trigger] netmask_array(candidates)[i]).1,
            ) && netmask_value(netmask_array(candidates)[i].1.netmask@) == Some(
                netmask_array(candidates)[i].0,
            ),
        forall|j: int|
            0 <= j < candidates.len() && netmask_value((#[trigger] candidates[j]).netmask@)
                is Some ==> exists|i: int|
                0 <= i < netmask_array(candidates).len() && (#[trigger] netmask_array(
                    candidates,
                )[i]).1 == candidates[j],
    decreases candidates.len(),
{
    let weighted = netmask_array(candidates);
    if candidates.len() > 0 {
        let front = candidates.drop_last();
        let rest = netmask_array(front);
        lemma_netmask_array_members(front);
        assert forall|i: int| 0 <= i < weighted.len() implies candidates.contains(
            (#[trigger] weighted[i]).1,
        ) && netmask_value(weighted[i].1.netmask@) == Some(weighted[i].0) by {
            if i < rest.len() {
                assert(weighted[i] == rest[i]);
                assert(front.contains(rest[i].1));
                let j = choose|j: int| 0 <= j < front.len() && front[j] == rest[i].1;
                assert(candidates[j] == rest[i].1);
            } else {
                assert(candidates[candidates.len() - 1] == weighted[i].1);
            }
        }
        assert forall|j: int|
            0 <= j < candidates.len() && netmask_value(
                (#[trigger] candidates[j]).netmask@,
            ) is Some implies exists|i: int|
            0 <= i < weighted.len() && (#[trigger] weighted[i]).1 == candidates[j] by {
            if j < front.len() {
                assert(front[j] == candidates[j]);
                let i = choose|i: int| 0 <= i < rest.len() && (#[trigger] rest[i]).1 == front[j];
                assert(weighted[i].1 == candidates[j]);
            } else {
                assert(weighted[weighted.len() - 1].1 == candidates[j]);
            }
        }
    }
}

/// Among weighted entries, if there are any, one is the best.
pub proof fn lemma_best_exists(weighted: Seq<(int, Ip)>)
    requires
        weighted.len() > 0,
    ensures
        exists|i: int| is_best(weighted, i),
    decreases weighted.len(),
{
    if weighted.len() == 1 {
        assert(is_best(weighted, 0));
    } else {
        let front = weighted.drop_last();
        lemma_best_exists(front);
        let b = choose|i: int| is_best(front, i);
        let last = weighted.len() - 1;
        assert(forall|j: int| 0 <= j < front.len() ==> front[j] == weighted[j]);
        if weighted[last].0 > weighted[b].0 {
            assert forall|j: int| 0 <= j < last implies (#[trigger] weighted[j]).0
                < weighted[last].0 by {
                assert(front[j].0 <= front[b].0);
            }
            assert(is_best(weighted, last));
        } else {
            assert forall|j: int| 0 <= j < weighted.len() implies (#[trigger] weighted[j]).0
                <= weighted[b].0 by {
                if j < last {
                    assert(front[j].0 <= front[b].0);
                }
            }
            assert forall|j: int| 0 <= j < b implies (#[trigger] weighted[j]).0
                < weighted[b].0 by {
                assert(front[j].0 < front[b].0);
            }
            assert(is_best(weighted, b));
        }
    }
}

/// There is a winner exactly where the descriptor of some candidate can be
/// read. The winner is one of the candidates, its descriptor can be read,
/// and no candidate weighs more.
pub proof fn lemma_right_entry(candidates: Seq<Ip>)
    ensures
        right_entry(candidates) is Some <==> exists|j: int|
            0 <= j < candidates.len() && netmask_value((#[trigger] candidates[j]).netmask@)
                is Some,
        right_entry(candidates) matches Some(winner) ==> {
            &&& candidates.contains(winner)
            &&& netmask_value(winner.netmask@) is Some
            &&& forall|j: int|
                0 <= j < candidates.len() && netmask_value((#[trigger] candidates[j]).netmask@)
                    is Some ==> netmask_value(candidates[j].netmask@)->0 <= netmask_value(
                    winner.netmask@,
                )->0
        },
{
    let weighted = netmask_array(candidates);
    lemma_netmask_array_members(candidates);
    if weighted.len() > 0 {
        lemma_best_exists(weighted);
        let b = choose|i: int| is_best(weighted, i);
        let winner = weighted[b].1;
        assert(candidates.contains(winner));
        let j = choose|j: int| 0 <= j < candidates.len() && candidates[j] == winner;
        assert(netmask_value(candidates[j].netmask@) is Some);
        assert forall|j: int|
            0 <= j < candidates.len() && netmask_value(
                (#[trigger] candidates[j]).netmask@,
            ) is Some implies netmask_value(candidates[j].netmask@)->0 <= netmask_value(
            winner.netmask@,
        )->0 by {
            let i = choose|i: int|
                0 <= i < weighted.len() && (#[trigger] weighted[i]).1 == candidates[j];
            assert(weighted[i].0 <= weighted[b].0);
        }
    } else {
        assert forall|j: int| 0 <= j < candidates.len() implies !(netmask_value(
            (#[trigger] candidates[j]).netmask@,
        ) is Some) by {
            if netmask_value(candidates[j].netmask@) is Some {
                let i = choose|i: int|
                    0 <= i < weighted.len() && (#[trigger] weighted[i]).1 == candidates[j];
            }
        }
    }
}

/// A single candidate whose descriptor can be read is the winner.
pub proof fn lemma_right_entry_single(candidate: Ip)
    requires
        netmask_value(candidate.netmask@) is Some,
    ensures
        right_entry(seq![candidate]) == Some(candidate),
{
    let c = seq![candidate];
    assert(c.drop_last() =~= Seq::<Ip>::empty());
    assert(netmask_array(c.drop_last()) =~= Seq::<(int, Ip)>::empty());
    let weighted = netmask_array(c);
    assert(weighted =~= seq![(netmask_value(candidate.netmask@)->0, candidate)]);
    assert(is_best(weighted, 0));
    let chosen = choose|i: int| is_best(weighted, i);
    lemma_best_is_unique(weighted, chosen, 0);
}

/// A text that is no IPv4 address is rejected as an invalid address,
/// whatever the store holds, and before any question is put to the store.
pub proof fn invalid_address_is_rejected_before_the_store(stores: Stores, address: Seq<char>)
    requires
        address_key(address) is None,
    ensures
        first_step(address) == Step::Done(LookupOutcome::Failed(LookupError::InvalidAddress)),
        resolution(stores, address) == LookupOutcome::Failed(LookupError::InvalidAddress),
{
}

/// Where exactly one network record has the first three octets of the
/// address, its descriptor can be read and its location is known, the
/// lookup finds that record with that location, and hands its fields on
/// unchanged.
pub proof fn single_exact_match_is_found(
    stores: Stores,
    address: Seq<char>,
    key: AddressKey,
    i: int,
    location: Location,
)
    requires
        address_key(address) == Some(key),
        stores.ip is Some,
        stores.location is Some,
        0 <= i < stores.ip->0.len(),
        passes(triple_filter(key), stores.ip->0[i]),
        forall|j: int|
            0 <= j < stores.ip->0.len() && j != i ==> !passes(
                triple_filter(key),
                #[trigger] stores.ip->0[j],
            ),
        netmask_value(stores.ip->0[i].netmask@) is Some,
        located(stores.location->0, stores.ip->0[i].geoname_id@) == Some(location),
    ensures
        resolution(stores, address) == LookupOutcome::Found(key, stores.ip->0[i], location),
        reply_to(resolution(stores, address)) == Ok::<Reply, LookupError>(
            Reply::Found(composed(key, stores.ip->0[i]@, location@)),
        ),
{
    let ips = stores.ip->0;
    lemma_select_single(ips, triple_filter(key), i);
    assert(passes(pair_filter(key), ips[i]));
    lemma_select_empty(ips, pair_filter(key));
    assert(candidates(ips, key) == seq![ips[i]]);
    lemma_right_entry_single(ips[i]);
}

/// Where no network record has the first octet of the address, the lookup
/// finds nothing.
pub proof fn unknown_net_is_not_found(stores: Stores, address: Seq<char>, key: AddressKey)
    requires
        address_key(address) == Some(key),
        stores.ip is Some,
        forall|j: int| 0 <= j < stores.ip->0.len() ==> (#[trigger] stores.ip->0[j]).net != key.net,
    ensures
        resolution(stores, address) == LookupOutcome::NotFound,
{
    let ips = stores.ip->0;
    lemma_select_empty(ips, pair_filter(key));
    lemma_select_empty(ips, nearest_sub_filter(key));
    let hits = select(ips, nearest_sub_filter(key));
    lemma_by_sub_descending_members(hits);
    let ordered = by_sub_descending(hits);
    if ordered.len() > 0 {
        assert(ordered.contains(ordered[0]));
        assert(hits.contains(ordered[0]));
    }
    lemma_limited_members(ordered, relaxed_options(key).limit);
}

/// Where no network record has the first two octets of the address, every
/// candidate has its first octet, a `sub` and a `sub2` within the bounds of
/// the coarsest search, and the same `sub` as the other candidates: the
/// largest that any record within those bounds has.
pub proof fn coarsest_candidates_are_the_closest_group(ips: Seq<Ip>, key: AddressKey, i: int)
    requires
        select(ips, pair_filter(key)).len() == 0,
        0 <= i < candidates(ips, key).len(),
    ensures
        ips.contains(candidates(ips, key)[i]),
        passes(nearest_sub_filter(key), candidates(ips, key)[i]),
        candidates(ips, key)[i].sub == candidates(ips, key)[0].sub,
        forall|j: int|
            0 <= j < ips.len() && passes(nearest_sub_filter(key), #[trigger] ips[j])
                ==> ips[j].sub <= candidates(ips, key)[i].sub,
{
    let hits = select(ips, nearest_sub_filter(key));
    let ordered = by_sub_descending(hits);
    let rows = limited(ordered, relaxed_options(key).limit);
    let group = first_sub_group(rows);
    let c = group[i];
    assert(group == candidates(ips, key));
    assert(rows.len() > 0);
    lemma_select_members(rows, only_sub(rows[0].sub));
    lemma_limited_members(ordered, relaxed_options(key).limit);
    lemma_by_sub_descending_members(hits);
    lemma_select_members(ips, nearest_sub_filter(key));
    lemma_from_sub_down_first(hits, 255);
    assert(group.contains(c));
    assert(group.contains(group[0]));
    assert(rows.contains(c));
    assert(ordered.contains(c));
    assert(hits.contains(c));
    assert forall|j: int|
        0 <= j < ips.len() && passes(nearest_sub_filter(key), #[trigger] ips[j]) implies ips[j].sub
        <= c.sub by {
        assert(ips.contains(ips[j]));
        assert(hits.contains(ips[j]));
    }
}

/// Every candidate is a stored record that has the first octet of the
/// address and a `sub` no larger than that of the address.
pub proof fn candidates_are_stored_records(ips: Seq<Ip>, key: AddressKey)
    ensures
        forall|x: Ip| #[trigger]
            candidates(ips, key).contains(x) ==> ips.contains(x) && x.net == key.net && x.sub
                <= key.sub,
{
    let options = relaxed_options(key);
    assert forall|x: Ip| #[trigger] candidates(ips, key).contains(x) implies ips.contains(x)
        && x.net == key.net && x.sub <= key.sub by {
        if select(ips, pair_filter(key)).len() > 0 {
            if select(ips, triple_filter(key)).len() > 0 {
                lemma_select_members(ips, triple_filter(key));
            } else {
                let hits = select(ips, nearest_sub2_filter(key));
                let rows = limited(by_sub_descending(hits), options.limit);
                assert(rows.len() > 0);
                lemma_select_members(rows, only_sub2(rows[0].sub2));
                lemma_limited_members(by_sub_descending(hits), options.limit);
                lemma_by_sub_descending_members(hits);
                lemma_select_members(ips, nearest_sub2_filter(key));
                assert(rows.contains(x));
                assert(by_sub_descending(hits).contains(x));
                assert(hits.contains(x));
            }
        } else {
            let hits = select(ips, nearest_sub_filter(key));
            let rows = limited(by_sub_descending(hits), options.limit);
            assert(rows.len() > 0);
            lemma_select_members(rows, only_sub(rows[0].sub));
            lemma_limited_members(by_sub_descending(hits), options.limit);
            lemma_by_sub_descending_members(hits);
            lemma_select_members(ips, nearest_sub_filter(key));
            assert(rows.contains(x));
            assert(by_sub_descending(hits).contains(x));
            assert(hits.contains(x));
        }
    }
}

/// What a lookup finds is in the store: the network is a stored record
/// with the first octet of the address, and the location is the stored
/// record that the network refers to.
pub proof fn findings_are_stored_records(stores: Stores, address: Seq<char>)
    requires
        resolution(stores, address) is Found,
    ensures
        resolution(stores, address) matches LookupOutcome::Found(key, ip, location) && {
            &&& address_key(address) == Some(key)
            &&& stores.ip is Some && stores.ip->0.contains(ip)
            &&& stores.location is Some && stores.location->0.contains(location)
            &&& ip.net == key.net
            &&& location.geoname_id@ == ip.geoname_id@
        },
{
    let key = address_key(address)->0;
    let ips = stores.ip->0;
    let winner = right_entry(candidates(ips, key))->0;
    candidates_are_stored_records(ips, key);
    lemma_right_entry(candidates(ips, key));
    lemma_located_from(stores.location->0, winner.geoname_id@, 0);
}

/// Looking the same address up twice in a store that has not changed gives
/// the same outcome both times.
pub proof fn same_lookup_gives_same_outcome(
    stores: Stores,
    address: Seq<char>,
    first: LookupOutcome,
    second: LookupOutcome,
)
    requires
        first == resolution(stores, address),
        second == resolution(stores, address),
    ensures
        first == second,
{
}

/// Where the location that the winning record refers to is not known, the
/// lookup finds nothing; it does not fail.
pub proof fn unknown_location_is_not_found(
    stores: Stores,
    address: Seq<char>,
    key: AddressKey,
    winner: Ip,
)
    requires
        address_key(address) == Some(key),
        stores.ip is Some,
        stores.location is Some,
        candidates(stores.ip->0, key).len() > 0,
        right_entry(candidates(stores.ip->0, key)) == Some(winner),
        located(stores.location->0, winner.geoname_id@) is None,
    ensures
        resolution(stores, address) == LookupOutcome::NotFound,
        next_step(LookupState::Locating(key, winner), Answer::Location(None)) == Step::Done(
            LookupOutcome::NotFound,
        ),
{
}

} // verus!
