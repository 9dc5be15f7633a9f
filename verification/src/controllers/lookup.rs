//! Resolving a query address to the most specific known network and the
//! location that belongs to it.
//!
//! The search goes through three tiers, from the most exact to the coarsest,
//! and stops at the first that is authoritative; among the candidates of
//! that tier the one with the largest specificity weight wins.

use vstd::prelude::*;

use crate::address::{address_key, parse_address, AddressKey};
use crate::controllers::query::{queried_address, query_address};
use crate::controllers::response::{reply_of, reply_to, respond, LookupResponse, Reply};
use crate::error::LookupError;
use crate::models::ip::{found, only_sub, only_sub2, push_selected, select, Ip};
use crate::models::location::{located, Location};
use crate::models::{
    Bound, Filter, FindOptions, RepositoryCollection, RepositoryError, SortOrder, Stores,
};
use crate::text::{chars_of, find_from, parse_signed, position_from, signed_decimal};

verus! {

/// The two fields of a specificity descriptor: what stands before its first
/// `/`, and what stands between that and the next `/` or the end. A text
/// without `/` has no fields.
pub open spec fn netmask_fields(netmask: Seq<char>) -> Option<(Seq<char>, Seq<char>)> {
    let slash = position_from(netmask, 0, '/');
    if slash >= netmask.len() {
        None
    } else {
        let stop = position_from(netmask, slash + 1, '/');
        Some((netmask.subrange(0, slash), netmask.subrange(slash + 1, stop)))
    }
}

/// The weight of the specificity descriptor `"<a>/<b>"`: `a * 8 + b * 256`,
/// where both fields are signed decimal integers. A descriptor that cannot
/// be read so has no weight.
pub open spec fn netmask_value(netmask: Seq<char>) -> Option<int> {
    match netmask_fields(netmask) {
        Some((a, b)) => match (signed_decimal(a), signed_decimal(b)) {
            (Some(x), Some(y)) => Some(x * 8 + y * 256),
            _ => None,
        },
        None => None,
    }
}

/// The candidates whose descriptor can be read, each with its weight, in the
/// order of `candidates`.
pub open spec fn netmask_array(candidates: Seq<Ip>) -> Seq<(int, Ip)>
    decreases candidates.len(),
{
    if candidates.len() == 0 {
        Seq::empty()
    } else {
        let rest = netmask_array(candidates.drop_last());
        match netmask_value(candidates.last().netmask@) {
            Some(weight) => rest.push((weight, candidates.last())),
            None => rest,
        }
    }
}

/// Whether entry `i` of `weighted` has the largest weight and is the first
/// that has it.
pub open spec fn is_best(weighted: Seq<(int, Ip)>, i: int) -> bool {
    &&& 0 <= i < weighted.len()
    &&& forall|j: int| 0 <= j < weighted.len() ==> (#[trigger] weighted[j]).0 <= weighted[i].0
    &&& forall|j: int| 0 <= j < i ==> (#[trigger] weighted[j]).0 < weighted[i].0
}

/// The winner among `candidates`: of those whose descriptor can be read, the
/// first with the largest weight. There is none where no descriptor can be
/// read.
pub open spec fn right_entry(candidates: Seq<Ip>) -> Option<Ip> {
    let weighted = netmask_array(candidates);
    if weighted.len() == 0 {
        None
    } else {
        Some(weighted[choose|i: int| is_best(weighted, i)].1)
    }
}

/// At most one entry is the best.
pub proof fn lemma_best_is_unique(weighted: Seq<(int, Ip)>, i: int, k: int)
    requires
        is_best(weighted, i),
        is_best(weighted, k),
    ensures
        i == k,
{
    if i < k {
        assert(weighted[i].0 < weighted[k].0);
        assert(weighted[k].0 <= weighted[i].0);
    }
    if k < i {
        assert(weighted[k].0 < weighted[i].0);
        assert(weighted[i].0 <= weighted[k].0);
    }
}

/// The weight of a specificity descriptor.
pub fn get_netmask_value(netmask: &str) -> (r: Result<i128, LookupError>)
    ensures
        match r {
            Ok(weight) => netmask_value(netmask@) == Some(weight as int),
            Err(e) => e == LookupError::MalformedSpecificity && netmask_value(netmask@) is None,
        },
{
    let chars = chars_of(netmask);
    let slash = find_from(&chars, 0, '/');
    if slash >= chars.len() {
        return Err(LookupError::MalformedSpecificity);
    }
    let stop = find_from(&chars, slash + 1, '/');
    match (parse_signed(&chars, 0, slash), parse_signed(&chars, slash + 1, stop)) {
        (Some(a), Some(b)) => Ok(a as i128 * 8 + b as i128 * 256),
        _ => Err(LookupError::MalformedSpecificity),
    }
}

/// Weighs every candidate whose descriptor can be read.
pub fn get_netmask_array(ips: &Vec<Ip>) -> (r: Vec<(i128, &Ip)>)
    ensures
        r@.len() == netmask_array(ips@).len(),
        forall|i: int|
            0 <= i < r@.len() ==> (#[trigger] r@[i]).0 == netmask_array(ips@)[i].0 && *r@[i].1
                == netmask_array(ips@)[i].1,
{
    let mut vec_ips: Vec<(i128, &Ip)> = Vec::new();
    let mut k: usize = 0;
    while k < ips.len()
        invariant
            k <= ips.len(),
            vec_ips@.len() == netmask_array(ips@.take(k as int)).len(),
            forall|i: int|
                0 <= i < vec_ips@.len() ==> (#[trigger] vec_ips@[i]).0 == netmask_array(
                    ips@.take(k as int),
                )[i].0 && *vec_ips@[i].1 == netmask_array(ips@.take(k as int))[i].1,
        decreases ips.len() - k,
    {
        let ip = &ips[k];
        proof {
            assert(ips@.take(k + 1).drop_last() =~= ips@.take(k as int));
            assert(ips@.take(k + 1).last() == *ip);
        }
        match get_netmask_value(ip.netmask.as_str()) {
            Ok(val) => {
                vec_ips.push((val, ip));
            },
            Err(_) => {},
        }
        k = k + 1;
    }
    proof {
        assert(ips@.take(ips.len() as int) =~= ips@);
    }
    vec_ips
}

/// Picks the winner among the candidates `ips`: of those whose descriptor
/// can be read, the first with the largest weight.
pub fn find_right_entry(ips: &Vec<Ip>) -> (r: Result<Ip, LookupError>)
    requires
        ips.len() > 0,
    ensures
        match r {
            Ok(ip) => right_entry(ips@) == Some(ip),
            Err(e) => e == LookupError::MalformedSpecificity && right_entry(ips@) is None,
        },
{
    let vec_value = get_netmask_array(ips);
    if vec_value.len() == 0 {
        return Err(LookupError::MalformedSpecificity);
    }
    let ghost weighted = netmask_array(ips@);
    let mut best: usize = 0;
    let mut k: usize = 1;
    while k < vec_value.len()
        invariant
            1 <= k <= vec_value.len(),
            best < k,
            vec_value@.len() == weighted.len(),
            forall|i: int|
                0 <= i < vec_value@.len() ==> (#[trigger] vec_value@[i]).0 == weighted[i].0,
            forall|j: int| 0 <= j < k ==> (#[trigger] weighted[j]).0 <= weighted[best as int].0,
            forall|j: int| 0 <= j < best ==> (#[trigger] weighted[j]).0 < weighted[best as int].0,
        decreases vec_value.len() - k,
    {
        if vec_value[k].0 > vec_value[best].0 {
            best = k;
        }
        k = k + 1;
    }
    proof {
        assert(is_best(weighted, best as int));
        let chosen = choose|i: int| is_best(weighted, i);
        lemma_best_is_unique(weighted, chosen, best as int);
    }
    Ok(vec_value[best].1.clone())
}

/// A question that a lookup puts to the store.
#[derive(Debug, PartialEq, Eq)]
pub enum StoreRequest {
    /// How many network records pass the filter?
    Count(Filter),
    /// Which network records pass the filter, in stored order?
    Find(Filter),
    /// Which network records pass the filter, ordered and cut off as the
    /// options say?
    FindWithOptions(Filter, FindOptions),
    /// Which location record has this identifier?
    Get(String),
}

/// What the store says to a question.
#[derive(Debug, PartialEq, Eq)]
pub enum StoreResponse {
    Count(u64),
    Records(Vec<Ip>),
    Location(Option<Location>),
    /// The store could not answer.
    Failed(RepositoryError),
}

/// What a [`StoreResponse`] holds, with its records as a sequence.
pub enum Answer {
    Count(nat),
    Records(Seq<Ip>),
    Location(Option<Location>),
    Failed(RepositoryError),
}

impl View for StoreResponse {
    type V = Answer;

    open spec fn view(&self) -> Answer {
        match *self {
            StoreResponse::Count(n) => Answer::Count(n as nat),
            StoreResponse::Records(rows) => Answer::Records(rows@),
            StoreResponse::Location(location) => Answer::Location(location),
            StoreResponse::Failed(e) => Answer::Failed(e),
        }
    }
}

/// How far a lookup has come: which question it has put to the store and
/// what it has found out before.
#[derive(Debug, PartialEq, Eq)]
pub enum LookupState {
    /// Asked how many records share `net` and `sub` with the address.
    CountingPair(AddressKey),
    /// Asked how many records share `net`, `sub` and `sub2` with it.
    CountingTriple(AddressKey),
    /// Asked for the records that share `net`, `sub` and `sub2` with it.
    FindingExact(AddressKey),
    /// Asked for the records that share `net` and `sub` with it and whose
    /// `sub2` is at most its last octet.
    FindingNearestSub2(AddressKey),
    /// Asked for the records that share `net` with it, whose `sub` is at
    /// most its `sub` and whose `sub2` is at most its last octet.
    FindingNearestSub(AddressKey),
    /// Asked for the location of the winning record.
    Locating(AddressKey, Ip),
}

/// How a lookup ends.
#[derive(Debug, PartialEq, Eq)]
pub enum LookupOutcome {
    /// The address lies in this network, which lies at this location.
    Found(AddressKey, Ip, Location),
    /// No tier gave a candidate, or the winner's location is not known.
    NotFound,
    Failed(LookupError),
}

/// What a lookup does next: put a question to the store, or end.
#[derive(Debug, PartialEq, Eq)]
pub enum Step {
    Ask(LookupState, StoreRequest),
    Done(LookupOutcome),
}

/// Passes the records that share `net` and `sub` with the address.
pub open spec fn pair_filter(key: AddressKey) -> Filter {
    Filter { net: Bound::Equal(key.net), sub: Bound::Equal(key.sub), sub2: Bound::Any }
}

/// Passes the records that share `net`, `sub` and `sub2` with the address.
pub open spec fn triple_filter(key: AddressKey) -> Filter {
    Filter { net: Bound::Equal(key.net), sub: Bound::Equal(key.sub), sub2: Bound::Equal(key.sub2) }
}

/// Passes the records that share `net` and `sub` with the address and whose
/// `sub2` is at most its last octet.
pub open spec fn nearest_sub2_filter(key: AddressKey) -> Filter {
    Filter { net: Bound::Equal(key.net), sub: Bound::Equal(key.sub), sub2: Bound::AtMost(key.mask) }
}

/// Passes the records that share `net` with the address, whose `sub` is at
/// most its `sub` and whose `sub2` is at most its last octet.
pub open spec fn nearest_sub_filter(key: AddressKey) -> Filter {
    Filter {
        net: Bound::Equal(key.net),
        sub: Bound::AtMost(key.sub),
        sub2: Bound::AtMost(key.mask),
    }
}

/// The order and the cut of a relaxed search: larger `sub` first, and as
/// many records as the last octet of the address says.
pub open spec fn relaxed_options(key: AddressKey) -> FindOptions {
    FindOptions { limit: Some(key.mask as u64), sort: SortOrder::SubDescending }
}

/// The records of `rows` that share `sub2` with the first of them.
pub open spec fn first_sub2_group(rows: Seq<Ip>) -> Seq<Ip> {
    if rows.len() == 0 {
        rows
    } else {
        select(rows, only_sub2(rows[0].sub2))
    }
}

/// The records of `rows` that share `sub` with the first of them.
pub open spec fn first_sub_group(rows: Seq<Ip>) -> Seq<Ip> {
    if rows.len() == 0 {
        rows
    } else {
        select(rows, only_sub(rows[0].sub))
    }
}

/// What follows once a tier has given its candidates: with none the lookup
/// ends without a finding; else the winner is picked and its location asked
/// for.
pub open spec fn after_candidates(key: AddressKey, candidates: Seq<Ip>) -> Step {
    if candidates.len() == 0 {
        Step::Done(LookupOutcome::NotFound)
    } else {
        match right_entry(candidates) {
            Some(ip) => Step::Ask(LookupState::Locating(key, ip), StoreRequest::Get(ip.geoname_id)),
            None => Step::Done(LookupOutcome::Failed(LookupError::MalformedSpecificity)),
        }
    }
}

/// The step with which the lookup of `address` begins. A text that is no
/// address ends the lookup before any question is put to the store.
pub open spec fn first_step(address: Seq<char>) -> Step {
    match address_key(address) {
        Some(key) => Step::Ask(
            LookupState::CountingPair(key),
            StoreRequest::Count(pair_filter(key)),
        ),
        None => Step::Done(LookupOutcome::Failed(LookupError::InvalidAddress)),
    }
}

/// The step that follows when the store says `answer` to the question that
/// was put in `state`.
///
/// A failure of the store ends the lookup with that failure. An answer of
/// another kind than the question asks for ends it as a failure of the
/// store too.
pub open spec fn next_step(state: LookupState, answer: Answer) -> Step {
    let unexpected = Step::Done(
        LookupOutcome::Failed(LookupError::Store(RepositoryError::UnexpectedResponse)),
    );
    match answer {
        Answer::Failed(e) => Step::Done(LookupOutcome::Failed(LookupError::Store(e))),
        Answer::Count(n) => match state {
            LookupState::CountingPair(key) => if n > 0 {
                Step::Ask(LookupState::CountingTriple(key), StoreRequest::Count(triple_filter(key)))
            } else {
                Step::Ask(
                    LookupState::FindingNearestSub(key),
                    StoreRequest::FindWithOptions(nearest_sub_filter(key), relaxed_options(key)),
                )
            },
            LookupState::CountingTriple(key) => if n > 0 {
                Step::Ask(LookupState::FindingExact(key), StoreRequest::Find(triple_filter(key)))
            } else {
                Step::Ask(
                    LookupState::FindingNearestSub2(key),
                    StoreRequest::FindWithOptions(nearest_sub2_filter(key), relaxed_options(key)),
                )
            },
            _ => unexpected,
        },
        Answer::Records(rows) => match state {
            LookupState::FindingExact(key) => after_candidates(key, rows),
            LookupState::FindingNearestSub2(key) => after_candidates(key, first_sub2_group(rows)),
            LookupState::FindingNearestSub(key) => after_candidates(key, first_sub_group(rows)),
            _ => unexpected,
        },
        Answer::Location(location) => match state {
            LookupState::Locating(key, ip) => match location {
                Some(l) => Step::Done(LookupOutcome::Found(key, ip, l)),
                None => Step::Done(LookupOutcome::NotFound),
            },
            _ => unexpected,
        },
    }
}

/// Keeps of `rows` the records that share `sub2` with the first of them.
pub fn keep_first_sub2_group(rows: &Vec<Ip>) -> (r: Vec<Ip>)
    ensures
        r@ == first_sub2_group(rows@),
{
    let mut kept: Vec<Ip> = Vec::new();
    if rows.len() > 0 {
        let filter = Filter { net: Bound::Any, sub: Bound::Any, sub2: Bound::Equal(rows[0].sub2) };
        push_selected(&mut kept, rows, &filter);
        assert(kept@ =~= select(rows@, filter));
    } else {
        assert(kept@ =~= rows@);
    }
    kept
}

/// Keeps of `rows` the records that share `sub` with the first of them.
pub fn keep_first_sub_group(rows: &Vec<Ip>) -> (r: Vec<Ip>)
    ensures
        r@ == first_sub_group(rows@),
{
    let mut kept: Vec<Ip> = Vec::new();
    if rows.len() > 0 {
        let filter = Filter { net: Bound::Any, sub: Bound::Equal(rows[0].sub), sub2: Bound::Any };
        push_selected(&mut kept, rows, &filter);
        assert(kept@ =~= select(rows@, filter));
    } else {
        assert(kept@ =~= rows@);
    }
    kept
}

/// Goes on once a tier has given its candidates.
fn choose_among(key: AddressKey, candidates: &Vec<Ip>) -> (r: Step)
    ensures
        r == after_candidates(key, candidates@),
{
    if candidates.len() == 0 {
        return Step::Done(LookupOutcome::NotFound);
    }
    match find_right_entry(candidates) {
        Ok(the_right_one) => {
            let geoname_id = the_right_one.geoname_id.clone();
            Step::Ask(LookupState::Locating(key, the_right_one), StoreRequest::Get(geoname_id))
        },
        Err(e) => Step::Done(LookupOutcome::Failed(e)),
    }
}

/// Begins the lookup of `address`.
pub fn start(address: &str) -> (r: Step)
    ensures
        r == first_step(address@),
{
    match parse_address(address) {
        Ok(key) => {
            let filter = Filter {
                net: Bound::Equal(key.net),
                sub: Bound::Equal(key.sub),
                sub2: Bound::Any,
            };
            Step::Ask(LookupState::CountingPair(key), StoreRequest::Count(filter))
        },
        Err(e) => Step::Done(LookupOutcome::Failed(e)),
    }
}

/// Takes the store's `response` to the question that was put in `state`, and
/// says what the lookup does next.
pub fn advance(state: LookupState, response: StoreResponse) -> (r: Step)
    ensures
        r == next_step(state, response@),
{
    match response {
        StoreResponse::Failed(e) => Step::Done(LookupOutcome::Failed(LookupError::Store(e))),
        StoreResponse::Count(n) => match state {
            LookupState::CountingPair(key) => {
                if n > 0 {
                    let filter = Filter {
                        net: Bound::Equal(key.net),
                        sub: Bound::Equal(key.sub),
                        sub2: Bound::Equal(key.sub2),
                    };
                    Step::Ask(LookupState::CountingTriple(key), StoreRequest::Count(filter))
                } else {
                    let filter = Filter {
                        net: Bound::Equal(key.net),
                        sub: Bound::AtMost(key.sub),
                        sub2: Bound::AtMost(key.mask),
                    };
                    let options = FindOptions {
                        limit: Some(key.mask as u64),
                        sort: SortOrder::SubDescending,
                    };
                    Step::Ask(
                        LookupState::FindingNearestSub(key),
                        StoreRequest::FindWithOptions(filter, options),
                    )
                }
            },
            LookupState::CountingTriple(key) => {
                if n > 0 {
                    let filter = Filter {
                        net: Bound::Equal(key.net),
                        sub: Bound::Equal(key.sub),
                        sub2: Bound::Equal(key.sub2),
                    };
                    Step::Ask(LookupState::FindingExact(key), StoreRequest::Find(filter))
                } else {
                    let filter = Filter {
                        net: Bound::Equal(key.net),
                        sub: Bound::Equal(key.sub),
                        sub2: Bound::AtMost(key.mask),
                    };
                    let options = FindOptions {
                        limit: Some(key.mask as u64),
                        sort: SortOrder::SubDescending,
                    };
                    Step::Ask(
                        LookupState::FindingNearestSub2(key),
                        StoreRequest::FindWithOptions(filter, options),
                    )
                }
            },
            _ => Step::Done(
                LookupOutcome::Failed(LookupError::Store(RepositoryError::UnexpectedResponse)),
            ),
        },
        StoreResponse::Records(rows) => match state {
            LookupState::FindingExact(key) => choose_among(key, &rows),
            LookupState::FindingNearestSub2(key) => {
                let group = keep_first_sub2_group(&rows);
                choose_among(key, &group)
            },
            LookupState::FindingNearestSub(key) => {
                let group = keep_first_sub_group(&rows);
                choose_among(key, &group)
            },
            _ => Step::Done(
                LookupOutcome::Failed(LookupError::Store(RepositoryError::UnexpectedResponse)),
            ),
        },
        StoreResponse::Location(location) => match state {
            LookupState::Locating(key, ip) => match location {
                Some(l) => Step::Done(LookupOutcome::Found(key, ip, l)),
                None => Step::Done(LookupOutcome::NotFound),
            },
            _ => Step::Done(
                LookupOutcome::Failed(LookupError::Store(RepositoryError::UnexpectedResponse)),
            ),
        },
    }
}

/// What a store that holds `stores` says to `request`.
pub open spec fn store_answer(stores: Stores, request: StoreRequest) -> Answer {
    match request {
        StoreRequest::Count(filter) => match stores.ip {
            Some(ips) => Answer::Count(select(ips, filter).len()),
            None => Answer::Failed(RepositoryError::UninitializedRepoError),
        },
        StoreRequest::Find(filter) => match stores.ip {
            Some(ips) => Answer::Records(select(ips, filter)),
            None => Answer::Failed(RepositoryError::UninitializedRepoError),
        },
        StoreRequest::FindWithOptions(filter, options) => match stores.ip {
            Some(ips) => Answer::Records(found(ips, filter, options)),
            None => Answer::Failed(RepositoryError::UninitializedRepoError),
        },
        StoreRequest::Get(geoname_id) => match stores.location {
            Some(locations) => Answer::Location(located(locations, geoname_id@)),
            None => Answer::Failed(RepositoryError::UninitializedRepoError),
        },
    }
}

/// The number of questions that a lookup at `step` may still put.
pub open spec fn questions_left(step: Step) -> nat {
    match step {
        Step::Done(_) => 0,
        Step::Ask(state, _) => match state {
            LookupState::CountingPair(_) => 4,
            LookupState::CountingTriple(_) => 3,
            LookupState::FindingExact(_) => 2,
            LookupState::FindingNearestSub2(_) => 2,
            LookupState::FindingNearestSub(_) => 2,
            LookupState::Locating(_, _) => 1,
        },
    }
}

/// Every answer brings a lookup nearer to its end.
pub proof fn lemma_next_step_is_nearer(state: LookupState, request: StoreRequest, answer: Answer)
    ensures
        questions_left(next_step(state, answer)) < questions_left(Step::Ask(state, request)),
{
}

/// The outcome of the lookup that stands at `step`, when a store that holds
/// `stores` answers each of its questions.
pub open spec fn run(stores: Stores, step: Step) -> LookupOutcome
    decreases questions_left(step),
{
    match step {
        Step::Done(outcome) => outcome,
        Step::Ask(state, request) => run(stores, next_step(state, store_answer(stores, request))),
    }
}

/// The candidates for an address among the network records `ips`.
///
/// Where records share `net` and `sub` with the address: those that share
/// `sub2` too, if there are any; else, of the records that share `net` and
/// `sub` and whose `sub2` is at most the last octet of the address, as many
/// as that octet says, and of these the ones that share `sub2` with the
/// first. Where no record shares `net` and `sub`: of the records that share
/// `net`, whose `sub` is at most that of the address and whose `sub2` is at
/// most its last octet, ordered by `sub` with the largest first, as many as
/// that octet says, and of these the ones that share `sub` with the first.
pub open spec fn candidates(ips: Seq<Ip>, key: AddressKey) -> Seq<Ip> {
    if select(ips, pair_filter(key)).len() > 0 {
        if select(ips, triple_filter(key)).len() > 0 {
            select(ips, triple_filter(key))
        } else {
            first_sub2_group(found(ips, nearest_sub2_filter(key), relaxed_options(key)))
        }
    } else {
        first_sub_group(found(ips, nearest_sub_filter(key), relaxed_options(key)))
    }
}

/// The outcome of looking `address` up in a store that holds `stores`.
pub open spec fn resolution(stores: Stores, address: Seq<char>) -> LookupOutcome {
    let uninitialised = LookupOutcome::Failed(
        LookupError::Store(RepositoryError::UninitializedRepoError),
    );
    match (address_key(address), stores.ip) {
        (None, _) => LookupOutcome::Failed(LookupError::InvalidAddress),
        (Some(_), None) => uninitialised,
        (Some(key), Some(ips)) => {
            if candidates(ips, key).len() == 0 {
                LookupOutcome::NotFound
            } else {
                match (right_entry(candidates(ips, key)), stores.location) {
                    (None, _) => LookupOutcome::Failed(LookupError::MalformedSpecificity),
                    (Some(_), None) => uninitialised,
                    (Some(ip), Some(locations)) => match located(locations, ip.geoname_id@) {
                        Some(location) => LookupOutcome::Found(key, ip, location),
                        None => LookupOutcome::NotFound,
                    },
                }
            }
        },
    }
}

/// A lookup that is run against a store gives the resolution of its address
/// in that store.
pub proof fn lemma_run_gives_resolution(stores: Stores, address: Seq<char>)
    ensures
        run(stores, first_step(address)) == resolution(stores, address),
{
    reveal_with_fuel(run, 5);
}

/// Puts `request` to the repositories of `repos`.
pub fn ask(repos: &RepositoryCollection, request: &StoreRequest) -> (r: StoreResponse)
    ensures
        r@ == store_answer(repos@, *request),
{
    match request {
        StoreRequest::Count(filter) => match repos.ip.count(*filter) {
            Ok(n) => StoreResponse::Count(n),
            Err(e) => StoreResponse::Failed(e),
        },
        StoreRequest::Find(filter) => match repos.ip.find(*filter) {
            Ok(rows) => StoreResponse::Records(rows),
            Err(e) => StoreResponse::Failed(e),
        },
        StoreRequest::FindWithOptions(filter, options) => match repos.ip.find_with_options(
            *filter,
            *options,
        ) {
            Ok(rows) => StoreResponse::Records(rows),
            Err(e) => StoreResponse::Failed(e),
        },
        StoreRequest::Get(geoname_id) => match repos.location.get(geoname_id.as_str()) {
            Ok(location) => StoreResponse::Location(location),
            Err(e) => StoreResponse::Failed(e),
        },
    }
}

/// Looks `address` up in the repositories of `repos`.
pub fn resolve(repos: &RepositoryCollection, address: &str) -> (r: LookupOutcome)
    ensures
        r == resolution(repos@, address@),
{
    let mut step = start(address);
    proof {
        lemma_run_gives_resolution(repos@, address@);
    }
    loop
        invariant
            run(repos@, step) == resolution(repos@, address@),
        decreases questions_left(step),
    {
        match step {
            Step::Done(outcome) => {
                return outcome;
            },
            Step::Ask(state, request) => {
                let response = ask(repos, &request);
                proof {
                    lemma_next_step_is_nearer(state, request, response@);
                }
                step = advance(state, response);
            },
        }
    }
}

/// The query string `query`, if there is one, as a sequence of characters.
pub open spec fn query_text(query: Option<&str>) -> Option<Seq<char>> {
    match query {
        Some(q) => Some(q@),
        None => None,
    }
}

/// What a request with the query string `query` is answered with by a store
/// that holds `stores`: a request without a query string, or whose query
/// asks for no address, fails as one for an invalid address; any other is
/// answered with the resolution of the address it asks for.
pub open spec fn lookup_reply(stores: Stores, query: Option<Seq<char>>) -> Result<
    Reply,
    LookupError,
> {
    match query {
        Some(q) => match queried_address(q) {
            Some(address) => reply_to(resolution(stores, address)),
            None => Err(LookupError::InvalidAddress),
        },
        None => Err(LookupError::InvalidAddress),
    }
}

/// Answers a request with the query string `query` from the repositories of
/// `repos`.
pub fn ip_lookup(repos: &RepositoryCollection, query: Option<&str>) -> (r: Result<
    LookupResponse,
    LookupError,
>)
    ensures
        reply_of(r) == lookup_reply(repos@, query_text(query)),
{
    match query {
        Some(q) => match query_address(q) {
            Some(address) => respond(resolve(repos, address.as_str())),
            None => Err(LookupError::InvalidAddress),
        },
        None => Err(LookupError::InvalidAddress),
    }
}

} // verus!
