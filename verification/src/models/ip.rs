//! Network records and the repository that holds them.

use vstd::prelude::*;

use crate::address::{address_key, parse_address_chars};
use crate::controllers::lookup::{get_netmask_value, netmask_value};
use crate::models::{Bound, Filter, FindOptions, RepositoryError, SortOrder};
use crate::text::{chars_of, find_from, position_from};

verus! {

/// One known network: where it is, and the key it is found by.
///
/// `net`, `sub` and `sub2` are the first three octets of the network's base
/// address. `netmask` is the specificity descriptor, a text of the form
/// `"<a>/<b>"`, by which candidates for one address are ranked.
#[derive(Debug, PartialEq, Eq)]
pub struct Ip {
    pub network: String,
    pub geoname_id: String,
    pub latitude: String,
    pub longitude: String,
    pub accuracy_radius: String,
    pub net: u8,
    pub sub: u8,
    pub sub2: u8,
    pub netmask: String,
}

/// What an [`Ip`] holds, with each text as a sequence of characters.
pub struct IpView {
    pub network: Seq<char>,
    pub geoname_id: Seq<char>,
    pub latitude: Seq<char>,
    pub longitude: Seq<char>,
    pub accuracy_radius: Seq<char>,
    pub net: u8,
    pub sub: u8,
    pub sub2: u8,
    pub netmask: Seq<char>,
}

impl View for Ip {
    type V = IpView;

    open spec fn view(&self) -> IpView {
        IpView {
            network: self.network@,
            geoname_id: self.geoname_id@,
            latitude: self.latitude@,
            longitude: self.longitude@,
            accuracy_radius: self.accuracy_radius@,
            net: self.net,
            sub: self.sub,
            sub2: self.sub2,
            netmask: self.netmask@,
        }
    }
}

impl Clone for Ip {
    fn clone(&self) -> (r: Self)
        ensures
            r == *self,
    {
        Ip {
            network: self.network.clone(),
            geoname_id: self.geoname_id.clone(),
            latitude: self.latitude.clone(),
            longitude: self.longitude.clone(),
            accuracy_radius: self.accuracy_radius.clone(),
            net: self.net,
            sub: self.sub,
            sub2: self.sub2,
            netmask: self.netmask.clone(),
        }
    }
}

/// The base address of a network: what its text holds before the first
/// `/`, or all of it where it holds none.
pub open spec fn base_address(network: Seq<char>) -> Seq<char> {
    network.subrange(0, position_from(network, 0, '/'))
}

impl IpView {
    /// Whether the record is one that a store may hold: its key is the
    /// first three octets of the base address of its network, and its
    /// specificity descriptor can be read.
    pub open spec fn well_formed(self) -> bool {
        &&& address_key(base_address(self.network)) matches Some(key) && key.net == self.net
            && key.sub == self.sub && key.sub2 == self.sub2
        &&& netmask_value(self.netmask) is Some
    }
}

impl Ip {
    /// Tells whether the record is one that a store may hold.
    pub fn is_well_formed(&self) -> (r: bool)
        ensures
            r == self@.well_formed(),
    {
        let chars = chars_of(self.network.as_str());
        let slash = find_from(&chars, 0, '/');
        let mut base: Vec<char> = Vec::new();
        let mut i: usize = 0;
        while i < slash
            invariant
                i <= slash <= chars.len(),
                base@ == chars@.subrange(0, i as int),
            decreases slash - i,
        {
            base.push(chars[i]);
            assert(chars@.subrange(0, i + 1) =~= chars@.subrange(0, i as int).push(chars@[i as int]));
            i = i + 1;
        }
        match parse_address_chars(&base) {
            Ok(key) => key.net == self.net && key.sub == self.sub && key.sub2 == self.sub2
                && get_netmask_value(self.netmask.as_str()).is_ok(),
            Err(_) => false,
        }
    }

    /// A record with every text empty and the key `0.0.0`.
    pub fn new() -> (r: Self)
        ensures
            r@ == (IpView {
                network: Seq::empty(),
                geoname_id: Seq::empty(),
                latitude: Seq::empty(),
                longitude: Seq::empty(),
                accuracy_radius: Seq::empty(),
                net: 0,
                sub: 0,
                sub2: 0,
                netmask: Seq::empty(),
            }),
    {
        Ip {
            network: String::new(),
            geoname_id: String::new(),
            latitude: String::new(),
            longitude: String::new(),
            accuracy_radius: String::new(),
            net: 0,
            sub: 0,
            sub2: 0,
            netmask: String::new(),
        }
    }
}

/// The records of `records` that pass `filter`, in the order they have there.
pub open spec fn select(records: Seq<Ip>, filter: Filter) -> Seq<Ip>
    decreases records.len(),
{
    if records.len() == 0 {
        Seq::empty()
    } else {
        let rest = select(records.drop_last(), filter);
        let last = records.last();
        if filter.admits(last.net, last.sub, last.sub2) {
            rest.push(last)
        } else {
            rest
        }
    }
}

/// The filter that passes exactly the records whose `sub` is `sub`.
pub open spec fn only_sub(sub: u8) -> Filter {
    Filter { net: Bound::Any, sub: Bound::Equal(sub), sub2: Bound::Any }
}

/// The filter that passes exactly the records whose `sub2` is `sub2`.
pub open spec fn only_sub2(sub2: u8) -> Filter {
    Filter { net: Bound::Any, sub: Bound::Any, sub2: Bound::Equal(sub2) }
}

/// The records whose `sub` is at most `top`: those with `sub == top` first,
/// then those with `sub == top - 1`, and so on down to zero, each group in
/// the order it has in `records`.
pub open spec fn from_sub_down(records: Seq<Ip>, top: int) -> Seq<Ip>
    decreases top + 1,
{
    if top < 0 || top > 255 {
        Seq::empty()
    } else {
        select(records, only_sub(top as u8)) + from_sub_down(records, top - 1)
    }
}

/// `records` ordered by `sub`, largest first; records with the same `sub`
/// keep the order they have in `records`.
pub open spec fn by_sub_descending(records: Seq<Ip>) -> Seq<Ip> {
    from_sub_down(records, 255)
}

/// The first `limit` records of `records`, or all of them where there are
/// fewer or no limit is set.
pub open spec fn limited(records: Seq<Ip>, limit: Option<u64>) -> Seq<Ip> {
    match limit {
        Some(n) if n < records.len() => records.take(n as int),
        _ => records,
    }
}

/// What a repository that holds `records` hands out for `filter` and
/// `options`: the records that pass the filter, ordered, then cut off.
pub open spec fn found(records: Seq<Ip>, filter: Filter, options: FindOptions) -> Seq<Ip> {
    let hits = select(records, filter);
    let ordered = match options.sort {
        SortOrder::Stored => hits,
        SortOrder::SubDescending => by_sub_descending(hits),
    };
    limited(ordered, options.limit)
}

/// Whether `record` passes `filter`.
pub open spec fn passes(filter: Filter, record: Ip) -> bool {
    filter.admits(record.net, record.sub, record.sub2)
}

/// A selection holds exactly the records that pass the filter.
pub proof fn lemma_select_members(records: Seq<Ip>, filter: Filter)
    ensures
        forall|x: Ip| #[trigger]
            select(records, filter).contains(x) <==> records.contains(x) && passes(filter, x),
    decreases records.len(),
{
    let chosen = select(records, filter);
    if records.len() == 0 {
        assert forall|x: Ip| #[trigger] chosen.contains(x) <==> records.contains(x) && passes(
            filter,
            x,
        ) by {}
    } else {
        let front = records.drop_last();
        let last = records.last();
        let rest = select(front, filter);
        lemma_select_members(front, filter);
        assert forall|x: Ip| #[trigger] chosen.contains(x) <==> records.contains(x) && passes(
            filter,
            x,
        ) by {
            if chosen.contains(x) {
                let i = choose|i: int| 0 <= i < chosen.len() && chosen[i] == x;
                if passes(filter, last) && i == rest.len() {
                    assert(records[records.len() - 1] == x);
                } else {
                    assert(rest[i] == x);
                    assert(rest.contains(x));
                    let j = choose|j: int| 0 <= j < front.len() && front[j] == x;
                    assert(records[j] == x);
                }
            }
            if records.contains(x) && passes(filter, x) {
                let j = choose|j: int| 0 <= j < records.len() && records[j] == x;
                if j == records.len() - 1 {
                    assert(chosen[rest.len() as int] == x);
                } else {
                    assert(front[j] == x);
                    assert(front.contains(x));
                    assert(rest.contains(x));
                    let i = choose|i: int| 0 <= i < rest.len() && rest[i] == x;
                    assert(chosen[i] == x);
                }
            }
        }
    }
}

/// Where no record passes the filter, the selection is empty; where one
/// does, it is not.
pub proof fn lemma_select_empty(records: Seq<Ip>, filter: Filter)
    ensures
        select(records, filter).len() == 0 <==> forall|j: int|
            0 <= j < records.len() ==> !passes(filter, #[trigger] records[j]),
{
    lemma_select_members(records, filter);
    let chosen = select(records, filter);
    if chosen.len() > 0 {
        assert(chosen.contains(chosen[0]));
        assert(records.contains(chosen[0]));
    }
    if exists|j: int| 0 <= j < records.len() && passes(filter, #[trigger] records[j]) {
        let j = choose|j: int| 0 <= j < records.len() && passes(filter, #[trigger] records[j]);
        assert(records.contains(records[j]));
        assert(chosen.contains(records[j]));
    }
}

/// Where exactly one record passes the filter, the selection is that record
/// alone.
pub proof fn lemma_select_single(records: Seq<Ip>, filter: Filter, i: int)
    requires
        0 <= i < records.len(),
        passes(filter, records[i]),
        forall|j: int| 0 <= j < records.len() && j != i ==> !passes(filter, #[trigger] records[j]),
    ensures
        select(records, filter) == seq![records[i]],
    decreases records.len(),
{
    let front = records.drop_last();
    if i == records.len() - 1 {
        assert forall|j: int| 0 <= j < front.len() implies !passes(filter, #[trigger] front[j]) by {
            assert(front[j] == records[j]);
        }
        lemma_select_empty(front, filter);
        assert(select(records, filter) =~= seq![records[i]]);
    } else {
        assert forall|j: int| 0 <= j < front.len() && j != i implies !passes(
            filter,
            #[trigger] front[j],
        ) by {
            assert(front[j] == records[j]);
        }
        assert(front[i] == records[i]);
        lemma_select_single(front, filter, i);
    }
}

/// The records from some `sub` down are records of the sequence.
pub proof fn lemma_from_sub_down_members(records: Seq<Ip>, top: int)
    requires
        -1 <= top <= 255,
    ensures
        forall|x: Ip| #[trigger]
            from_sub_down(records, top).contains(x) <==> records.contains(x) && x.sub <= top,
    decreases top + 1,
{
    let all = from_sub_down(records, top);
    if top < 0 {
        assert forall|x: Ip| #[trigger] all.contains(x) <==> records.contains(x) && x.sub
            <= top by {}
    } else {
        let head = select(records, only_sub(top as u8));
        let tail = from_sub_down(records, top - 1);
        lemma_select_members(records, only_sub(top as u8));
        lemma_from_sub_down_members(records, top - 1);
        assert forall|x: Ip| #[trigger] all.contains(x) <==> records.contains(x) && x.sub
            <= top by {
            if all.contains(x) {
                let i = choose|i: int| 0 <= i < all.len() && all[i] == x;
                if i < head.len() {
                    assert(head[i] == x);
                    assert(head.contains(x));
                } else {
                    assert(tail[i - head.len()] == x);
                    assert(tail.contains(x));
                }
            }
            if records.contains(x) && x.sub <= top {
                if x.sub == top {
                    assert(head.contains(x));
                    let i = choose|i: int| 0 <= i < head.len() && head[i] == x;
                    assert(all[i] == x);
                } else {
                    assert(tail.contains(x));
                    let i = choose|i: int| 0 <= i < tail.len() && tail[i] == x;
                    assert(all[head.len() + i] == x);
                }
            }
        }
    }
}

/// Ordering keeps every record and adds none.
pub proof fn lemma_by_sub_descending_members(records: Seq<Ip>)
    ensures
        forall|x: Ip| #[trigger] by_sub_descending(records).contains(x) <==> records.contains(x),
{
    lemma_from_sub_down_members(records, 255);
}

/// The first of the records from some `sub` down has the largest `sub` of
/// them.
pub proof fn lemma_from_sub_down_first(records: Seq<Ip>, top: int)
    requires
        -1 <= top <= 255,
        from_sub_down(records, top).len() > 0,
    ensures
        forall|x: Ip|
            records.contains(x) && x.sub <= top ==> x.sub <= from_sub_down(records, top)[0].sub,
    decreases top + 1,
{
    let all = from_sub_down(records, top);
    if top >= 0 {
        let head = select(records, only_sub(top as u8));
        let tail = from_sub_down(records, top - 1);
        lemma_select_members(records, only_sub(top as u8));
        if head.len() > 0 {
            assert(head.contains(head[0]));
            assert(all[0] == head[0]);
        } else {
            assert(all =~= tail);
            lemma_from_sub_down_first(records, top - 1);
            assert forall|x: Ip| records.contains(x) && x.sub <= top implies x.sub
                <= all[0].sub by {
                if x.sub == top {
                    assert(head.contains(x));
                }
            }
        }
    }
}

/// A cut keeps records of the sequence, and its first record where it keeps
/// any.
pub proof fn lemma_limited_members(records: Seq<Ip>, limit: Option<u64>)
    ensures
        forall|x: Ip| #[trigger] limited(records, limit).contains(x) ==> records.contains(x),
        limited(records, limit).len() > 0 ==> limited(records, limit)[0] == records[0],
        limited(records, limit).len() <= records.len(),
{
    let cut = limited(records, limit);
    assert forall|x: Ip| #[trigger] cut.contains(x) implies records.contains(x) by {
        let i = choose|i: int| 0 <= i < cut.len() && cut[i] == x;
        assert(records[i] == x);
    }
}

/// Appends to `out` the records of `records` that pass `filter`.
pub fn push_selected(out: &mut Vec<Ip>, records: &Vec<Ip>, filter: &Filter)
    ensures
        final(out)@ == old(out)@ + select(records@, *filter),
{
    let mut i: usize = 0;
    while i < records.len()
        invariant
            i <= records.len(),
            out@ == old(out)@ + select(records@.take(i as int), *filter),
        decreases records.len() - i,
    {
        let record = &records[i];
        proof {
            assert(records@.take(i + 1).drop_last() =~= records@.take(i as int));
            assert(records@.take(i + 1).last() == *record);
        }
        if filter.test(record.net, record.sub, record.sub2) {
            out.push(record.clone());
        }
        i = i + 1;
    }
    proof {
        assert(records@.take(records.len() as int) =~= records@);
    }
}

/// The network records of a store, held in memory in the order in which they
/// were stored. Until it is initialised a repository holds nothing and
/// refuses every question.
#[derive(Debug)]
pub struct IpRepository {
    records: Option<Vec<Ip>>,
}

impl View for IpRepository {
    type V = Option<Seq<Ip>>;

    closed spec fn view(&self) -> Option<Seq<Ip>> {
        match self.records {
            Some(records) => Some(records@),
            None => None,
        }
    }
}

impl Default for IpRepository {
    fn default() -> (r: Self)
        ensures
            r@ is None,
    {
        IpRepository { records: None }
    }
}

impl Clone for IpRepository {
    fn clone(&self) -> (r: Self)
        ensures
            r@ == self@,
    {
        match &self.records {
            Some(records) => {
                let copy = records.clone();
                assert(copy@ =~= records@);
                IpRepository { records: Some(copy) }
            },
            None => IpRepository { records: None },
        }
    }
}

impl IpRepository {
    /// Fills the repository with `records`, replacing what it held.
    pub fn init(&mut self, records: Vec<Ip>) -> (r: Result<(), RepositoryError>)
        ensures
            r is Ok,
            final(self)@ == Some(records@),
    {
        self.records = Some(records);
        Ok(())
    }

    /// The number of records that pass `filter`.
    pub fn count(&self, filter: Filter) -> (r: Result<u64, RepositoryError>)
        ensures
            match (self@, r) {
                (Some(records), Ok(n)) => n == select(records, filter).len(),
                (None, Err(e)) => e == RepositoryError::UninitializedRepoError,
                _ => false,
            },
    {
        match &self.records {
            Some(records) => {
                let mut hits: Vec<Ip> = Vec::new();
                push_selected(&mut hits, records, &filter);
                assert(hits@ =~= select(records@, filter));
                Ok(hits.len() as u64)
            },
            None => Err(RepositoryError::UninitializedRepoError),
        }
    }

    /// The records that pass `filter`, in stored order.
    pub fn find(&self, filter: Filter) -> (r: Result<Vec<Ip>, RepositoryError>)
        ensures
            match (self@, r) {
                (Some(records), Ok(rows)) => rows@ == select(records, filter),
                (None, Err(e)) => e == RepositoryError::UninitializedRepoError,
                _ => false,
            },
    {
        match &self.records {
            Some(records) => {
                let mut hits: Vec<Ip> = Vec::new();
                push_selected(&mut hits, records, &filter);
                assert(hits@ =~= select(records@, filter));
                Ok(hits)
            },
            None => Err(RepositoryError::UninitializedRepoError),
        }
    }

    /// The records that pass `filter`, ordered and cut off as `options` say.
    pub fn find_with_options(&self, filter: Filter, options: FindOptions) -> (r: Result<
        Vec<Ip>,
        RepositoryError,
    >)
        ensures
            match (self@, r) {
                (Some(records), Ok(rows)) => rows@ == found(records, filter, options),
                (None, Err(e)) => e == RepositoryError::UninitializedRepoError,
                _ => false,
            },
    {
        match &self.records {
            Some(records) => {
                let mut hits: Vec<Ip> = Vec::new();
                push_selected(&mut hits, records, &filter);
                assert(hits@ =~= select(records@, filter));
                let mut rows = match options.sort {
                    SortOrder::Stored => hits,
                    SortOrder::SubDescending => sort_by_sub_descending(&hits),
                };
                match options.limit {
                    Some(n) => {
                        if n < rows.len() as u64 {
                            rows.truncate(n as usize);
                        }
                    },
                    None => {},
                }
                Ok(rows)
            },
            None => Err(RepositoryError::UninitializedRepoError),
        }
    }

    /// Every record, in stored order.
    pub fn get_all(&self) -> (r: Result<Vec<Ip>, RepositoryError>)
        ensures
            match (self@, r) {
                (Some(records), Ok(rows)) => rows@ == records,
                (None, Err(e)) => e == RepositoryError::UninitializedRepoError,
                _ => false,
            },
    {
        match &self.records {
            Some(records) => {
                let copy = records.clone();
                assert(copy@ =~= records@);
                Ok(copy)
            },
            None => Err(RepositoryError::UninitializedRepoError),
        }
    }
}

/// Orders `records` by `sub`, largest first, keeping the order of records
/// with the same `sub`.
pub fn sort_by_sub_descending(records: &Vec<Ip>) -> (r: Vec<Ip>)
    ensures
        r@ == by_sub_descending(records@),
{
    let mut out: Vec<Ip> = Vec::new();
    let mut below: u16 = 256;
    while below > 0
        invariant
            below <= 256,
            out@ + from_sub_down(records@, below - 1) == by_sub_descending(records@),
        decreases below,
    {
        below = below - 1;
        let filter = Filter { net: Bound::Any, sub: Bound::Equal(below as u8), sub2: Bound::Any };
        let ghost before = out@;
        push_selected(&mut out, records, &filter);
        proof {
            assert(filter == only_sub(below as u8));
            assert((before + select(records@, filter)) + from_sub_down(records@, below - 1)
                =~= before + (select(records@, filter) + from_sub_down(records@, below - 1)));
        }
    }
    proof {
        assert(out@ + from_sub_down(records@, -1) =~= out@);
    }
    out
}

} // verus!
