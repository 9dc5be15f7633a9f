//! Location records and the repository that holds them.

use vstd::prelude::*;

use crate::models::RepositoryError;

verus! {

/// Where a network lies, under the identifier that network records refer to.
#[derive(Debug, PartialEq, Eq)]
pub struct Location {
    pub geoname_id: String,
    pub continent_name: String,
    pub country_name: String,
    pub subdivision_1_name: String,
    pub subdivision_2_name: String,
    pub city_name: String,
    pub time_zone: String,
}

/// What a [`Location`] holds, with each text as a sequence of characters.
pub struct LocationView {
    pub geoname_id: Seq<char>,
    pub continent_name: Seq<char>,
    pub country_name: Seq<char>,
    pub subdivision_1_name: Seq<char>,
    pub subdivision_2_name: Seq<char>,
    pub city_name: Seq<char>,
    pub time_zone: Seq<char>,
}

impl View for Location {
    type V = LocationView;

    open spec fn view(&self) -> LocationView {
        LocationView {
            geoname_id: self.geoname_id@,
            continent_name: self.continent_name@,
            country_name: self.country_name@,
            subdivision_1_name: self.subdivision_1_name@,
            subdivision_2_name: self.subdivision_2_name@,
            city_name: self.city_name@,
            time_zone: self.time_zone@,
        }
    }
}

impl Clone for Location {
    fn clone(&self) -> (r: Self)
        ensures
            r == *self,
    {
        Location {
            geoname_id: self.geoname_id.clone(),
            continent_name: self.continent_name.clone(),
            country_name: self.country_name.clone(),
            subdivision_1_name: self.subdivision_1_name.clone(),
            subdivision_2_name: self.subdivision_2_name.clone(),
            city_name: self.city_name.clone(),
            time_zone: self.time_zone.clone(),
        }
    }
}

impl Location {
    /// A record with every text empty.
    pub fn new() -> (r: Self)
        ensures
            r@ == (LocationView {
                geoname_id: Seq::empty(),
                continent_name: Seq::empty(),
                country_name: Seq::empty(),
                subdivision_1_name: Seq::empty(),
                subdivision_2_name: Seq::empty(),
                city_name: Seq::empty(),
                time_zone: Seq::empty(),
            }),
    {
        Location {
            geoname_id: String::new(),
            continent_name: String::new(),
            country_name: String::new(),
            subdivision_1_name: String::new(),
            subdivision_2_name: String::new(),
            city_name: String::new(),
            time_zone: String::new(),
        }
    }
}

/// The first record of `locations` at or after `start` whose identifier
/// reads `geoname_id`, if there is one.
pub open spec fn located_from(locations: Seq<Location>, geoname_id: Seq<char>, start: int) -> Option<
    Location,
>
    decreases locations.len() - start,
{
    if start < 0 || start >= locations.len() {
        None
    } else if locations[start].geoname_id@ == geoname_id {
        Some(locations[start])
    } else {
        located_from(locations, geoname_id, start + 1)
    }
}

/// The first record of `locations` whose identifier reads `geoname_id`, if
/// there is one.
pub open spec fn located(locations: Seq<Location>, geoname_id: Seq<char>) -> Option<Location> {
    located_from(locations, geoname_id, 0)
}

/// A record that is found is one of the records, and has the identifier
/// that was asked for; where none is found, no record has it.
pub proof fn lemma_located_from(locations: Seq<Location>, geoname_id: Seq<char>, start: int)
    requires
        0 <= start,
    ensures
        match located_from(locations, geoname_id, start) {
            Some(l) => locations.contains(l) && l.geoname_id@ == geoname_id,
            None => forall|j: int|
                start <= j < locations.len() ==> (#[trigger] locations[j]).geoname_id@
                    != geoname_id,
        },
    decreases locations.len() - start,
{
    if start < locations.len() {
        if locations[start].geoname_id@ == geoname_id {
            assert(locations.contains(locations[start]));
        } else {
            lemma_located_from(locations, geoname_id, start + 1);
        }
    }
}

/// The location records of a store, held in memory in the order in which
/// they were stored. Until it is initialised a repository holds nothing and
/// refuses every question.
#[derive(Debug)]
pub struct LocationRepository {
    records: Option<Vec<Location>>,
}

impl View for LocationRepository {
    type V = Option<Seq<Location>>;

    closed spec fn view(&self) -> Option<Seq<Location>> {
        match self.records {
            Some(records) => Some(records@),
            None => None,
        }
    }
}

impl Default for LocationRepository {
    fn default() -> (r: Self)
        ensures
            r@ is None,
    {
        LocationRepository { records: None }
    }
}

impl Clone for LocationRepository {
    fn clone(&self) -> (r: Self)
        ensures
            r@ == self@,
    {
        match &self.records {
            Some(records) => {
                let copy = records.clone();
                assert(copy@ =~= records@);
                LocationRepository { records: Some(copy) }
            },
            None => LocationRepository { records: None },
        }
    }
}

impl LocationRepository {
    /// Fills the repository with `records`, replacing what it held.
    pub fn init(&mut self, records: Vec<Location>) -> (r: Result<(), RepositoryError>)
        ensures
            r is Ok,
            final(self)@ == Some(records@),
    {
        self.records = Some(records);
        Ok(())
    }

    /// The first record whose identifier reads `geoname_id`, if there is one.
    pub fn get(&self, geoname_id: &str) -> (r: Result<Option<Location>, RepositoryError>)
        ensures
            match self@ {
                Some(records) => r == Ok::<Option<Location>, RepositoryError>(
                    located(records, geoname_id@),
                ),
                None => r == Err::<Option<Location>, RepositoryError>(
                    RepositoryError::UninitializedRepoError,
                ),
            },
    {
        match &self.records {
            Some(records) => {
                let wanted: String = geoname_id.to_owned();
                let mut i: usize = 0;
                while i < records.len()
                    invariant
                        i <= records.len(),
                        self@ == Some(records@),
                        wanted@ == geoname_id@,
                        located(records@, geoname_id@) == located_from(
                            records@,
                            geoname_id@,
                            i as int,
                        ),
                    decreases records.len() - i,
                {
                    if records[i].geoname_id == wanted {
                        return Ok(Some(records[i].clone()));
                    }
                    i = i + 1;
                }
                Ok(None)
            },
            None => Err(RepositoryError::UninitializedRepoError),
        }
    }

    /// Every record, in stored order.
    pub fn get_all(&self) -> (r: Result<Vec<Location>, RepositoryError>)
        ensures
            match (self@, r) {
                (Some(records), Ok(rows)) => rows@ == records,
                (None, Err(e)) => e == RepositoryError::UninitializedRepoError,
                _ => false,
            },
    {
        match &self.records {
            Some(records) => {
                let copy = records.clone();
                assert(copy@ =~= records@);
                Ok(copy)
            },
            None => Err(RepositoryError::UninitializedRepoError),
        }
    }
}

} // verus!
