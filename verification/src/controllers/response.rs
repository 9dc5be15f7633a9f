//! What a lookup hands to the caller: the network and location fields of a
//! finding merged into one record, or the message that nothing was found.

use vstd::prelude::*;

use crate::address::{dotted, AddressKey};
use crate::controllers::lookup::LookupOutcome;
use crate::error::LookupError;
use crate::models::ip::{Ip, IpView};
use crate::models::location::{Location, LocationView};

verus! {

/// A finding: the address that was asked for, the network it lies in and
/// where that network lies.
#[derive(Debug, PartialEq, Eq)]
pub struct LookupResult {
    pub request_ip: String,
    pub network: String,
    pub lat: String,
    pub lon: String,
    pub accuracy: String,
    pub continent: String,
    pub country: String,
    pub subdivision_1_name: String,
    pub subdivision_2_name: String,
    pub city_name: String,
    pub time_zone: String,
}

/// What a [`LookupResult`] holds, with each text as a sequence of
/// characters.
pub struct LookupResultView {
    pub request_ip: Seq<char>,
    pub network: Seq<char>,
    pub lat: Seq<char>,
    pub lon: Seq<char>,
    pub accuracy: Seq<char>,
    pub continent: Seq<char>,
    pub country: Seq<char>,
    pub subdivision_1_name: Seq<char>,
    pub subdivision_2_name: Seq<char>,
    pub city_name: Seq<char>,
    pub time_zone: Seq<char>,
}

impl View for LookupResult {
    type V = LookupResultView;

    open spec fn view(&self) -> LookupResultView {
        LookupResultView {
            request_ip: self.request_ip@,
            network: self.network@,
            lat: self.lat@,
            lon: self.lon@,
            accuracy: self.accuracy@,
            continent: self.continent@,
            country: self.country@,
            subdivision_1_name: self.subdivision_1_name@,
            subdivision_2_name: self.subdivision_2_name@,
            city_name: self.city_name@,
            time_zone: self.time_zone@,
        }
    }
}

/// What is handed to the caller when a lookup did not fail.
#[derive(Debug, PartialEq, Eq)]
pub enum LookupResponse {
    Found(LookupResult),
    NotFound { error: String },
}

/// What a [`LookupResponse`] holds, with each text as a sequence of
/// characters.
pub enum Reply {
    Found(LookupResultView),
    NotFound { error: Seq<char> },
}

impl View for LookupResponse {
    type V = Reply;

    open spec fn view(&self) -> Reply {
        match *self {
            LookupResponse::Found(result) => Reply::Found(result@),
            LookupResponse::NotFound { error } => Reply::NotFound { error: error@ },
        }
    }
}

/// The message of a response that reports no finding.
pub open spec fn not_found_message() -> Seq<char> {
    "The request IP was not found in the database."@
}

/// The finding for the address `key` in the network `ip` at `location`:
/// the dotted-decimal text of the address, then the fields of the network
/// and of the location, unchanged.
pub open spec fn composed(key: AddressKey, ip: IpView, location: LocationView) -> LookupResultView {
    LookupResultView {
        request_ip: dotted(key),
        network: ip.network,
        lat: ip.latitude,
        lon: ip.longitude,
        accuracy: ip.accuracy_radius,
        continent: location.continent_name,
        country: location.country_name,
        subdivision_1_name: location.subdivision_1_name,
        subdivision_2_name: location.subdivision_2_name,
        city_name: location.city_name,
        time_zone: location.time_zone,
    }
}

/// What the caller is handed for `outcome`: the composed finding, the
/// message that nothing was found, or the failure.
pub open spec fn reply_to(outcome: LookupOutcome) -> Result<Reply, LookupError> {
    match outcome {
        LookupOutcome::Found(key, ip, location) => Ok(Reply::Found(composed(key, ip@, location@))),
        LookupOutcome::NotFound => Ok(Reply::NotFound { error: not_found_message() }),
        LookupOutcome::Failed(e) => Err(e),
    }
}

/// What `r` holds, with each text as a sequence of characters.
pub open spec fn reply_of(r: Result<LookupResponse, LookupError>) -> Result<Reply, LookupError> {
    match r {
        Ok(response) => Ok(response@),
        Err(e) => Err(e),
    }
}

/// Merges the fields of a network and of its location into one finding.
pub fn compose(key: AddressKey, ip: &Ip, location: &Location) -> (r: LookupResult)
    ensures
        r@ == composed(key, ip@, location@),
{
    LookupResult {
        request_ip: key.to_text(),
        network: ip.network.clone(),
        lat: ip.latitude.clone(),
        lon: ip.longitude.clone(),
        accuracy: ip.accuracy_radius.clone(),
        continent: location.continent_name.clone(),
        country: location.country_name.clone(),
        subdivision_1_name: location.subdivision_1_name.clone(),
        subdivision_2_name: location.subdivision_2_name.clone(),
        city_name: location.city_name.clone(),
        time_zone: location.time_zone.clone(),
    }
}

/// Turns the outcome of a lookup into what the caller is handed.
pub fn respond(outcome: LookupOutcome) -> (r: Result<LookupResponse, LookupError>)
    ensures
        reply_of(r) == reply_to(outcome),
{
    match outcome {
        LookupOutcome::Found(key, ip, location) => Ok(
            LookupResponse::Found(compose(key, &ip, &location)),
        ),
        LookupOutcome::NotFound => Ok(
            LookupResponse::NotFound {
                error: "The request IP was not found in the database.".to_owned(),
            },
        ),
        LookupOutcome::Failed(e) => Err(e),
    }
}

} // verus!
