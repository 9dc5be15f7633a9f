use spotme::address::AddressKey;
use spotme::controllers::lookup::{
    advance, ask, find_right_entry, get_netmask_array, get_netmask_value, ip_lookup,
    keep_first_sub2_group, keep_first_sub_group, resolve, start, LookupOutcome, LookupState,
    Step, StoreRequest, StoreResponse,
};
use spotme::controllers::response::{compose, respond, LookupResponse};
use spotme::error::LookupError;
use spotme::models::ip::Ip;
use spotme::models::location::Location;
use spotme::models::{
    Bound, Database, Filter, FindOptions, RepositoryCollection, RepositoryError, SortOrder,
};

fn network(name: &str, net: u8, sub: u8, sub2: u8, netmask: &str, geoname_id: &str) -> Ip {
    let mut ip = Ip::new();
    ip.network = name.to_string();
    ip.latitude = format!("lat-{}", name);
    ip.longitude = format!("lon-{}", name);
    ip.accuracy_radius = format!("acc-{}", name);
    ip.net = net;
    ip.sub = sub;
    ip.sub2 = sub2;
    ip.netmask = netmask.to_string();
    ip.geoname_id = geoname_id.to_string();
    ip
}

fn place(geoname_id: &str, country: &str) -> Location {
    let mut location = Location::new();
    location.geoname_id = geoname_id.to_string();
    location.continent_name = "Continent".to_string();
    location.country_name = country.to_string();
    location.subdivision_1_name = "First".to_string();
    location.subdivision_2_name = "Second".to_string();
    location.city_name = "City".to_string();
    location.time_zone = "Zone/City".to_string();
    location
}

fn loaded(ip: Vec<Ip>, location: Vec<Location>) -> RepositoryCollection {
    let mut repos = RepositoryCollection::new(Database { ip, location });
    repos.load_repositories().expect("in-memory repositories always load");
    repos
}

fn found_network(repos: &RepositoryCollection, address: &str) -> String {
    match resolve(repos, address) {
        LookupOutcome::Found(_, ip, _) => ip.network,
        other => panic!("expected a finding for {}, got {:?}", address, other),
    }
}

fn key(net: u8, sub: u8, sub2: u8, mask: u8) -> AddressKey {
    AddressKey { net, sub, sub2, mask }
}

#[test]
fn weight_follows_the_formula() {
    assert_eq!(get_netmask_value("24/1"), Ok(448));
    assert_eq!(get_netmask_value("16/2"), Ok(640));
    assert_eq!(get_netmask_value("24/8"), Ok(24 * 8 + 8 * 256));
    assert_eq!(get_netmask_value("0/0"), Ok(0));
    assert_eq!(get_netmask_value("-1/2"), Ok(-8 + 512));
    assert_eq!(get_netmask_value("+3/-4"), Ok(24 - 1024));
}

#[test]
fn weight_of_the_largest_fields_does_not_overflow() {
    let max = i64::MAX as i128;
    let min = i64::MIN as i128;
    assert_eq!(
        get_netmask_value("9223372036854775807/9223372036854775807"),
        Ok(max * 8 + max * 256)
    );
    assert_eq!(
        get_netmask_value("-9223372036854775808/-9223372036854775808"),
        Ok(min * 8 + min * 256)
    );
}

#[test]
fn weight_reads_the_first_two_fields_only() {
    assert_eq!(get_netmask_value("24/8/7"), Ok(24 * 8 + 8 * 256));
    assert_eq!(get_netmask_value("24/8/"), Ok(24 * 8 + 8 * 256));
    assert_eq!(get_netmask_value("24/8/x"), Ok(24 * 8 + 8 * 256));
}

#[test]
fn descriptor_that_cannot_be_read_is_malformed() {
    for netmask in [
        "", "24", "/", "24/", "/8", "a/b", "24/b", "a/8", "24 /8", "24/ 8", "2.4/8", "//",
        "9223372036854775808/0", "0/-9223372036854775809", "24\\8",
    ] {
        assert_eq!(
            get_netmask_value(netmask),
            Err(LookupError::MalformedSpecificity),
            "descriptor {:?}",
            netmask
        );
    }
}

#[test]
fn larger_weight_wins_the_tie_break() {
    let candidates = vec![
        network("a", 10, 0, 0, "24/1", "A"),
        network("b", 10, 0, 0, "16/2", "B"),
    ];
    assert_eq!(find_right_entry(&candidates), Ok(candidates[1].clone()));
    let reversed = vec![candidates[1].clone(), candidates[0].clone()];
    assert_eq!(find_right_entry(&reversed), Ok(candidates[1].clone()));
}

#[test]
fn first_of_equally_heavy_candidates_wins() {
    // 16 * 8 + 2 * 256 = 640 = 48 * 8 + 1 * 256
    let candidates = vec![
        network("light", 10, 0, 0, "1/0", "L"),
        network("first", 10, 0, 0, "16/2", "F"),
        network("second", 10, 0, 0, "48/1", "S"),
    ];
    assert_eq!(find_right_entry(&candidates).unwrap().network, "first");
    let swapped = vec![
        candidates[2].clone(),
        candidates[0].clone(),
        candidates[1].clone(),
    ];
    assert_eq!(find_right_entry(&swapped).unwrap().network, "second");
}

#[test]
fn malformed_candidate_is_left_out_of_the_tie_break() {
    let candidates = vec![
        network("broken", 10, 0, 0, "99999", "X"),
        network("small", 10, 0, 0, "1/1", "S"),
        network("also broken", 10, 0, 0, "a/b", "Y"),
    ];
    assert_eq!(find_right_entry(&candidates).unwrap().network, "small");
    let weighed = get_netmask_array(&candidates);
    assert_eq!(weighed.len(), 1);
    assert_eq!(weighed[0].0, 264);
    assert_eq!(weighed[0].1.network, "small");
}

#[test]
fn candidates_that_are_all_malformed_give_no_winner() {
    let candidates = vec![
        network("broken", 10, 0, 0, "24", "X"),
        network("also broken", 10, 0, 0, "", "Y"),
    ];
    assert_eq!(find_right_entry(&candidates), Err(LookupError::MalformedSpecificity));
    assert!(get_netmask_array(&candidates).is_empty());
}

#[test]
fn negative_weights_are_compared_as_numbers() {
    let candidates = vec![
        network("lower", 10, 0, 0, "-2/0", "A"),
        network("higher", 10, 0, 0, "-1/0", "B"),
    ];
    assert_eq!(find_right_entry(&candidates).unwrap().network, "higher");
}

#[test]
fn exact_match_is_found_with_its_location() {
    let repos = loaded(
        vec![network("203.0.113.0/24", 203, 0, 113, "24/0", "G1")],
        vec![place("G1", "Testland")],
    );
    match resolve(&repos, "203.0.113.77") {
        LookupOutcome::Found(found_key, ip, location) => {
            assert_eq!(found_key, key(203, 0, 113, 77));
            assert_eq!(ip, network("203.0.113.0/24", 203, 0, 113, "24/0", "G1"));
            assert_eq!(location, place("G1", "Testland"));
        }
        other => panic!("expected a finding, got {:?}", other),
    }
    match ip_lookup(&repos, Some("ip=203.0.113.77")) {
        Ok(LookupResponse::Found(result)) => {
            assert_eq!(result.request_ip, "203.0.113.77");
            assert_eq!(result.network, "203.0.113.0/24");
            assert_eq!(result.lat, "lat-203.0.113.0/24");
            assert_eq!(result.lon, "lon-203.0.113.0/24");
            assert_eq!(result.accuracy, "acc-203.0.113.0/24");
            assert_eq!(result.continent, "Continent");
            assert_eq!(result.country, "Testland");
            assert_eq!(result.subdivision_1_name, "First");
            assert_eq!(result.subdivision_2_name, "Second");
            assert_eq!(result.city_name, "City");
            assert_eq!(result.time_zone, "Zone/City");
        }
        other => panic!("expected a finding, got {:?}", other),
    }
}

#[test]
fn no_qualifying_neighbour_is_not_found() {
    let repos = loaded(
        vec![network("203.0.113.0/24", 203, 0, 113, "24/0", "G1")],
        vec![place("G1", "Testland")],
    );
    assert_eq!(resolve(&repos, "203.0.200.5"), LookupOutcome::NotFound);
    match ip_lookup(&repos, Some("ip=203.0.200.5")) {
        Ok(LookupResponse::NotFound { error }) => {
            assert_eq!(error, "The request IP was not found in the database.");
        }
        other => panic!("expected no finding, got {:?}", other),
    }
}

#[test]
fn invalid_address_is_rejected_whatever_the_store_holds() {
    let repos = loaded(vec![network("n", 1, 2, 3, "24/0", "G")], vec![place("G", "C")]);
    let unloaded = RepositoryCollection::new(Database { ip: vec![], location: vec![] });
    for address in ["203.0.113", "", "1.2.3.4:80", "a.b.c.d", "1.2.3.256", "01.2.3.4"] {
        assert_eq!(
            resolve(&repos, address),
            LookupOutcome::Failed(LookupError::InvalidAddress)
        );
        assert_eq!(
            resolve(&unloaded, address),
            LookupOutcome::Failed(LookupError::InvalidAddress)
        );
        assert_eq!(
            start(address),
            Step::Done(LookupOutcome::Failed(LookupError::InvalidAddress))
        );
    }
}

#[test]
fn exact_matches_are_all_candidates() {
    let repos = loaded(
        vec![
            network("light", 10, 1, 7, "8/0", "G"),
            network("other sub2", 10, 1, 6, "32/9", "G"),
            network("heavy", 10, 1, 7, "8/1", "G"),
            network("middle", 10, 1, 7, "16/0", "G"),
        ],
        vec![place("G", "C")],
    );
    assert_eq!(found_network(&repos, "10.1.7.200"), "heavy");
    assert_eq!(found_network(&repos, "10.1.7.0"), "heavy");
}

#[test]
fn nearest_sub2_group_is_that_of_the_first_row() {
    let repos = loaded(
        vec![
            network("a", 10, 1, 3, "8/0", "G"),
            network("b", 10, 1, 5, "8/9", "G"),
            network("c", 10, 1, 3, "8/1", "G"),
            network("d", 10, 1, 200, "8/9", "G"),
        ],
        vec![place("G", "C")],
    );
    // No record has sub2 = 9. Of the rows with sub2 <= 5, in stored order,
    // the first has sub2 = 3: the group is a and c, and c weighs more.
    assert_eq!(found_network(&repos, "10.1.9.5"), "c");
    // With the bound 4 the row b is not fetched at all.
    assert_eq!(found_network(&repos, "10.1.9.4"), "c");
    // No row has sub2 <= 2.
    assert_eq!(resolve(&repos, "10.1.9.2"), LookupOutcome::NotFound);
}

#[test]
fn last_octet_cuts_the_relaxed_search_off() {
    let repos = loaded(
        vec![
            network("a", 10, 1, 1, "8/0", "G"),
            network("b", 10, 1, 0, "8/9", "G"),
            network("c", 10, 1, 1, "8/1", "G"),
        ],
        vec![place("G", "C")],
    );
    // Three rows have sub2 <= 1, one is fetched: a, though c weighs more.
    assert_eq!(found_network(&repos, "10.1.9.1"), "a");
    // Two rows are fetched: a and b; the group of a is a alone.
    assert_eq!(found_network(&repos, "10.1.9.2"), "a");
    // Three rows are fetched: the group of a is a and c.
    assert_eq!(found_network(&repos, "10.1.9.3"), "c");
    // With the last octet 0 no row is fetched.
    assert_eq!(resolve(&repos, "10.1.9.0"), LookupOutcome::NotFound);
}

#[test]
fn coarsest_search_takes_the_closest_sub_group() {
    let repos = loaded(
        vec![
            network("x", 10, 1, 0, "8/9", "G"),
            network("y", 10, 3, 2, "8/0", "G"),
            network("other net", 11, 4, 0, "8/9", "G"),
            network("z", 10, 3, 1, "8/1", "G"),
            network("w", 10, 4, 50, "8/9", "G"),
            network("beyond", 10, 9, 0, "8/9", "G"),
        ],
        vec![place("G", "C")],
    );
    // No record has net.sub = 10.5. Of the rows with sub <= 5 and sub2 <= 10
    // the largest sub is 3: the group is y and z, and z weighs more.
    assert_eq!(found_network(&repos, "10.5.0.10"), "z");
    // With sub2 <= 50 the row w comes first.
    assert_eq!(found_network(&repos, "10.5.0.50"), "w");
    // With sub2 <= 1 the row y is not fetched; one row is: z.
    assert_eq!(found_network(&repos, "10.5.0.1"), "z");
    assert_eq!(found_network(&repos, "10.2.0.1"), "x");
    assert_eq!(resolve(&repos, "10.0.0.1"), LookupOutcome::NotFound);
    assert_eq!(resolve(&repos, "10.5.0.0"), LookupOutcome::NotFound);
}

#[test]
fn unknown_net_is_not_found() {
    let repos = loaded(
        vec![
            network("a", 10, 1, 1, "8/0", "G"),
            network("b", 12, 0, 0, "8/0", "G"),
        ],
        vec![place("G", "C")],
    );
    assert_eq!(resolve(&repos, "11.1.1.200"), LookupOutcome::NotFound);
    assert_eq!(resolve(&repos, "9.255.255.255"), LookupOutcome::NotFound);
    assert_eq!(resolve(&loaded(vec![], vec![]), "11.1.1.200"), LookupOutcome::NotFound);
}

#[test]
fn unknown_location_is_not_found() {
    let repos = loaded(
        vec![network("203.0.113.0/24", 203, 0, 113, "24/0", "G1")],
        vec![place("G2", "Elsewhere")],
    );
    assert_eq!(resolve(&repos, "203.0.113.77"), LookupOutcome::NotFound);
    match ip_lookup(&repos, Some("ip=203.0.113.77")) {
        Ok(LookupResponse::NotFound { error }) => {
            assert_eq!(error, "The request IP was not found in the database.");
        }
        other => panic!("expected no finding, got {:?}", other),
    }
}

#[test]
fn first_location_with_the_identifier_is_joined() {
    let repos = loaded(
        vec![network("n", 203, 0, 113, "24/0", "G1")],
        vec![place("G0", "Zero"), place("G1", "One"), place("G1", "Again")],
    );
    match resolve(&repos, "203.0.113.1") {
        LookupOutcome::Found(_, _, location) => assert_eq!(location.country_name, "One"),
        other => panic!("expected a finding, got {:?}", other),
    }
}

#[test]
fn same_lookup_gives_the_same_outcome_twice() {
    let repos = loaded(
        vec![
            network("a", 10, 1, 3, "8/0", "G"),
            network("c", 10, 1, 3, "8/1", "G"),
            network("y", 10, 3, 2, "8/0", "H"),
        ],
        vec![place("G", "C")],
    );
    for address in ["10.1.3.4", "10.1.9.5", "10.5.0.9", "10.4.0.9", "11.0.0.1", "x"] {
        assert_eq!(resolve(&repos, address), resolve(&repos, address));
    }
    let query = Some("ip=10.1.3.4");
    assert_eq!(ip_lookup(&repos, query), ip_lookup(&repos, query));
}

#[test]
fn candidates_without_a_readable_descriptor_fail_the_lookup() {
    let repos = loaded(
        vec![network("broken", 10, 1, 3, "24", "G")],
        vec![place("G", "C")],
    );
    assert_eq!(
        resolve(&repos, "10.1.3.4"),
        LookupOutcome::Failed(LookupError::MalformedSpecificity)
    );
    assert_eq!(
        ip_lookup(&repos, Some("ip=10.1.3.4")),
        Err(LookupError::MalformedSpecificity)
    );
}

#[test]
fn uninitialised_repositories_fail_the_lookup() {
    let database = Database {
        ip: vec![network("n", 10, 1, 3, "24/0", "G")],
        location: vec![place("G", "C")],
    };
    let failure = LookupOutcome::Failed(LookupError::Store(
        RepositoryError::UninitializedRepoError,
    ));
    let mut repos = RepositoryCollection::new(database.clone());
    assert_eq!(resolve(&repos, "10.1.3.4"), failure);
    repos.ip.init(database.ip.clone()).unwrap();
    assert_eq!(resolve(&repos, "10.1.3.4"), failure);
    assert_eq!(resolve(&repos, "11.1.3.4"), LookupOutcome::NotFound);
    repos.location.init(database.location.clone()).unwrap();
    assert_eq!(found_network(&repos, "10.1.3.4"), "n");
}

#[test]
fn lookup_begins_by_counting_the_pair() {
    assert_eq!(
        start("10.1.9.5"),
        Step::Ask(
            LookupState::CountingPair(key(10, 1, 9, 5)),
            StoreRequest::Count(Filter {
                net: Bound::Equal(10),
                sub: Bound::Equal(1),
                sub2: Bound::Any,
            }),
        )
    );
}

#[test]
fn counts_decide_which_tier_is_searched() {
    let k = key(10, 1, 9, 5);
    let relaxed = FindOptions { limit: Some(5), sort: SortOrder::SubDescending };
    assert_eq!(
        advance(LookupState::CountingPair(k), StoreResponse::Count(2)),
        Step::Ask(
            LookupState::CountingTriple(k),
            StoreRequest::Count(Filter {
                net: Bound::Equal(10),
                sub: Bound::Equal(1),
                sub2: Bound::Equal(9),
            }),
        )
    );
    assert_eq!(
        advance(LookupState::CountingPair(k), StoreResponse::Count(0)),
        Step::Ask(
            LookupState::FindingNearestSub(k),
            StoreRequest::FindWithOptions(
                Filter { net: Bound::Equal(10), sub: Bound::AtMost(1), sub2: Bound::AtMost(5) },
                relaxed,
            ),
        )
    );
    assert_eq!(
        advance(LookupState::CountingTriple(k), StoreResponse::Count(1)),
        Step::Ask(
            LookupState::FindingExact(k),
            StoreRequest::Find(Filter {
                net: Bound::Equal(10),
                sub: Bound::Equal(1),
                sub2: Bound::Equal(9),
            }),
        )
    );
    assert_eq!(
        advance(LookupState::CountingTriple(k), StoreResponse::Count(0)),
        Step::Ask(
            LookupState::FindingNearestSub2(k),
            StoreRequest::FindWithOptions(
                Filter { net: Bound::Equal(10), sub: Bound::Equal(1), sub2: Bound::AtMost(5) },
                relaxed,
            ),
        )
    );
}

#[test]
fn rows_decide_the_winner_whose_location_is_asked_for() {
    let k = key(10, 1, 9, 5);
    let a = network("a", 10, 1, 3, "8/0", "GA");
    let b = network("b", 10, 1, 5, "8/9", "GB");
    let c = network("c", 10, 1, 3, "8/1", "GC");
    let rows = vec![a.clone(), b.clone(), c.clone()];
    assert_eq!(
        advance(LookupState::FindingExact(k), StoreResponse::Records(rows.clone())),
        Step::Ask(LookupState::Locating(k, b.clone()), StoreRequest::Get("GB".to_string()))
    );
    assert_eq!(
        advance(LookupState::FindingNearestSub2(k), StoreResponse::Records(rows.clone())),
        Step::Ask(LookupState::Locating(k, c.clone()), StoreRequest::Get("GC".to_string()))
    );
    assert_eq!(
        advance(LookupState::FindingNearestSub(k), StoreResponse::Records(rows.clone())),
        Step::Ask(LookupState::Locating(k, b.clone()), StoreRequest::Get("GB".to_string()))
    );
    for state in [
        LookupState::FindingExact(k),
        LookupState::FindingNearestSub2(k),
        LookupState::FindingNearestSub(k),
    ] {
        assert_eq!(
            advance(state, StoreResponse::Records(vec![])),
            Step::Done(LookupOutcome::NotFound)
        );
    }
}

#[test]
fn location_ends_the_lookup() {
    let k = key(10, 1, 9, 5);
    let a = network("a", 10, 1, 3, "8/0", "GA");
    let l = place("GA", "C");
    assert_eq!(
        advance(LookupState::Locating(k, a.clone()), StoreResponse::Location(Some(l.clone()))),
        Step::Done(LookupOutcome::Found(k, a.clone(), l))
    );
    assert_eq!(
        advance(LookupState::Locating(k, a), StoreResponse::Location(None)),
        Step::Done(LookupOutcome::NotFound)
    );
}

#[test]
fn store_failure_ends_the_lookup_with_that_failure() {
    let k = key(10, 1, 9, 5);
    let a = network("a", 10, 1, 3, "8/0", "GA");
    for state in [
        LookupState::CountingPair(k),
        LookupState::CountingTriple(k),
        LookupState::FindingExact(k),
        LookupState::FindingNearestSub2(k),
        LookupState::FindingNearestSub(k),
        LookupState::Locating(k, a),
    ] {
        assert_eq!(
            advance(
                state,
                StoreResponse::Failed(RepositoryError::MongoError("timed out".to_string())),
            ),
            Step::Done(LookupOutcome::Failed(LookupError::Store(RepositoryError::MongoError(
                "timed out".to_string()
            ))))
        );
    }
}

#[test]
fn answer_of_another_kind_is_a_store_failure() {
    let k = key(10, 1, 9, 5);
    let a = network("a", 10, 1, 3, "8/0", "GA");
    let unexpected = Step::Done(LookupOutcome::Failed(LookupError::Store(
        RepositoryError::UnexpectedResponse,
    )));
    assert_eq!(advance(LookupState::CountingPair(k), StoreResponse::Records(vec![])), unexpected);
    assert_eq!(advance(LookupState::CountingTriple(k), StoreResponse::Location(None)), unexpected);
    assert_eq!(advance(LookupState::FindingExact(k), StoreResponse::Count(1)), unexpected);
    assert_eq!(
        advance(LookupState::FindingNearestSub2(k), StoreResponse::Location(None)),
        unexpected
    );
    assert_eq!(advance(LookupState::FindingNearestSub(k), StoreResponse::Count(0)), unexpected);
    assert_eq!(
        advance(LookupState::Locating(k, a.clone()), StoreResponse::Records(vec![a.clone()])),
        unexpected
    );
    assert_eq!(advance(LookupState::Locating(k, a), StoreResponse::Count(3)), unexpected);
}

#[test]
fn repositories_answer_each_kind_of_question() {
    let a = network("a", 10, 1, 3, "8/0", "GA");
    let b = network("b", 10, 2, 5, "8/9", "GB");
    let l = place("GA", "C");
    let repos = loaded(vec![a.clone(), b.clone()], vec![l.clone()]);
    let net10 = Filter { net: Bound::Equal(10), sub: Bound::Any, sub2: Bound::Any };
    assert_eq!(ask(&repos, &StoreRequest::Count(net10)), StoreResponse::Count(2));
    assert_eq!(
        ask(&repos, &StoreRequest::Find(net10)),
        StoreResponse::Records(vec![a.clone(), b.clone()])
    );
    assert_eq!(
        ask(
            &repos,
            &StoreRequest::FindWithOptions(
                net10,
                FindOptions { limit: Some(1), sort: SortOrder::SubDescending },
            ),
        ),
        StoreResponse::Records(vec![b.clone()])
    );
    assert_eq!(
        ask(&repos, &StoreRequest::Get("GA".to_string())),
        StoreResponse::Location(Some(l))
    );
    assert_eq!(
        ask(&repos, &StoreRequest::Get("GB".to_string())),
        StoreResponse::Location(None)
    );
    let unloaded = RepositoryCollection::new(Database { ip: vec![a], location: vec![] });
    assert_eq!(
        ask(&unloaded, &StoreRequest::Count(net10)),
        StoreResponse::Failed(RepositoryError::UninitializedRepoError)
    );
    assert_eq!(
        ask(&unloaded, &StoreRequest::Get("GA".to_string())),
        StoreResponse::Failed(RepositoryError::UninitializedRepoError)
    );
}

#[test]
fn group_of_the_first_row_is_kept() {
    let a = network("a", 10, 1, 3, "8/0", "G");
    let b = network("b", 10, 2, 5, "8/9", "G");
    let c = network("c", 10, 2, 3, "8/1", "G");
    let d = network("d", 10, 1, 5, "8/1", "G");
    let rows = vec![a.clone(), b.clone(), c.clone(), d.clone()];
    assert_eq!(keep_first_sub2_group(&rows), vec![a.clone(), c.clone()]);
    assert_eq!(keep_first_sub_group(&rows), vec![a.clone(), d.clone()]);
    assert_eq!(keep_first_sub2_group(&vec![]), vec![]);
    assert_eq!(keep_first_sub_group(&vec![]), vec![]);
}

#[test]
fn finding_is_composed_of_network_and_location_fields() {
    let ip = network("net", 1, 2, 3, "24/0", "G");
    let location = place("G", "Country");
    let result = compose(key(1, 2, 3, 4), &ip, &location);
    assert_eq!(result.request_ip, "1.2.3.4");
    assert_eq!(result.network, "net");
    assert_eq!(result.lat, "lat-net");
    assert_eq!(result.lon, "lon-net");
    assert_eq!(result.accuracy, "acc-net");
    assert_eq!(result.continent, "Continent");
    assert_eq!(result.country, "Country");
    assert_eq!(result.subdivision_1_name, "First");
    assert_eq!(result.subdivision_2_name, "Second");
    assert_eq!(result.city_name, "City");
    assert_eq!(result.time_zone, "Zone/City");
    assert_eq!(
        respond(LookupOutcome::Found(key(1, 2, 3, 4), ip, location)),
        Ok(LookupResponse::Found(result))
    );
}

#[test]
fn outcome_without_a_finding_is_handed_on() {
    assert_eq!(
        respond(LookupOutcome::NotFound),
        Ok(LookupResponse::NotFound {
            error: "The request IP was not found in the database.".to_string()
        })
    );
    assert_eq!(
        respond(LookupOutcome::Failed(LookupError::InvalidAddress)),
        Err(LookupError::InvalidAddress)
    );
    assert_eq!(
        respond(LookupOutcome::Failed(LookupError::Store(RepositoryError::Other(
            "pool exhausted".to_string()
        )))),
        Err(LookupError::Store(RepositoryError::Other("pool exhausted".to_string())))
    );
}
