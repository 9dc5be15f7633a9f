use spotme::models::ip::{push_selected, sort_by_sub_descending, Ip, IpRepository};
use spotme::models::location::{Location, LocationRepository};
use spotme::models::{
    Bound, Database, Filter, FindOptions, RepositoryCollection, RepositoryError, SortOrder,
};

fn record(name: &str, net: u8, sub: u8, sub2: u8) -> Ip {
    let mut ip = Ip::new();
    ip.network = name.to_string();
    ip.net = net;
    ip.sub = sub;
    ip.sub2 = sub2;
    ip.netmask = "24/0".to_string();
    ip
}

fn site(geoname_id: &str, city: &str) -> Location {
    let mut location = Location::new();
    location.geoname_id = geoname_id.to_string();
    location.city_name = city.to_string();
    location
}

fn names(rows: &[Ip]) -> Vec<&str> {
    rows.iter().map(|ip| ip.network.as_str()).collect()
}

fn sample() -> Vec<Ip> {
    vec![
        record("a", 10, 1, 3),
        record("b", 10, 4, 5),
        record("c", 11, 1, 3),
        record("d", 10, 1, 9),
        record("e", 10, 4, 0),
        record("f", 10, 0, 255),
        record("g", 10, 255, 0),
    ]
}

fn filled() -> IpRepository {
    let mut repository = IpRepository::default();
    repository.init(sample()).unwrap();
    repository
}

const ANY: Filter = Filter { net: Bound::Any, sub: Bound::Any, sub2: Bound::Any };

#[test]
fn bound_admits_what_it_says() {
    assert!(Bound::Any.test(0) && Bound::Any.test(255));
    assert!(Bound::Equal(7).test(7));
    assert!(!Bound::Equal(7).test(6) && !Bound::Equal(7).test(8));
    assert!(Bound::AtMost(7).test(0) && Bound::AtMost(7).test(7));
    assert!(!Bound::AtMost(7).test(8));
    assert!(Bound::AtMost(0).test(0) && !Bound::AtMost(0).test(1));
}

#[test]
fn filter_is_the_conjunction_of_its_bounds() {
    let filter = Filter { net: Bound::Equal(10), sub: Bound::AtMost(4), sub2: Bound::AtMost(5) };
    assert!(filter.test(10, 4, 5));
    assert!(filter.test(10, 0, 0));
    assert!(!filter.test(11, 4, 5));
    assert!(!filter.test(10, 5, 5));
    assert!(!filter.test(10, 4, 6));
    assert!(ANY.test(1, 2, 3));
}

#[test]
fn records_are_new_with_empty_fields() {
    let ip = Ip::new();
    assert_eq!(
        (ip.network.as_str(), ip.geoname_id.as_str(), ip.latitude.as_str()),
        ("", "", "")
    );
    assert_eq!((ip.longitude.as_str(), ip.accuracy_radius.as_str(), ip.netmask.as_str()), ("", "", ""));
    assert_eq!((ip.net, ip.sub, ip.sub2), (0, 0, 0));
    let location = Location::new();
    assert_eq!(location.geoname_id, "");
    assert_eq!(location.continent_name, "");
    assert_eq!(location.country_name, "");
    assert_eq!(location.subdivision_1_name, "");
    assert_eq!(location.subdivision_2_name, "");
    assert_eq!(location.city_name, "");
    assert_eq!(location.time_zone, "");
}

#[test]
fn clone_of_a_record_equals_it() {
    let mut ip = record("a", 1, 2, 3);
    ip.latitude = "1.5".to_string();
    assert_eq!(ip.clone(), ip);
    let location = site("G", "City");
    assert_eq!(location.clone(), location);
}

#[test]
fn count_is_the_number_of_records_that_pass() {
    let repository = filled();
    assert_eq!(repository.count(ANY), Ok(7));
    let net10 = Filter { net: Bound::Equal(10), sub: Bound::Any, sub2: Bound::Any };
    assert_eq!(repository.count(net10), Ok(6));
    let pair = Filter { net: Bound::Equal(10), sub: Bound::Equal(1), sub2: Bound::Any };
    assert_eq!(repository.count(pair), Ok(2));
    let triple = Filter { net: Bound::Equal(10), sub: Bound::Equal(1), sub2: Bound::Equal(9) };
    assert_eq!(repository.count(triple), Ok(1));
    let none = Filter { net: Bound::Equal(12), sub: Bound::Any, sub2: Bound::Any };
    assert_eq!(repository.count(none), Ok(0));
}

#[test]
fn find_keeps_the_stored_order() {
    let repository = filled();
    let net10 = Filter { net: Bound::Equal(10), sub: Bound::AtMost(4), sub2: Bound::AtMost(9) };
    assert_eq!(names(&repository.find(net10).unwrap()), ["a", "b", "d", "e"]);
    assert_eq!(names(&repository.find(ANY).unwrap()), ["a", "b", "c", "d", "e", "f", "g"]);
    assert_eq!(repository.get_all().unwrap(), sample());
}

#[test]
fn find_orders_by_sub_descending_and_keeps_ties_in_stored_order() {
    let repository = filled();
    let sorted = FindOptions { limit: None, sort: SortOrder::SubDescending };
    assert_eq!(
        names(&repository.find_with_options(ANY, sorted).unwrap()),
        ["g", "b", "e", "a", "c", "d", "f"]
    );
    assert_eq!(
        names(&sort_by_sub_descending(&sample())),
        ["g", "b", "e", "a", "c", "d", "f"]
    );
    assert!(sort_by_sub_descending(&vec![]).is_empty());
    let stored = FindOptions { limit: None, sort: SortOrder::Stored };
    assert_eq!(
        names(&repository.find_with_options(ANY, stored).unwrap()),
        ["a", "b", "c", "d", "e", "f", "g"]
    );
}

#[test]
fn find_cuts_off_after_ordering() {
    let repository = filled();
    let net10 = Filter { net: Bound::Equal(10), sub: Bound::AtMost(4), sub2: Bound::Any };
    let cut = |limit: u64, sort: SortOrder| {
        let rows = repository
            .find_with_options(net10, FindOptions { limit: Some(limit), sort })
            .unwrap();
        rows.iter().map(|ip| ip.network.clone()).collect::<Vec<String>>()
    };
    assert_eq!(cut(3, SortOrder::SubDescending), ["b", "e", "a"]);
    assert_eq!(cut(1, SortOrder::SubDescending), ["b"]);
    assert_eq!(cut(0, SortOrder::SubDescending), Vec::<String>::new());
    assert_eq!(cut(5, SortOrder::SubDescending), ["b", "e", "a", "d", "f"]);
    assert_eq!(cut(6, SortOrder::SubDescending), ["b", "e", "a", "d", "f"]);
    assert_eq!(cut(u64::MAX, SortOrder::SubDescending), ["b", "e", "a", "d", "f"]);
    assert_eq!(cut(2, SortOrder::Stored), ["a", "b"]);
}

#[test]
fn selected_records_are_appended() {
    let mut out = vec![record("z", 0, 0, 0)];
    let sub1 = Filter { net: Bound::Any, sub: Bound::Equal(1), sub2: Bound::Any };
    push_selected(&mut out, &sample(), &sub1);
    assert_eq!(names(&out), ["z", "a", "c", "d"]);
}

#[test]
fn uninitialised_repository_refuses_every_question() {
    let repository = IpRepository::default();
    let refused = RepositoryError::UninitializedRepoError;
    assert_eq!(repository.count(ANY), Err(RepositoryError::UninitializedRepoError));
    assert_eq!(repository.find(ANY), Err(RepositoryError::UninitializedRepoError));
    assert_eq!(
        repository.find_with_options(ANY, FindOptions { limit: None, sort: SortOrder::Stored }),
        Err(RepositoryError::UninitializedRepoError)
    );
    assert_eq!(repository.get_all(), Err(RepositoryError::UninitializedRepoError));
    let locations = LocationRepository::default();
    assert_eq!(locations.get("G"), Err(RepositoryError::UninitializedRepoError));
    assert_eq!(locations.get_all(), Err(refused));
}

#[test]
fn location_is_found_by_its_identifier() {
    let mut locations = LocationRepository::default();
    locations
        .init(vec![site("G1", "One"), site("G2", "Two"), site("G1", "Again")])
        .unwrap();
    assert_eq!(locations.get("G1"), Ok(Some(site("G1", "One"))));
    assert_eq!(locations.get("G2"), Ok(Some(site("G2", "Two"))));
    assert_eq!(locations.get("G3"), Ok(None));
    assert_eq!(locations.get("g1"), Ok(None));
    assert_eq!(locations.get(""), Ok(None));
    assert_eq!(locations.get_all().unwrap().len(), 3);
}

#[test]
fn init_replaces_what_a_repository_held() {
    let mut repository = filled();
    repository.init(vec![record("only", 1, 1, 1)]).unwrap();
    assert_eq!(repository.count(ANY), Ok(1));
    let copy = repository.clone();
    assert_eq!(copy.get_all(), repository.get_all());
}

#[test]
fn collection_is_loaded_from_its_database() {
    let database = Database { ip: sample(), location: vec![site("G", "City")] };
    let mut repos = RepositoryCollection::new(database.clone());
    assert_eq!(repos.ip.count(ANY), Err(RepositoryError::UninitializedRepoError));
    assert_eq!(repos.location.get("G"), Err(RepositoryError::UninitializedRepoError));
    assert_eq!(repos.load_repositories(), Ok(()));
    assert_eq!(repos.ip.get_all(), Ok(sample()));
    assert_eq!(repos.location.get("G"), Ok(Some(site("G", "City"))));
    assert_eq!(repos.db_instance.ip, sample());
    let copy = repos.clone();
    assert_eq!(copy.ip.get_all(), Ok(sample()));
    assert_eq!(copy.location.get_all(), repos.location.get_all());
}

#[test]
fn text_becomes_the_error_that_carries_it() {
    assert_eq!(
        RepositoryError::from("pool timed out".to_string()),
        RepositoryError::Other("pool timed out".to_string())
    );
}

#[test]
fn record_is_well_formed_when_its_key_is_that_of_its_network() {
    let mut ip = record("203.0.113.0/24", 203, 0, 113);
    ip.netmask = "0/24".to_string();
    assert!(ip.is_well_formed());
    assert!(record("203.0.113.0", 203, 0, 113).is_well_formed());
    assert!(record("203.0.113.77/32/x", 203, 0, 113).is_well_formed());
    assert!(!record("203.0.113.0/24", 203, 0, 114).is_well_formed());
    assert!(!record("203.0.113.0/24", 203, 1, 113).is_well_formed());
    assert!(!record("203.0.113.0/24", 204, 0, 113).is_well_formed());
    assert!(!record("203.0.113/24", 203, 0, 113).is_well_formed());
    assert!(!record("203.0.113.0 /24", 203, 0, 113).is_well_formed());
    assert!(!record("/24", 0, 0, 0).is_well_formed());
    assert!(!record("", 0, 0, 0).is_well_formed());
    assert!(!Ip::new().is_well_formed());
    let mut unreadable = record("203.0.113.0/24", 203, 0, 113);
    unreadable.netmask = "24".to_string();
    assert!(!unreadable.is_well_formed());
}
