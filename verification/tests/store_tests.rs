use hotel_analytics::store::{HotelStore, StoreError};

#[test]
fn created_hotel_comes_back_identical_under_a_fresh_id() {
    let mut store = HotelStore::new();
    let id = store
        .create_hotel("Grand".to_string(), "Lisbon".to_string(), 5)
        .unwrap();
    assert!(!id.is_empty());
    assert_eq!(id.chars().count(), 36);
    let fetched = store.get_hotel(&id).unwrap();
    assert_eq!(fetched.id.as_deref(), Some(id.as_str()));
    assert_eq!(fetched.name, "Grand");
    assert_eq!(fetched.location, "Lisbon");
    assert_eq!(fetched.stars, 5);
}

#[test]
fn each_creation_gets_its_own_id() {
    let mut store = HotelStore::new();
    let a = store
        .create_hotel("One".to_string(), "A".to_string(), 1)
        .unwrap();
    let b = store
        .create_hotel("Two".to_string(), "B".to_string(), 2)
        .unwrap();
    assert_ne!(a, b);
    assert_eq!(store.get_hotel(&a).unwrap().name, "One");
    assert_eq!(store.get_hotel(&b).unwrap().name, "Two");
}

#[test]
fn lookup_of_an_absent_id_is_none() {
    let store = HotelStore::new();
    assert!(store.get_hotel(&"missing".to_string()).is_none());
    assert!(!store.contains_id(&"missing".to_string()));
}

#[test]
fn inserting_under_a_taken_id_is_refused() {
    let mut store = HotelStore::new();
    store
        .insert_hotel_with_id("h1".to_string(), "One".to_string(), "A".to_string(), 1)
        .unwrap();
    let r = store.insert_hotel_with_id("h1".to_string(), "Two".to_string(), "B".to_string(), 2);
    assert_eq!(r.unwrap_err(), StoreError::DuplicateId);
    assert_eq!(store.get_hotel(&"h1".to_string()).unwrap().name, "One");
}
