use hotel_analytics::analytics::{
    average_stay_totals, booking_count_for, count_available_rooms, current_or_last_hotel,
    guest_with_most_bookings, highest_rated_hotel, total_paid_per_booking, AnalyticsError,
};
use hotel_analytics::date::Date;
use hotel_analytics::models::{Booking, Guest, Hotel, Payment, Room};

fn hotel(id: &str, name: &str, stars: i32) -> Hotel {
    Hotel {
        id: Some(id.to_string()),
        name: name.to_string(),
        location: "somewhere".to_string(),
        stars,
    }
}

fn guest(id: &str, name: &str) -> Guest {
    Guest {
        id: Some(id.to_string()),
        name: name.to_string(),
        phone: "555-0100".to_string(),
        email: "guest@example.com".to_string(),
    }
}

fn booking(id: &str, guest_id: &str, hotel_id: &str, check_in: &str, check_out: &str) -> Booking {
    Booking {
        id: Some(id.to_string()),
        guest_id: guest_id.to_string(),
        room_id: "r1".to_string(),
        hotel_id: hotel_id.to_string(),
        check_in: check_in.to_string(),
        check_out: check_out.to_string(),
    }
}

fn payment(id: &str, booking_id: &str, amount_cents: i64) -> Payment {
    Payment {
        id: Some(id.to_string()),
        booking_id: booking_id.to_string(),
        amount_cents,
        method: "card".to_string(),
    }
}

fn room(id: &str, status: &str) -> Room {
    Room {
        id: Some(id.to_string()),
        hotel_id: "h1".to_string(),
        room_type: "double".to_string(),
        price_cents: 12000,
        status: status.to_string(),
    }
}

#[test]
fn highest_rated_picks_the_unique_maximum() {
    let hotels = vec![hotel("h1", "Plain", 2), hotel("h2", "Grand", 5), hotel("h3", "Fair", 4)];
    let top = highest_rated_hotel(&hotels).unwrap();
    assert_eq!(top.id.as_deref(), Some("h2"));
    assert_eq!(top.name, "Grand");
    assert_eq!(top.stars, 5);
}

#[test]
fn highest_rated_tie_winner_has_maximal_stars() {
    let hotels = vec![hotel("h1", "A", 4), hotel("h2", "B", 4), hotel("h3", "C", 1)];
    let top = highest_rated_hotel(&hotels).unwrap();
    assert_eq!(top.stars, 4);
}

#[test]
fn highest_rated_with_no_hotels_is_none() {
    let hotels: Vec<Hotel> = Vec::new();
    assert!(highest_rated_hotel(&hotels).is_none());
}

#[test]
fn booking_counts_are_exact_including_zero() {
    let bookings = vec![
        booking("b1", "g1", "h1", "2024-01-01", "2024-01-02"),
        booking("b2", "g2", "h1", "2024-01-01", "2024-01-02"),
        booking("b3", "g1", "h2", "2024-02-01", "2024-02-03"),
    ];
    assert_eq!(booking_count_for(&bookings, &"g1".to_string()), 2);
    assert_eq!(booking_count_for(&bookings, &"g2".to_string()), 1);
    assert_eq!(booking_count_for(&bookings, &"g3".to_string()), 0);
}

#[test]
fn top_guest_reports_its_exact_booking_count() {
    let guests = vec![guest("g1", "Ana"), guest("g2", "Ben"), guest("g3", "Chris")];
    let bookings = vec![
        booking("b1", "g2", "h1", "2024-01-01", "2024-01-02"),
        booking("b2", "g2", "h1", "2024-03-01", "2024-03-02"),
        booking("b3", "g1", "h1", "2024-02-01", "2024-02-03"),
    ];
    let (top, count) = guest_with_most_bookings(&guests, &bookings).unwrap();
    assert_eq!(top.id.as_deref(), Some("g2"));
    assert_eq!(top.name, "Ben");
    assert_eq!(count, 2);
}

#[test]
fn top_guest_with_no_guests_is_none() {
    let guests: Vec<Guest> = Vec::new();
    let bookings: Vec<Booking> = Vec::new();
    assert!(guest_with_most_bookings(&guests, &bookings).is_none());
}

#[test]
fn top_guest_counts_zero_bookings() {
    let guests = vec![guest("g1", "Ana")];
    let bookings: Vec<Booking> = Vec::new();
    let (top, count) = guest_with_most_bookings(&guests, &bookings).unwrap();
    assert_eq!(top.id.as_deref(), Some("g1"));
    assert_eq!(count, 0);
}

#[test]
fn average_stay_of_a_single_three_night_booking_is_three_days() {
    let bookings = vec![booking("b1", "g1", "h1", "2024-01-01", "2024-01-04")];
    let totals = average_stay_totals(&bookings);
    assert_eq!(totals.total_days, 3);
    assert_eq!(totals.counted, 1);
    let average = totals.total_days as f64 / totals.counted as f64;
    assert_eq!(average, 3.0);
}

#[test]
fn average_stay_with_zero_bookings_is_zero() {
    let bookings: Vec<Booking> = Vec::new();
    let totals = average_stay_totals(&bookings);
    assert_eq!(totals.total_days, 0);
    assert_eq!(totals.counted, 0);
    let average = if totals.counted == 0 {
        0.0
    } else {
        totals.total_days as f64 / totals.counted as f64
    };
    assert_eq!(average, 0.0);
}

#[test]
fn average_stay_skips_bookings_with_unparseable_dates() {
    let bookings = vec![
        booking("b1", "g1", "h1", "2024-01-01", "2024-01-03"),
        booking("b2", "g1", "h1", "bad", "2024-01-05"),
    ];
    let totals = average_stay_totals(&bookings);
    assert_eq!(totals.total_days, 2);
    assert_eq!(totals.counted, 1);
}

#[test]
fn current_or_last_prefers_the_active_booking() {
    let hotels = vec![hotel("h1", "Past Inn", 3), hotel("h2", "Current Inn", 4)];
    let bookings = vec![
        booking("b1", "g1", "h1", "2024-01-01", "2024-01-05"),
        booking("b2", "g1", "h2", "2024-06-01", "2024-06-10"),
    ];
    let today = Date { year: 2024, month: 6, day: 5 };
    let found = current_or_last_hotel(&"g1".to_string(), &bookings, &hotels, &today)
        .unwrap()
        .unwrap();
    assert_eq!(found.id.as_deref(), Some("h2"));
    assert_eq!(found.name, "Current Inn");
}

#[test]
fn current_or_last_takes_the_later_checkout_among_past_stays() {
    let hotels = vec![hotel("h1", "Older Inn", 3), hotel("h2", "Newer Inn", 4)];
    let bookings = vec![
        booking("b1", "g1", "h2", "2024-03-01", "2024-03-05"),
        booking("b2", "g1", "h1", "2024-01-01", "2024-01-05"),
    ];
    let today = Date { year: 2024, month: 6, day: 5 };
    let found = current_or_last_hotel(&"g1".to_string(), &bookings, &hotels, &today)
        .unwrap()
        .unwrap();
    assert_eq!(found.id.as_deref(), Some("h2"));
    assert_eq!(found.name, "Newer Inn");
}

#[test]
fn current_or_last_without_matching_bookings_is_none() {
    let hotels = vec![hotel("h1", "Inn", 3)];
    let bookings = vec![booking("b1", "g2", "h1", "2024-01-01", "2024-01-05")];
    let today = Date { year: 2024, month: 6, day: 5 };
    let found = current_or_last_hotel(&"g1".to_string(), &bookings, &hotels, &today).unwrap();
    assert!(found.is_none());
}

#[test]
fn current_or_last_ignores_bookings_of_missing_hotels() {
    let hotels = vec![hotel("h1", "Inn", 3)];
    let bookings = vec![booking("b1", "g1", "gone", "2024-01-01", "2024-01-05")];
    let today = Date { year: 2024, month: 6, day: 5 };
    let found = current_or_last_hotel(&"g1".to_string(), &bookings, &hotels, &today).unwrap();
    assert!(found.is_none());
}

#[test]
fn current_or_last_reports_an_invalid_date() {
    let hotels = vec![hotel("h1", "Inn", 3)];
    let bookings = vec![booking("b1", "g1", "h1", "2024-01-xx", "2024-01-05")];
    let today = Date { year: 2024, month: 6, day: 5 };
    let r = current_or_last_hotel(&"g1".to_string(), &bookings, &hotels, &today);
    assert_eq!(r.unwrap_err(), AnalyticsError::InvalidDate);
}

#[test]
fn totals_sum_each_booking_and_omit_unpaid_ones() {
    let payments = vec![
        payment("p1", "b1", 3000),
        payment("p2", "b2", 1500),
        payment("p3", "b1", 2000),
    ];
    let totals = total_paid_per_booking(&payments);
    assert_eq!(totals.len(), 2);
    assert_eq!(totals[0].booking_id, "b1");
    assert_eq!(totals[0].total_cents, 5000);
    assert_eq!(totals[1].booking_id, "b2");
    assert_eq!(totals[1].total_cents, 1500);
    assert!(totals.iter().all(|t| t.booking_id != "b3"));
    let paid = totals[0].total_cents as f64 / 100.0;
    assert_eq!(paid, 50.0);
}

#[test]
fn totals_with_no_payments_are_empty() {
    let payments: Vec<Payment> = Vec::new();
    assert!(total_paid_per_booking(&payments).is_empty());
}

#[test]
fn available_rooms_are_counted_exactly() {
    let rooms = vec![
        room("r1", "available"),
        room("r2", "occupied"),
        room("r3", "available"),
        room("r4", "cleaning"),
    ];
    assert_eq!(count_available_rooms(&rooms), 2);
    let none: Vec<Room> = Vec::new();
    assert_eq!(count_available_rooms(&none), 0);
}
