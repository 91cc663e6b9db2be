//! Verified analytics for a hotel-booking inventory.
//!
//! The library models the rows of a hotel/guest/booking/payment store as
//! plain values and computes the derived facts the service reports:
//! the highest-rated hotel, the guest with the most bookings, the average
//! stay duration, the current or last hotel of a guest, and the total paid
//! per booking. Calendar arithmetic works on whole days; money is held in
//! cents.

pub mod analytics;
pub mod date;
pub mod models;
pub mod store;
