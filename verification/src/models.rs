//! The entity rows of the store, as plain values. Monetary amounts are
//! held in cents, so they stay in integer arithmetic; booking dates are
//! `YYYY-MM-DD` strings exactly as stored.

use vstd::prelude::*;

verus! {

/// A hotel row. `id` is `None` until the store assigns one.
#[derive(Debug)]
pub struct Hotel {
    pub id: Option<String>,
    pub name: String,
    pub location: String,
    pub stars: i32,
}

/// A room row; `status` is free text, `"available"` marking a free room.
#[derive(Debug)]
pub struct Room {
    pub id: Option<String>,
    pub hotel_id: String,
    pub room_type: String,
    pub price_cents: i64,
    pub status: String,
}

/// A guest row.
#[derive(Debug)]
pub struct Guest {
    pub id: Option<String>,
    pub name: String,
    pub phone: String,
    pub email: String,
}

/// A booking row. The dates are stored as strings; nothing enforces that
/// they parse or that `check_in` precedes `check_out`.
#[derive(Debug)]
pub struct Booking {
    pub id: Option<String>,
    pub guest_id: String,
    pub room_id: String,
    pub hotel_id: String,
    pub check_in: String,
    pub check_out: String,
}

/// A payment row; `amount_cents` may be any value, nothing enforces a
/// positive amount.
#[derive(Debug)]
pub struct Payment {
    pub id: Option<String>,
    pub booking_id: String,
    pub amount_cents: i64,
    pub method: String,
}

fn clone_opt_string(s: &Option<String>) -> (r: Option<String>)
    ensures
        r == *s,
{
    match s {
        Some(v) => Some(v.clone()),
        None => None,
    }
}

impl Clone for Hotel {
    fn clone(&self) -> (r: Self)
        ensures
            r == *self,
    {
        Hotel {
            id: clone_opt_string(&self.id),
            name: self.name.clone(),
            location: self.location.clone(),
            stars: self.stars,
        }
    }
}

impl Clone for Guest {
    fn clone(&self) -> (r: Self)
        ensures
            r == *self,
    {
        Guest {
            id: clone_opt_string(&self.id),
            name: self.name.clone(),
            phone: self.phone.clone(),
            email: self.email.clone(),
        }
    }
}

impl Clone for Booking {
    fn clone(&self) -> (r: Self)
        ensures
            r == *self,
    {
        Booking {
            id: clone_opt_string(&self.id),
            guest_id: self.guest_id.clone(),
            room_id: self.room_id.clone(),
            hotel_id: self.hotel_id.clone(),
            check_in: self.check_in.clone(),
            check_out: self.check_out.clone(),
        }
    }
}

impl Clone for Payment {
    fn clone(&self) -> (r: Self)
        ensures
            r == *self,
    {
        Payment {
            id: clone_opt_string(&self.id),
            booking_id: self.booking_id.clone(),
            amount_cents: self.amount_cents,
            method: self.method.clone(),
        }
    }
}

impl Clone for Room {
    fn clone(&self) -> (r: Self)
        ensures
            r == *self,
    {
        Room {
            id: clone_opt_string(&self.id),
            hotel_id: self.hotel_id.clone(),
            room_type: self.room_type.clone(),
            price_cents: self.price_cents,
            status: self.status.clone(),
        }
    }
}

} // verus!
