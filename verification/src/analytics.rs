//! The derived-fact queries over the stored rows: ranking, counting,
//! aggregation and date arithmetic. Each query takes the table contents as
//! plain row vectors and computes its result exactly as stated in its
//! contract.

use vstd::prelude::*;
use vstd::arithmetic::mul::lemma_mul_inequality;
use crate::date::{Date, day_number, parse_date, spec_day_number, spec_parse_date};
use crate::models::{Booking, Guest, Hotel, Payment, Room};

verus! {

/// Index `i` holds the first hotel of maximal star rating: every hotel
/// rates at most as high, and every earlier one strictly lower.
pub open spec fn is_first_max_hotel(hotels: Seq<Hotel>, i: int) -> bool {
    &&& 0 <= i < hotels.len()
    &&& forall|j: int| 0 <= j < hotels.len() ==> hotels[j].stars <= hotels[i].stars
    &&& forall|j: int| 0 <= j < i ==> hotels[j].stars < hotels[i].stars
}

/// The highest-rated hotel: `None` exactly when there are no hotels, else
/// the first hotel whose star rating no other exceeds. Among equally rated
/// hotels the earliest row wins; callers should treat the tie-break as
/// unspecified.
pub fn highest_rated_hotel(hotels: &Vec<Hotel>) -> (r: Option<Hotel>)
    ensures
        (r is None) <==> hotels@.len() == 0,
        r matches Some(h) ==> exists|i: int| is_first_max_hotel(hotels@, i) && h == hotels@[i],
{
    if hotels.len() == 0 {
        return None;
    }
    let mut best: usize = 0;
    let mut i: usize = 1;
    while i < hotels.len()
        invariant
            best < i <= hotels@.len(),
            forall|j: int| 0 <= j < i ==> hotels@[j].stars <= hotels@[best as int].stars,
            forall|j: int| 0 <= j < best ==> hotels@[j].stars < hotels@[best as int].stars,
        decreases hotels@.len() - i,
    {
        if hotels[i].stars > hotels[best].stars {
            best = i;
        }
        i = i + 1;
    }
    let top = hotels[best].clone();
    proof {
        assert(is_first_max_hotel(hotels@, best as int));
    }
    Some(top)
}

/// When exactly one hotel carries the maximal star rating, the
/// highest-rated query returns exactly that hotel: any value meeting the
/// query's contract is the unique maximum.
pub proof fn lemma_highest_rated_unique_max(hotels: Seq<Hotel>, u: int, h: Hotel)
    requires
        0 <= u < hotels.len(),
        forall|j: int| 0 <= j < hotels.len() && j != u ==> hotels[j].stars < hotels[u].stars,
        exists|i: int| is_first_max_hotel(hotels, i) && h == hotels[i],
    ensures
        h == hotels[u],
{
    let i = choose|i: int| is_first_max_hotel(hotels, i) && h == hotels[i];
    if i != u {
        assert(hotels[u].stars <= hotels[i].stars);
        assert(hotels[i].stars < hotels[u].stars);
    }
}

/// Count of rooms whose status is exactly `"available"`.
pub open spec fn spec_available_count(rooms: Seq<Room>) -> int
    decreases rooms.len(),
{
    if rooms.len() == 0 {
        0
    } else {
        spec_available_count(rooms.drop_last()) + if rooms.last().status@ == "available"@ {
            1int
        } else {
            0
        }
    }
}

/// Counts the rooms whose status is `"available"`.
pub fn count_available_rooms(rooms: &Vec<Room>) -> (r: usize)
    ensures
        r == spec_available_count(rooms@),
{
    let avail: String = "available".to_owned();
    let mut count: usize = 0;
    let mut i: usize = 0;
    while i < rooms.len()
        invariant
            i <= rooms@.len(),
            count <= i,
            avail@ == "available"@,
            count == spec_available_count(rooms@.take(i as int)),
        decreases rooms@.len() - i,
    {
        proof {
            assert(rooms@.take(i + 1).drop_last() =~= rooms@.take(i as int));
            assert(rooms@.take(i + 1).last() == rooms@[i as int]);
        }
        if rooms[i].status == avail {
            count = count + 1;
        }
        i = i + 1;
    }
    proof {
        assert(rooms@.take(rooms@.len() as int) =~= rooms@);
    }
    count
}

/// Number of booking rows whose `guest_id` equals `gid`.
pub open spec fn spec_booking_count(bookings: Seq<Booking>, gid: Seq<char>) -> int
    decreases bookings.len(),
{
    if bookings.len() == 0 {
        0
    } else {
        spec_booking_count(bookings.drop_last(), gid) + if bookings.last().guest_id@ == gid {
            1int
        } else {
            0
        }
    }
}

/// Bookings attributed to a guest: those whose `guest_id` equals the
/// guest's id. A guest not yet given an id matches no booking.
pub open spec fn spec_guest_booking_count(bookings: Seq<Booking>, g: Guest) -> int {
    match g.id {
        Some(gid) => spec_booking_count(bookings, gid@),
        None => 0,
    }
}

/// Counts the booking rows whose `guest_id` equals `guest_id`, including
/// zero when none matches.
pub fn booking_count_for(bookings: &Vec<Booking>, guest_id: &String) -> (r: usize)
    ensures
        r == spec_booking_count(bookings@, guest_id@),
{
    let mut count: usize = 0;
    let mut i: usize = 0;
    while i < bookings.len()
        invariant
            i <= bookings@.len(),
            count <= i,
            count == spec_booking_count(bookings@.take(i as int), guest_id@),
        decreases bookings@.len() - i,
    {
        proof {
            assert(bookings@.take(i + 1).drop_last() =~= bookings@.take(i as int));
            assert(bookings@.take(i + 1).last() == bookings@[i as int]);
        }
        if bookings[i].guest_id == *guest_id {
            count = count + 1;
        }
        i = i + 1;
    }
    proof {
        assert(bookings@.take(bookings@.len() as int) =~= bookings@);
    }
    count
}

/// Index `i` holds the first guest of maximal booking count.
pub open spec fn is_first_top_guest(guests: Seq<Guest>, bookings: Seq<Booking>, i: int) -> bool {
    &&& 0 <= i < guests.len()
    &&& forall|j: int|
        0 <= j < guests.len() ==> spec_guest_booking_count(bookings, guests[j])
            <= spec_guest_booking_count(bookings, guests[i])
    &&& forall|j: int|
        0 <= j < i ==> spec_guest_booking_count(bookings, guests[j]) < spec_guest_booking_count(
            bookings,
            guests[i],
        )
}

/// The guest with the most bookings, together with that guest's exact
/// booking count (counting zero). `None` exactly when there are no guests.
/// Among guests of equal count the earliest row wins; callers should treat
/// the tie-break as unspecified.
pub fn guest_with_most_bookings(guests: &Vec<Guest>, bookings: &Vec<Booking>) -> (r: Option<
    (Guest, usize),
>)
    ensures
        (r is None) <==> guests@.len() == 0,
        r matches Some(p) ==> exists|i: int|
            is_first_top_guest(guests@, bookings@, i) && p.0 == guests@[i] && p.1
                == spec_guest_booking_count(bookings@, guests@[i]),
{
    if guests.len() == 0 {
        return None;
    }
    let first_count = match &guests[0].id {
        Some(gid) => booking_count_for(bookings, gid),
        None => 0,
    };
    let mut best: usize = 0;
    let mut best_count: usize = first_count;
    let mut i: usize = 1;
    while i < guests.len()
        invariant
            best < i <= guests@.len(),
            best_count == spec_guest_booking_count(bookings@, guests@[best as int]),
            forall|j: int|
                0 <= j < i ==> spec_guest_booking_count(bookings@, guests@[j])
                    <= best_count as int,
            forall|j: int|
                0 <= j < best ==> spec_guest_booking_count(bookings@, guests@[j])
                    < best_count as int,
        decreases guests@.len() - i,
    {
        let count = match &guests[i].id {
            Some(gid) => booking_count_for(bookings, gid),
            None => 0,
        };
        if count > best_count {
            best = i;
            best_count = count;
        }
        i = i + 1;
    }
    let top = guests[best].clone();
    proof {
        assert(is_first_top_guest(guests@, bookings@, best as int));
    }
    Some((top, best_count))
}

/// When exactly one guest carries the maximal booking count, the
/// top-guest query returns exactly that guest with that count: any pair
/// meeting the query's contract is the unique maximum and its exact count.
pub proof fn lemma_top_guest_unique_max(
    guests: Seq<Guest>,
    bookings: Seq<Booking>,
    u: int,
    p: (Guest, usize),
)
    requires
        0 <= u < guests.len(),
        forall|j: int|
            0 <= j < guests.len() && j != u ==> spec_guest_booking_count(bookings, guests[j])
                < spec_guest_booking_count(bookings, guests[u]),
        exists|i: int|
            is_first_top_guest(guests, bookings, i) && p.0 == guests[i] && p.1
                == spec_guest_booking_count(bookings, guests[i]),
    ensures
        p.0 == guests[u],
        p.1 == spec_guest_booking_count(bookings, guests[u]),
{
    let i = choose|i: int|
        is_first_top_guest(guests, bookings, i) && p.0 == guests[i] && p.1
            == spec_guest_booking_count(bookings, guests[i]);
    if i != u {
        assert(spec_guest_booking_count(bookings, guests[u]) <= spec_guest_booking_count(
            bookings,
            guests[i],
        ));
    }
}

/// Both dates of a booking are well-formed `YYYY-MM-DD` strings.
pub open spec fn spec_dates_ok(b: Booking) -> bool {
    &&& spec_parse_date(b.check_in@) is Some
    &&& spec_parse_date(b.check_out@) is Some
}

/// Stay length of a booking in whole calendar days, check-out day minus
/// check-in day. Meaningful when `spec_dates_ok` holds; negative when the
/// stored check-out precedes the check-in, which nothing forbids.
pub open spec fn spec_nights(b: Booking) -> int {
    spec_day_number(spec_parse_date(b.check_out@)->Some_0) - spec_day_number(
        spec_parse_date(b.check_in@)->Some_0,
    )
}

/// Sum of the stay lengths of the bookings whose dates parse; a booking
/// with an unparseable date contributes nothing, as a null row does to an
/// aggregate.
pub open spec fn spec_total_nights(s: Seq<Booking>) -> int
    decreases s.len(),
{
    if s.len() == 0 {
        0
    } else {
        spec_total_nights(s.drop_last()) + if spec_dates_ok(s.last()) {
            spec_nights(s.last())
        } else {
            0
        }
    }
}

/// Number of bookings whose dates parse.
pub open spec fn spec_dated_count(s: Seq<Booking>) -> int
    decreases s.len(),
{
    if s.len() == 0 {
        0
    } else {
        spec_dated_count(s.drop_last()) + if spec_dates_ok(s.last()) {
            1int
        } else {
            0
        }
    }
}

/// The exact numerator and denominator of the mean stay: total nights over
/// the bookings with parseable dates, and how many such bookings there
/// are. The mean itself is `total_days / counted`, taken as zero when
/// `counted` is zero.
pub struct StayTotals {
    pub total_days: i128,
    pub counted: usize,
}

/// Aggregates the stay lengths of all bookings: the sum of check-out day
/// minus check-in day over every booking whose two dates parse, and the
/// count of those bookings. With no bookings, or none that parses, both
/// parts are zero, so the mean is zero rather than an error.
pub fn average_stay_totals(bookings: &Vec<Booking>) -> (r: StayTotals)
    ensures
        r.total_days == spec_total_nights(bookings@),
        r.counted == spec_dated_count(bookings@),
{
    let mut total: i128 = 0;
    let mut counted: usize = 0;
    let mut i: usize = 0;
    while i < bookings.len()
        invariant
            i <= bookings@.len(),
            counted <= i,
            total == spec_total_nights(bookings@.take(i as int)),
            counted == spec_dated_count(bookings@.take(i as int)),
            -(i as int) * 3_660_500 <= total <= (i as int) * 3_660_500,
        decreases bookings@.len() - i,
    {
        proof {
            assert(bookings@.take(i + 1).drop_last() =~= bookings@.take(i as int));
            assert(bookings@.take(i + 1).last() == bookings@[i as int]);
            lemma_mul_inequality(i as int, 0xffff_ffff_ffff_ffff, 3_660_500);
            lemma_mul_inequality(i + 1, 0x1_0000_0000_0000_0000, 3_660_500);
        }
        let b = &bookings[i];
        let ci = parse_date(b.check_in.as_str());
        let co = parse_date(b.check_out.as_str());
        match (ci, co) {
            (Some(cin), Some(cout)) => {
                let din = day_number(&cin);
                let dout = day_number(&cout);
                total = total + (dout as i128 - din as i128);
                counted = counted + 1;
            },
            _ => {},
        }
        i = i + 1;
    }
    proof {
        assert(bookings@.take(bookings@.len() as int) =~= bookings@);
    }
    StayTotals { total_days: total, counted }
}

/// Sum in cents of the payments whose `booking_id` equals `bid`.
pub open spec fn spec_sum_paid(payments: Seq<Payment>, bid: Seq<char>) -> int
    decreases payments.len(),
{
    if payments.len() == 0 {
        0
    } else {
        spec_sum_paid(payments.drop_last(), bid) + if payments.last().booking_id@ == bid {
            payments.last().amount_cents as int
        } else {
            0
        }
    }
}

/// The distinct booking ids among the payments, each at the position of
/// its first occurrence.
pub open spec fn spec_booking_ids(payments: Seq<Payment>) -> Seq<Seq<char>>
    decreases payments.len(),
{
    if payments.len() == 0 {
        Seq::empty()
    } else {
        let rest = spec_booking_ids(payments.drop_last());
        if rest.contains(payments.last().booking_id@) {
            rest
        } else {
            rest.push(payments.last().booking_id@)
        }
    }
}

/// A booking id is listed among `spec_booking_ids` exactly when some
/// payment carries it: a booking with no payment does not appear in the
/// per-booking totals, and one with a payment always does.
pub proof fn lemma_booking_ids_membership(payments: Seq<Payment>, bid: Seq<char>)
    ensures
        spec_booking_ids(payments).contains(bid) <==> exists|i: int|
            0 <= i < payments.len() && payments[i].booking_id@ == bid,
    decreases payments.len(),
{
    if payments.len() > 0 {
        lemma_booking_ids_membership(payments.drop_last(), bid);
        let rest = spec_booking_ids(payments.drop_last());
        if payments.last().booking_id@ == bid {
            if rest.contains(bid) {
                assert(payments[payments.len() - 1].booking_id@ == bid);
            } else {
                assert(rest.push(bid)[rest.len() as int] == bid);
                assert(payments[payments.len() - 1].booking_id@ == bid);
            }
        } else {
            if spec_booking_ids(payments).contains(bid) {
                if !rest.contains(bid) {
                    let k = choose|k: int|
                        0 <= k < rest.push(payments.last().booking_id@).len() && rest.push(
                            payments.last().booking_id@,
                        )[k] == bid;
                    assert(rest[k] == bid);
                }
                let i = choose|i: int|
                    0 <= i < payments.drop_last().len() && payments.drop_last()[i].booking_id@
                        == bid;
                assert(payments[i].booking_id@ == bid);
            }
            if exists|i: int| 0 <= i < payments.len() && payments[i].booking_id@ == bid {
                let i = choose|i: int|
                    0 <= i < payments.len() && payments[i].booking_id@ == bid;
                assert(payments.drop_last()[i].booking_id@ == bid);
                assert(rest.contains(bid));
                if !rest.contains(payments.last().booking_id@) {
                    let k = choose|k: int| 0 <= k < rest.len() && rest[k] == bid;
                    assert(rest.push(payments.last().booking_id@)[k] == bid);
                }
            }
        }
    }
}

pub proof fn lemma_sum_paid_bound(payments: Seq<Payment>, bid: Seq<char>)
    ensures
        -(payments.len() as int) * 0x8000_0000_0000_0000 <= spec_sum_paid(payments, bid) <= (
        payments.len() as int) * 0x8000_0000_0000_0000,
    decreases payments.len(),
{
    if payments.len() > 0 {
        lemma_sum_paid_bound(payments.drop_last(), bid);
    }
}

pub proof fn lemma_sum_paid_absent(payments: Seq<Payment>, bid: Seq<char>)
    requires
        forall|i: int| 0 <= i < payments.len() ==> payments[i].booking_id@ != bid,
    ensures
        spec_sum_paid(payments, bid) == 0,
    decreases payments.len(),
{
    if payments.len() > 0 {
        assert(payments[payments.len() - 1].booking_id@ != bid);
        assert(forall|i: int|
            0 <= i < payments.drop_last().len() ==> payments.drop_last()[i].booking_id@ != bid);
        lemma_sum_paid_absent(payments.drop_last(), bid);
    }
}

/// One row of the per-booking payment report.
#[derive(Debug)]
pub struct BookingTotal {
    pub booking_id: String,
    pub total_cents: i128,
}

/// Groups the payments by booking id and sums each group in cents: one
/// entry per booking id that occurs among the payments, in order of first
/// occurrence, carrying the exact sum of that booking's payments. A
/// booking with no payment gets no entry; no payments yield the empty
/// list.
pub fn total_paid_per_booking(payments: &Vec<Payment>) -> (r: Vec<BookingTotal>)
    ensures
        r@.len() == spec_booking_ids(payments@).len(),
        forall|k: int|
            0 <= k < r@.len() ==> r@[k].booking_id@ == spec_booking_ids(payments@)[k],
        forall|k: int|
            0 <= k < r@.len() ==> r@[k].total_cents == spec_sum_paid(
                payments@,
                r@[k].booking_id@,
            ),
{
    let mut totals: Vec<BookingTotal> = Vec::new();
    let mut i: usize = 0;
    while i < payments.len()
        invariant
            i <= payments@.len(),
            totals@.len() == spec_booking_ids(payments@.take(i as int)).len(),
            forall|k: int|
                0 <= k < totals@.len() ==> totals@[k].booking_id@ == spec_booking_ids(
                    payments@.take(i as int),
                )[k],
            forall|k: int|
                0 <= k < totals@.len() ==> totals@[k].total_cents == spec_sum_paid(
                    payments@.take(i as int),
                    totals@[k].booking_id@,
                ),
            forall|k1: int, k2: int|
                0 <= k1 < k2 < totals@.len() ==> totals@[k1].booking_id@
                    != totals@[k2].booking_id@,
        decreases payments@.len() - i,
    {
        proof {
            assert(payments@.take(i + 1).drop_last() =~= payments@.take(i as int));
            assert(payments@.take(i + 1).last() == payments@[i as int]);
        }
        let p = &payments[i];
        let n = totals.len();
        let mut j: usize = 0;
        let mut found: bool = false;
        let mut idx: usize = 0;
        while j < n
            invariant
                j <= n,
                n == totals@.len(),
                !found ==> forall|k: int|
                    0 <= k < j ==> totals@[k].booking_id@ != p.booking_id@,
                found ==> idx < totals@.len() && totals@[idx as int].booking_id@
                    == p.booking_id@,
            decreases n - j,
        {
            if !found && totals[j].booking_id == p.booking_id {
                found = true;
                idx = j;
            }
            j = j + 1;
        }
        if found {
            proof {
                assert(spec_booking_ids(payments@.take(i as int)).contains(p.booking_id@)) by {
                    assert(spec_booking_ids(payments@.take(i as int))[idx as int]
                        == p.booking_id@);
                }
                lemma_sum_paid_bound(payments@.take(i as int), p.booking_id@);
                lemma_mul_inequality(
                    i as int,
                    0xffff_ffff_ffff_fffe,
                    0x8000_0000_0000_0000,
                );
            }
            totals[idx].total_cents = totals[idx].total_cents + p.amount_cents as i128;
        } else {
            proof {
                if spec_booking_ids(payments@.take(i as int)).contains(p.booking_id@) {
                    let k = choose|k: int|
                        0 <= k < spec_booking_ids(payments@.take(i as int)).len()
                            && spec_booking_ids(payments@.take(i as int))[k] == p.booking_id@;
                    assert(totals@[k].booking_id@ == p.booking_id@);
                }
                lemma_booking_ids_membership(payments@.take(i as int), p.booking_id@);
                lemma_sum_paid_absent(payments@.take(i as int), p.booking_id@);
            }
            totals.push(
                BookingTotal {
                    booking_id: p.booking_id.clone(),
                    total_cents: p.amount_cents as i128,
                },
            );
        }
        i = i + 1;
    }
    proof {
        assert(payments@.take(payments@.len() as int) =~= payments@);
    }
    totals
}

/// Failure of a query that must decode stored rows.
#[derive(Clone, Copy, PartialEq, Eq, Structural, Debug)]
pub enum AnalyticsError {
    /// A row that the query had to rank carries a date string outside the
    /// `YYYY-MM-DD` grammar or naming no calendar date.
    InvalidDate,
}

pub open spec fn spec_hotel_matches(h: Hotel, hid: Seq<char>) -> bool {
    h.id matches Some(s) && s@ == hid
}

/// Index `j` holds the first hotel whose id is `hid`.
pub open spec fn spec_first_hotel_match(hotels: Seq<Hotel>, hid: Seq<char>, j: int) -> bool {
    &&& 0 <= j < hotels.len()
    &&& spec_hotel_matches(hotels[j], hid)
    &&& forall|k: int| 0 <= k < j ==> !spec_hotel_matches(hotels[k], hid)
}

pub open spec fn spec_hotel_exists(hotels: Seq<Hotel>, hid: Seq<char>) -> bool {
    exists|j: int| 0 <= j < hotels.len() && spec_hotel_matches(hotels[j], hid)
}

/// Finds the first hotel carrying the given id, if any.
pub fn find_hotel(hotels: &Vec<Hotel>, hotel_id: &String) -> (r: Option<usize>)
    ensures
        match r {
            Some(j) => spec_first_hotel_match(hotels@, hotel_id@, j as int),
            None => !spec_hotel_exists(hotels@, hotel_id@),
        },
{
    let mut j: usize = 0;
    while j < hotels.len()
        invariant
            j <= hotels@.len(),
            forall|k: int| 0 <= k < j ==> !spec_hotel_matches(hotels@[k], hotel_id@),
        decreases hotels@.len() - j,
    {
        match &hotels[j].id {
            Some(s) => {
                if *s == *hotel_id {
                    return Some(j);
                }
            },
            None => {},
        }
        j = j + 1;
    }
    None
}

/// Booking `i` belongs to the guest and references a hotel that exists:
/// a row the current-or-last query ranks.
pub open spec fn spec_is_candidate(
    bookings: Seq<Booking>,
    hotels: Seq<Hotel>,
    gid: Seq<char>,
    i: int,
) -> bool {
    &&& 0 <= i < bookings.len()
    &&& bookings[i].guest_id@ == gid
    &&& spec_hotel_exists(hotels, bookings[i].hotel_id@)
}

/// The stay covers `today`: check-in day at most today, today at most
/// check-out day, both ends inclusive.
pub open spec fn spec_is_active(b: Booking, today: Date) -> bool {
    &&& spec_dates_ok(b)
    &&& spec_day_number(spec_parse_date(b.check_in@)->Some_0) <= spec_day_number(today)
    &&& spec_day_number(today) <= spec_day_number(spec_parse_date(b.check_out@)->Some_0)
}

pub open spec fn spec_out_day(b: Booking) -> int {
    spec_day_number(spec_parse_date(b.check_out@)->Some_0)
}

/// Booking `a` ranks strictly ahead of `b`: an active stay ahead of an
/// inactive one, and within the same tier the later check-out day ahead.
pub open spec fn spec_ranks_ahead(a: Booking, b: Booking, today: Date) -> bool {
    if spec_is_active(a, today) != spec_is_active(b, today) {
        spec_is_active(a, today)
    } else {
        spec_out_day(a) > spec_out_day(b)
    }
}

/// Candidate `i` is the winner: no candidate ranks ahead of it, and it
/// ranks strictly ahead of every earlier candidate, so ties fall to the
/// earliest row.
pub open spec fn spec_is_best_candidate(
    bookings: Seq<Booking>,
    hotels: Seq<Hotel>,
    gid: Seq<char>,
    today: Date,
    i: int,
) -> bool {
    &&& spec_is_candidate(bookings, hotels, gid, i)
    &&& forall|j: int|
        spec_is_candidate(bookings, hotels, gid, j) ==> !spec_ranks_ahead(
            bookings[j],
            bookings[i],
            today,
        )
    &&& forall|j: int|
        spec_is_candidate(bookings, hotels, gid, j) && j < i ==> spec_ranks_ahead(
            bookings[i],
            bookings[j],
            today,
        )
}

proof fn lemma_ranks_transfer(a: Booking, b: Booking, c: Booking, today: Date)
    requires
        spec_ranks_ahead(a, b, today),
        !spec_ranks_ahead(c, b, today),
    ensures
        spec_ranks_ahead(a, c, today),
{
}

/// The hotel of the guest's current stay, or failing one, of the stay with
/// the latest check-out. `Ok(None)` exactly when the guest has no booking
/// referencing an existing hotel; `Err` exactly when such a booking
/// carries an unparseable date. On success the returned hotel is the one
/// referenced by the winning booking: an active booking beats an inactive
/// one, a later check-out beats an earlier one in the same tier, and among
/// equals the earliest row wins — callers should treat that tie-break as
/// unspecified.
pub fn current_or_last_hotel(
    guest_id: &String,
    bookings: &Vec<Booking>,
    hotels: &Vec<Hotel>,
    today: &Date,
) -> (r: Result<Option<Hotel>, AnalyticsError>)
    requires
        today.wf(),
    ensures
        (r is Err) <==> exists|i: int|
            spec_is_candidate(bookings@, hotels@, guest_id@, i) && !spec_dates_ok(bookings@[i]),
        r matches Ok(o) ==> ((o is Some) <==> exists|i: int|
            spec_is_candidate(bookings@, hotels@, guest_id@, i)),
        r matches Ok(Some(h)) ==> exists|i: int, j: int|
            spec_is_best_candidate(bookings@, hotels@, guest_id@, *today, i)
                && spec_first_hotel_match(hotels@, bookings@[i].hotel_id@, j) && h == hotels@[j],
{
    let today_day = day_number(today);
    let mut best_set: bool = false;
    let mut best_active: bool = false;
    let mut best_out: u32 = 0;
    let mut best_hj: usize = 0;
    let ghost mut best_i: int = 0;
    let mut i: usize = 0;
    while i < bookings.len()
        invariant
            i <= bookings@.len(),
            today.wf(),
            today_day == spec_day_number(*today),
            forall|j: int|
                0 <= j < i && spec_is_candidate(bookings@, hotels@, guest_id@, j)
                    ==> spec_dates_ok(bookings@[j]),
            !best_set ==> forall|j: int|
                0 <= j < i ==> !spec_is_candidate(bookings@, hotels@, guest_id@, j),
            best_set ==> {
                &&& 0 <= best_i < i
                &&& spec_is_candidate(bookings@, hotels@, guest_id@, best_i)
                &&& spec_dates_ok(bookings@[best_i])
                &&& best_active == spec_is_active(bookings@[best_i], *today)
                &&& best_out == spec_out_day(bookings@[best_i])
                &&& spec_first_hotel_match(
                    hotels@,
                    bookings@[best_i].hotel_id@,
                    best_hj as int,
                )
                &&& forall|j: int|
                    0 <= j < i && spec_is_candidate(bookings@, hotels@, guest_id@, j)
                        ==> !spec_ranks_ahead(bookings@[j], bookings@[best_i], *today)
                &&& forall|j: int|
                    spec_is_candidate(bookings@, hotels@, guest_id@, j) && j < best_i
                        ==> spec_ranks_ahead(bookings@[best_i], bookings@[j], *today)
            },
        decreases bookings@.len() - i,
    {
        let b = &bookings[i];
        if b.guest_id == *guest_id {
            match find_hotel(hotels, &b.hotel_id) {
                Some(hj) => {
                    let ci = parse_date(b.check_in.as_str());
                    let co = parse_date(b.check_out.as_str());
                    match (ci, co) {
                        (Some(cin), Some(cout)) => {
                            let din = day_number(&cin);
                            let dout = day_number(&cout);
                            let active = din <= today_day && today_day <= dout;
                            let replace = if !best_set {
                                true
                            } else if active != best_active {
                                active
                            } else {
                                dout > best_out
                            };
                            if replace {
                                proof {
                                    if best_set {
                                        assert(spec_ranks_ahead(
                                            bookings@[i as int],
                                            bookings@[best_i],
                                            *today,
                                        ));
                                        assert forall|j: int|
                                            spec_is_candidate(
                                                bookings@,
                                                hotels@,
                                                guest_id@,
                                                j,
                                            ) && j < i implies spec_ranks_ahead(
                                            bookings@[i as int],
                                            bookings@[j],
                                            *today,
                                        ) by {
                                            lemma_ranks_transfer(
                                                bookings@[i as int],
                                                bookings@[best_i],
                                                bookings@[j],
                                                *today,
                                            );
                                        }
                                    }
                                    best_i = i as int;
                                }
                                best_set = true;
                                best_active = active;
                                best_out = dout;
                                best_hj = hj;
                            } else {
                                proof {
                                    assert(!spec_ranks_ahead(
                                        bookings@[i as int],
                                        bookings@[best_i],
                                        *today,
                                    ));
                                }
                            }
                        },
                        _ => {
                            proof {
                                assert(spec_is_candidate(
                                    bookings@,
                                    hotels@,
                                    guest_id@,
                                    i as int,
                                ));
                            }
                            return Err(AnalyticsError::InvalidDate);
                        },
                    }
                },
                None => {},
            }
        }
        i = i + 1;
    }
    if best_set {
        let h = hotels[best_hj].clone();
        proof {
            assert(spec_is_best_candidate(bookings@, hotels@, guest_id@, *today, best_i));
        }
        Ok(Some(h))
    } else {
        Ok(None)
    }
}

/// With exactly one active candidate booking, the current-or-last query
/// returns that stay's hotel: any value meeting the query's contract is
/// the hotel the active booking references.
pub proof fn lemma_active_candidate_wins(
    bookings: Seq<Booking>,
    hotels: Seq<Hotel>,
    gid: Seq<char>,
    today: Date,
    a: int,
    h: Hotel,
)
    requires
        spec_is_candidate(bookings, hotels, gid, a),
        spec_is_active(bookings[a], today),
        forall|j: int|
            spec_is_candidate(bookings, hotels, gid, j) && j != a ==> !spec_is_active(
                bookings[j],
                today,
            ),
        exists|i: int, j: int|
            spec_is_best_candidate(bookings, hotels, gid, today, i) && spec_first_hotel_match(
                hotels,
                bookings[i].hotel_id@,
                j,
            ) && h == hotels[j],
    ensures
        exists|j: int| spec_first_hotel_match(hotels, bookings[a].hotel_id@, j) && h == hotels[j],
{
    let (i, j) = choose|i: int, j: int|
        spec_is_best_candidate(bookings, hotels, gid, today, i) && spec_first_hotel_match(
            hotels,
            bookings[i].hotel_id@,
            j,
        ) && h == hotels[j];
    if i != a {
        assert(!spec_is_active(bookings[i], today));
        assert(spec_ranks_ahead(bookings[a], bookings[i], today));
    }
    assert(spec_first_hotel_match(hotels, bookings[a].hotel_id@, j) && h == hotels[j]);
}

/// With no active candidate and a unique latest check-out day, the
/// current-or-last query returns the hotel of the stay with that
/// check-out: any value meeting the query's contract is the hotel the
/// most recent booking references.
pub proof fn lemma_latest_checkout_wins(
    bookings: Seq<Booking>,
    hotels: Seq<Hotel>,
    gid: Seq<char>,
    today: Date,
    a: int,
    h: Hotel,
)
    requires
        spec_is_candidate(bookings, hotels, gid, a),
        forall|j: int|
            spec_is_candidate(bookings, hotels, gid, j) ==> !spec_is_active(bookings[j], today),
        forall|j: int|
            spec_is_candidate(bookings, hotels, gid, j) && j != a ==> spec_out_day(bookings[j])
                < spec_out_day(bookings[a]),
        exists|i: int, j: int|
            spec_is_best_candidate(bookings, hotels, gid, today, i) && spec_first_hotel_match(
                hotels,
                bookings[i].hotel_id@,
                j,
            ) && h == hotels[j],
    ensures
        exists|j: int| spec_first_hotel_match(hotels, bookings[a].hotel_id@, j) && h == hotels[j],
{
    let (i, j) = choose|i: int, j: int|
        spec_is_best_candidate(bookings, hotels, gid, today, i) && spec_first_hotel_match(
            hotels,
            bookings[i].hotel_id@,
            j,
        ) && h == hotels[j];
    if i != a {
        assert(spec_out_day(bookings[i]) < spec_out_day(bookings[a]));
        assert(spec_ranks_ahead(bookings[a], bookings[i], today));
    }
    assert(spec_first_hotel_match(hotels, bookings[a].hotel_id@, j) && h == hotels[j]);
}

} // verus!
