//! Rides: cargo boards, a train of the first seats leaves, and a dropped pass gives up its seat
//! wherever that seat is by then.
use std::collections::HashMap;
use vstd::prelude::*;

verus! {

broadcast use vstd::std_specs::hash::group_hash_axioms;

/// One seat of a ride: its number in boarding order, what travels on it,
/// and the cell through which its pass finds it.
pub struct Seat<P> {
    pub id: usize,
    pub cargo: P,
    pub cell: u64,
}

/// Where a seat is: the ride that holds it and its number there.
#[derive(Debug, Clone, Copy, PartialEq, Eq, Structural)]
pub struct Loc {
    pub ride: u64,
    pub id: usize,
}

/// What one attempt to leave a ride came to.
pub enum Leaving<P> {
    /// The seat was there and is gone; `emptied` when that was the last one and nobody had
    /// abandoned the ride before.
    Removed { cargo: P, emptied: bool },
    /// The seat is not on this ride (any more).
    Relocated,
    /// The ride left: its seats stay.
    Departed,
}

/// The state of one ride.
struct RideState<P> {
    seats: Vec<Seat<P>>,
    next_id: usize,
    departed: bool,
    abandoned: bool,
}

/// The state of one ride as a value: the seats in boarding order, the number the next one gets,
/// and whether the ride left and whether everyone left it before that.
pub struct RideView<P> {
    pub seats: Seq<Seat<P>>,
    pub next_id: nat,
    pub departed: bool,
    pub abandoned: bool,
}

/// Whether a seat with this number is among `seats`.
pub open spec fn has_seat<P>(seats: Seq<Seat<P>>, id: usize) -> bool {
    exists|k: int| 0 <= k < seats.len() && (#[trigger] seats[k]).id == id
}

/// The place of the seat with this number.
pub open spec fn place_of<P>(seats: Seq<Seat<P>>, id: usize) -> int {
    choose|k: int| 0 <= k < seats.len() && (#[trigger] seats[k]).id == id
}

impl<P> RideView<P> {
    /// Seats are numbered in boarding order, and no number is given out twice.
    pub open spec fn wf(self) -> bool {
        &&& forall|i: int, j: int|
            0 <= i < j < self.seats.len() ==> (#[trigger] self.seats[i]).id < (
            #[trigger] self.seats[j]).id
        &&& forall|i: int| 0 <= i < self.seats.len() ==> (#[trigger] self.seats[i]).id < self.next_id
        &&& self.next_id <= usize::MAX
    }

    /// A ride nobody boarded yet.
    pub open spec fn fresh() -> RideView<P> {
        RideView { seats: Seq::empty(), next_id: 0, departed: false, abandoned: false }
    }

    /// The ride once one more cargo boarded, its pass bound to `cell`.
    pub open spec fn boarded_by(self, cargo: P, cell: u64) -> RideView<P> {
        RideView {
            seats: self.seats.push(Seat { id: self.next_id as usize, cargo, cell }),
            next_id: self.next_id + 1,
            ..self
        }
    }

    /// The ride once the seat with this number was given up.
    pub open spec fn left_by(self, id: usize) -> RideView<P> {
        let seats = self.seats.remove(place_of(self.seats, id));
        RideView { seats, abandoned: self.abandoned || seats.len() == 0, ..self }
    }

    /// Whether giving up the seat with this number abandons the ride.
    pub open spec fn is_last(self, id: usize) -> bool {
        !self.abandoned && self.seats.remove(place_of(self.seats, id)).len() == 0
    }

    /// The train of the first `n` seats, on a ride of its own. It carries the numbering on,
    /// so a later boarding there cannot reuse a moved seat's number.
    pub open spec fn train(self, n: int) -> RideView<P> {
        RideView {
            seats: self.seats.take(n),
            next_id: self.next_id,
            departed: false,
            abandoned: false,
        }
    }

    /// What stays once the first `n` seats left with the train.
    pub open spec fn tail(self, n: int) -> RideView<P> {
        RideView { seats: self.seats.skip(n), ..self }
    }
}

impl<P> View for RideState<P> {
    type V = RideView<P>;

    closed spec fn view(&self) -> RideView<P> {
        RideView {
            seats: self.seats@,
            next_id: self.next_id as nat,
            departed: self.departed,
            abandoned: self.abandoned,
        }
    }
}

impl<P> RideState<P> {
    fn new() -> (state: Self)
        ensures
            state@ == RideView::<P>::fresh(),
            state@.wf(),
    {
        let state = RideState {
            seats: Vec::new(),
            next_id: 0,
            departed: false,
            abandoned: false,
        };
        assert(state@.seats =~= Seq::empty());
        state
    }

    /// The place of the seat with this number, if it is here.
    fn find(&self, id: usize) -> (place: Option<usize>)
        requires
            self@.wf(),
        ensures
            match place {
                Some(k) => k < self@.seats.len() && self@.seats[k as int].id == id,
                None => !has_seat(self@.seats, id),
            },
    {
        let mut low: usize = 0;
        let mut high: usize = self.seats.len();
        while low < high
            invariant
                self@.wf(),
                low <= high <= self@.seats.len(),
                forall|k: int| 0 <= k < low ==> (#[trigger] self@.seats[k]).id < id,
                forall|k: int| high <= k < self@.seats.len() ==> (#[trigger] self@.seats[k]).id > id,
            decreases high - low,
        {
            let mid: usize = low + (high - low) / 2;
            let at: usize = self.seats[mid].id;
            if at == id {
                return Some(mid);
            } else if at < id {
                low = mid + 1;
            } else {
                high = mid;
            }
        }
        None
    }

    /// One attempt to give up a seat.
    fn leave(&mut self, id: usize) -> (outcome: Leaving<P>)
        requires
            old(self)@.wf(),
        ensures
            final(self)@.wf(),
            is_leaving(old(self)@, id, outcome, final(self)@),
    {
        if self.departed {
            return Leaving::Departed;
        }
        match self.find(id) {
            None => Leaving::Relocated,
            Some(k) => {
                proof {
                    lemma_place_unique(self@, id, k as int);
                }
                let seat = self.seats.remove(k);
                let emptied = self.seats.len() == 0 && !self.abandoned;
                if emptied {
                    self.abandoned = true;
                }
                proof {
                    assert(self@.seats =~= old(self)@.left_by(id).seats);
                }
                Leaving::Removed { cargo: seat.cargo, emptied }
            },
        }
    }
}

/// What one attempt to give up a seat does to a ride, and what it comes to.
pub open spec fn is_leaving<P>(
    before: RideView<P>,
    id: usize,
    outcome: Leaving<P>,
    after: RideView<P>,
) -> bool {
    if before.departed {
        outcome is Departed && after == before
    } else if !has_seat(before.seats, id) {
        outcome is Relocated && after == before
    } else {
        &&& outcome matches Leaving::Removed { cargo, emptied } && cargo == before.seats[place_of(
            before.seats,
            id,
        )].cargo && emptied == before.is_last(id)
        &&& after == before.left_by(id)
    }
}

/// A number names one place.
proof fn lemma_place_unique<P>(ride: RideView<P>, id: usize, k: int)
    requires
        ride.wf(),
        0 <= k < ride.seats.len(),
        ride.seats[k].id == id,
    ensures
        has_seat(ride.seats, id),
        place_of(ride.seats, id) == k,
{
    let p = place_of(ride.seats, id);
    assert(0 <= p < ride.seats.len() && ride.seats[p].id == id);
    if p < k {
        assert(ride.seats[p].id < ride.seats[k].id);
    } else if k < p {
        assert(ride.seats[k].id < ride.seats[p].id);
    }
}

/// Rides that exchange seats, with the cells that say where each seat is.
pub struct Depot<P> {
    rides: HashMap<u64, RideState<P>>,
    cells: HashMap<u64, Loc>,
    next_ride: u64,
    next_cell: u64,
}

/// A depot as a value: its rides, where the seat of each cell is, and the keys to come.
pub struct DepotView<P> {
    pub rides: Map<u64, RideView<P>>,
    pub cells: Map<u64, Loc>,
    pub next_ride: nat,
    pub next_cell: nat,
}

/// Whether one of `seats` is bound to this cell.
pub open spec fn carries<P>(seats: Seq<Seat<P>>, cell: u64) -> bool {
    exists|k: int| 0 <= k < seats.len() && (#[trigger] seats[k]).cell == cell
}

/// The smaller of a count and a length.
pub open spec fn at_most(n: nat, len: nat) -> int {
    if n <= len {
        n as int
    } else {
        len as int
    }
}

impl<P> DepotView<P> {
    /// Every ride numbers its seats soundly, and cells and seats stand one to one:
    /// the cell of each seat points at that seat, and each cell points at a seat of its own.
    pub open spec fn wf(self) -> bool {
        &&& forall|r: u64| #[trigger]
            self.rides.contains_key(r) ==> self.rides[r].wf() && r < self.next_ride
        &&& forall|r: u64, k: int|
            self.rides.contains_key(r) && 0 <= k < self.rides[r].seats.len()
                ==> self.points_at(r, #[trigger] self.rides[r].seats[k])
        &&& forall|c: u64| #[trigger] self.cells.contains_key(c) ==> c < self.next_cell && self.found(c)
        &&& self.next_ride <= u64::MAX
        &&& self.next_cell <= u64::MAX
    }

    /// The cell of `seat` says that it is on ride `r`.
    pub open spec fn points_at(self, r: u64, seat: Seat<P>) -> bool {
        self.cells.contains_key(seat.cell) && self.cells[seat.cell] == (Loc { ride: r, id: seat.id })
    }

    /// The seat that cell `c` points at is there, and is bound to `c`.
    pub open spec fn found(self, c: u64) -> bool {
        let loc = self.cells[c];
        let seats = self.rides[loc.ride].seats;
        &&& self.rides.contains_key(loc.ride)
        &&& has_seat(seats, loc.id)
        &&& seats[place_of(seats, loc.id)].cell == c
    }

    /// A depot without rides.
    pub open spec fn empty() -> DepotView<P> {
        DepotView { rides: Map::empty(), cells: Map::empty(), next_ride: 0, next_cell: 0 }
    }

    /// One more ride, with nobody on it.
    pub open spec fn with_ride(self) -> DepotView<P> {
        DepotView {
            rides: self.rides.insert(self.next_ride as u64, RideView::fresh()),
            next_ride: self.next_ride + 1,
            ..self
        }
    }

    /// Cargo boards ride `r`, on a new seat with a new cell.
    pub open spec fn with_seat(self, r: u64, cargo: P) -> DepotView<P> {
        let cell = self.next_cell as u64;
        let ride = self.rides[r];
        DepotView {
            rides: self.rides.insert(r, ride.boarded_by(cargo, cell)),
            cells: self.cells.insert(cell, Loc { ride: r, id: ride.next_id as usize }),
            next_cell: self.next_cell + 1,
            ..self
        }
    }

    /// The first `n` seats of ride `r` move to a new ride; their cells follow them.
    pub open spec fn with_train(self, r: u64, n: nat) -> DepotView<P> {
        let ride = self.rides[r];
        let k = at_most(n, ride.seats.len());
        let fresh = self.next_ride as u64;
        DepotView {
            rides: self.rides.insert(r, ride.tail(k)).insert(fresh, ride.train(k)),
            cells: self.readdressed(ride.seats.take(k), fresh),
            next_ride: self.next_ride + 1,
            ..self
        }
    }

    /// The cells once those of `seats` say that their seats are on ride `r`.
    pub open spec fn readdressed(self, seats: Seq<Seat<P>>, r: u64) -> Map<u64, Loc> {
        self.cells.map_entries(
            |c: u64, loc: Loc|
                if carries(seats, c) {
                    Loc { ride: r, id: loc.id }
                } else {
                    loc
                },
        )
    }

    /// The seat at `loc` is given up, and its cell `c` with it.
    pub open spec fn without_seat(self, c: u64) -> DepotView<P> {
        let loc = self.cells[c];
        DepotView {
            rides: self.rides.insert(loc.ride, self.rides[loc.ride].left_by(loc.id)),
            cells: self.cells.remove(c),
            ..self
        }
    }

    /// Ride `r` left.
    pub open spec fn with_departed(self, r: u64) -> DepotView<P> {
        DepotView {
            rides: self.rides.insert(r, RideView { departed: true, ..self.rides[r] }),
            ..self
        }
    }

    /// Ride `r` is gone, and its seats and their cells with it.
    pub open spec fn without_ride(self, r: u64) -> DepotView<P> {
        DepotView {
            rides: self.rides.remove(r),
            cells: self.cells.remove_keys(Set::new(|c: u64| carries(self.rides[r].seats, c))),
            ..self
        }
    }
}

impl<P> View for Depot<P> {
    type V = DepotView<P>;

    closed spec fn view(&self) -> DepotView<P> {
        DepotView {
            rides: self.rides@.map_values(|state: RideState<P>| state@),
            cells: self.cells@,
            next_ride: self.next_ride as nat,
            next_cell: self.next_cell as nat,
        }
    }
}

/// A handle on one ride of a depot.
#[derive(Debug, Clone, Copy, PartialEq, Eq, Structural)]
pub struct Ride {
    key: u64,
}

/// A seat's guard: whoever holds it may leave the ride, wherever the seat is by then.
#[must_use]
#[derive(Debug)]
pub struct Pass {
    cell: u64,
}

impl Pass {
    /// The cell of the seat.
    pub closed spec fn cell(self) -> u64 {
        self.cell
    }
}

/// What became of a pass that was given up.
pub enum Left<P> {
    /// It had no seat to leave.
    NotAboard,
    /// Its ride left before: the seat stays for delivery.
    Departed,
    /// Its seat is gone from `ride`; `emptied` when that abandoned the ride.
    Seat { ride: Ride, cargo: P, emptied: bool },
}

/// What giving up the pass of cell `c` does to a depot, and what comes of it.
pub open spec fn is_left<P>(
    before: DepotView<P>,
    c: u64,
    left: Left<P>,
    after: DepotView<P>,
) -> bool {
    let loc = before.cells[c];
    let on = before.rides[loc.ride];
    if !before.cells.contains_key(c) {
        left is NotAboard && after == before
    } else if on.departed {
        left is Departed && after == before
    } else {
        &&& left matches Left::Seat { ride, cargo, emptied } && ride.key() == loc.ride && cargo
            == on.seats[place_of(on.seats, loc.id)].cargo && emptied == on.is_last(loc.id)
        &&& after == before.without_seat(c)
    }
}

impl Pass {
    /// Leaves the ride the seat is on by now, unless that ride departed.
    pub fn leave<P>(self, depot: &mut Depot<P>) -> (left: Left<P>)
        requires
            old(depot)@.wf(),
        ensures
            final(depot)@.wf(),
            is_left(old(depot)@, self.cell(), left, final(depot)@),
    {
        let loc = match depot.cells.get(&self.cell) {
            None => return Left::NotAboard,
            Some(loc) => *loc,
        };
        proof {
            assert(old(depot)@.found(self.cell));
        }
        match depot.attempt(loc) {
            Leaving::Removed { cargo, emptied } => {
                depot.cells.remove(&self.cell);
                proof {
                    assert(depot@ == old(depot)@.without_seat(self.cell));
                    lemma_leave_keeps_wf(old(depot)@, self.cell);
                }
                Left::Seat { ride: Ride { key: loc.ride }, cargo, emptied }
            },
            Leaving::Departed => {
                proof {
                    assert(depot@.rides =~= old(depot)@.rides);
                }
                Left::Departed
            },
            Leaving::Relocated => {
                proof {
                    assert(false);
                }
                Left::NotAboard
            },
        }
    }
}

impl<P> Depot<P> {
    /// One attempt to give up the seat at `loc`; the seat's cell is left as it is.
    fn attempt(&mut self, loc: Loc) -> (outcome: Leaving<P>)
        requires
            old(self)@.rides.contains_key(loc.ride),
            old(self)@.rides[loc.ride].wf(),
        ensures
            final(self)@.rides.contains_key(loc.ride),
            is_leaving(
                old(self)@.rides[loc.ride],
                loc.id,
                outcome,
                final(self)@.rides[loc.ride],
            ),
            final(self)@ == (DepotView {
                rides: old(self)@.rides.insert(loc.ride, final(self)@.rides[loc.ride]),
                ..old(self)@
            }),
            final(self).cells@ == old(self).cells@,
    {
        match self.rides.remove(&loc.ride) {
            Some(mut state) => {
                let outcome = state.leave(loc.id);
                let ghost after = state@;
                self.rides.insert(loc.ride, state);
                proof {
                    assert(self@.rides =~= old(self)@.rides.insert(loc.ride, after));
                }
                outcome
            },
            None => {
                proof {
                    assert(false);
                }
                Leaving::Relocated
            },
        }
    }
}

impl<P> Default for Depot<P> {
    fn default() -> (depot: Self)
        ensures
            depot@ == DepotView::<P>::empty(),
            depot@.wf(),
    {
        let depot = Depot {
            rides: HashMap::new(),
            cells: HashMap::new(),
            next_ride: 0,
            next_cell: 0,
        };
        assert(depot@.rides =~= Map::empty());
        depot
    }
}

impl<P> Depot<P> {
    /// Whether one more ride can be opened.
    pub fn can_open(&self) -> (can: bool)
        ensures
            can == (self@.next_ride < u64::MAX),
    {
        self.next_ride < u64::MAX
    }
}

impl Ride {
    /// Whether the ride is in `depot` and one more cargo can board it.
    pub fn can_board<P>(&self, depot: &Depot<P>) -> (can: bool)
        ensures
            can == (depot@.rides.contains_key(self.key())
                && depot@.rides[self.key()].next_id < usize::MAX
                && depot@.next_cell < u64::MAX),
    {
        match depot.rides.get(&self.key) {
            Some(state) => state.next_id < usize::MAX && depot.next_cell < u64::MAX,
            None => false,
        }
    }

    /// The key of the ride in its depot.
    pub closed spec fn key(self) -> u64 {
        self.key
    }

    /// A ride of `depot` that nobody boarded yet.
    pub fn new<P>(depot: &mut Depot<P>) -> (ride: Ride)
        requires
            old(depot)@.wf(),
            old(depot)@.next_ride < u64::MAX,
        ensures
            final(depot)@.wf(),
            final(depot)@ == old(depot)@.with_ride(),
            ride.key() == old(depot)@.next_ride,
            !old(depot)@.rides.contains_key(ride.key()),
    {
        let key: u64 = depot.next_ride;
        let state = RideState::new();
        let ghost fresh = state@;
        depot.rides.insert(key, state);
        depot.next_ride = key + 1;
        proof {
            assert(depot@.rides =~= old(depot)@.rides.insert(key, fresh));
            assert(depot@ == old(depot)@.with_ride());
            lemma_new_keeps_wf(old(depot)@);
        }
        Ride { key }
    }

    /// Boards the ride; the pass is the seat's guard.
    pub fn board<P>(&self, depot: &mut Depot<P>, cargo: P) -> (pass: Pass)
        requires
            old(depot)@.wf(),
            old(depot)@.rides.contains_key(self.key()),
            old(depot)@.rides[self.key()].next_id < usize::MAX,
            old(depot)@.next_cell < u64::MAX,
        ensures
            final(depot)@.wf(),
            final(depot)@ == old(depot)@.with_seat(self.key(), cargo),
            pass.cell() == old(depot)@.next_cell,
    {
        let cell: u64 = depot.next_cell;
        if let Some(mut state) = depot.rides.remove(&self.key) {
            let ghost before = state@;
            let id: usize = state.next_id;
            state.next_id = id + 1;
            state.seats.push(Seat { id, cargo, cell });
            let ghost after = state@;
            proof {
                assert(after.seats =~= before.boarded_by(cargo, cell).seats);
            }
            depot.rides.insert(self.key, state);
            depot.cells.insert(cell, Loc { ride: self.key, id });
            depot.next_cell = cell + 1;
            proof {
                assert(depot@.rides =~= old(depot)@.rides.insert(self.key, after));
                assert(depot@ == old(depot)@.with_seat(self.key, cargo));
                lemma_board_keeps_wf(old(depot)@, self.key, cargo);
            }
        }
        Pass { cell }
    }

    /// Moves the first `n` seats, in boarding order, to a fresh ride; the tail stays.
    /// No new passes: each holder's guard now finds its seat on the taken ride.
    pub fn take<P>(&self, depot: &mut Depot<P>, n: usize) -> (taken: Ride)
        requires
            old(depot)@.wf(),
            old(depot)@.rides.contains_key(self.key()),
            old(depot)@.next_ride < u64::MAX,
        ensures
            final(depot)@.wf(),
            final(depot)@ == old(depot)@.with_train(self.key(), n as nat),
            taken.key() == old(depot)@.next_ride,
            !old(depot)@.rides.contains_key(taken.key()),
    {
        let fresh: u64 = depot.next_ride;
        if let Some(mut state) = depot.rides.remove(&self.key) {
            let ghost before = state@;
            let k: usize = if n < state.seats.len() {
                n
            } else {
                state.seats.len()
            };
            let tail = state.seats.split_off(k);
            let mut front = tail;
            std::mem::swap(&mut front, &mut state.seats);
            proof {
                assert(front@ =~= before.seats.take(k as int));
                assert(state.seats@ =~= before.seats.skip(k as int));
            }
            let mut i: usize = 0;
            proof {
                assert(depot.cells@ =~= old(depot)@.readdressed(front@.take(0), fresh)) by {
                    assert(forall|c: u64| !carries(front@.take(0), c));
                }
            }
            while i < front.len()
                invariant
                    old(depot)@.wf(),
                    old(depot)@.rides.contains_key(self.key),
                    front@ == old(depot)@.rides[self.key].seats.take(front@.len() as int),
                    front@.len() <= old(depot)@.rides[self.key].seats.len(),
                    i <= front@.len(),
                    depot.cells@ == old(depot)@.readdressed(front@.take(i as int), fresh),
                    depot.rides@ == old(depot).rides@.remove(self.key),
                    depot.next_ride == old(depot).next_ride,
                    depot.next_cell == old(depot).next_cell,
                decreases front@.len() - i,
            {
                proof {
                    lemma_readdress_step(old(depot)@, self.key, front@, i as int, fresh);
                }
                depot.cells.insert(front[i].cell, Loc { ride: fresh, id: front[i].id });
                i = i + 1;
            }
            proof {
                assert(front@.take(i as int) =~= front@);
            }
            let train = RideState {
                seats: front,
                next_id: state.next_id,
                departed: false,
                abandoned: false,
            };
            let ghost tail_view = state@;
            let ghost train_view = train@;
            depot.rides.insert(self.key, state);
            depot.rides.insert(fresh, train);
            depot.next_ride = fresh + 1;
            proof {
                assert(train_view == before.train(k as int));
                assert(tail_view == before.tail(k as int));
                assert(depot@.rides =~= old(depot)@.rides.insert(self.key, tail_view).insert(
                    fresh,
                    train_view,
                ));
                assert(depot@ == old(depot)@.with_train(self.key, n as nat));
                lemma_take_keeps_wf(old(depot)@, self.key, n as nat);
            }
        }
        Ride { key: fresh }
    }

    /// How many seats the ride holds.
    pub fn len<P>(&self, depot: &Depot<P>) -> (len: usize)
        requires
            depot@.rides.contains_key(self.key()),
        ensures
            len == depot@.rides[self.key()].seats.len(),
    {
        match depot.rides.get(&self.key) {
            Some(state) => state.seats.len(),
            None => 0,
        }
    }

    /// Whether the ride holds no seat.
    pub fn is_empty<P>(&self, depot: &Depot<P>) -> (empty: bool)
        requires
            depot@.rides.contains_key(self.key()),
        ensures
            empty == (depot@.rides[self.key()].seats.len() == 0),
    {
        self.len(depot) == 0
    }

    /// Whether the ride holds a seat: what a caller waiting for a boarding waits for.
    pub fn boarded<P>(&self, depot: &Depot<P>) -> (boarded: bool)
        requires
            depot@.rides.contains_key(self.key()),
        ensures
            boarded == (depot@.rides[self.key()].seats.len() > 0),
    {
        self.len(depot) > 0
    }

    /// Whether every seat left before departure: what a caller waiting for that waits for.
    /// It stays so.
    pub fn abandoned<P>(&self, depot: &Depot<P>) -> (abandoned: bool)
        requires
            depot@.rides.contains_key(self.key()),
        ensures
            abandoned == depot@.rides[self.key()].abandoned,
    {
        match depot.rides.get(&self.key) {
            Some(state) => state.abandoned,
            None => false,
        }
    }

    /// Seals the ride: a pass that leaves afterwards changes nothing.
    pub fn depart<P>(&self, depot: &mut Depot<P>)
        requires
            old(depot)@.wf(),
            old(depot)@.rides.contains_key(self.key()),
        ensures
            final(depot)@.wf(),
            final(depot)@ == old(depot)@.with_departed(self.key()),
    {
        if let Some(mut state) = depot.rides.remove(&self.key) {
            state.departed = true;
            let ghost after = state@;
            depot.rides.insert(self.key, state);
            proof {
                assert(depot@.rides =~= old(depot)@.rides.insert(self.key, after));
                assert(depot@ == old(depot)@.with_departed(self.key));
                lemma_depart_keeps_wf(old(depot)@, self.key);
            }
        }
    }

    /// Gives the ride up, once nobody holds it any more, with the cargo still on it in boarding
    /// order. The passes of its seats have nothing left to leave.
    pub fn retire<P>(self, depot: &mut Depot<P>) -> (cargo: Vec<P>)
        requires
            old(depot)@.wf(),
            old(depot)@.rides.contains_key(self.key()),
        ensures
            final(depot)@.wf(),
            final(depot)@ == old(depot)@.without_ride(self.key()),
            cargo@ == old(depot)@.rides[self.key()].seats.map_values(|seat: Seat<P>| seat.cargo),
    {
        let mut cargo: Vec<P> = Vec::new();
        if let Some(state) = depot.rides.remove(&self.key) {
            let ghost seats = state@.seats;
            let ghost cells = depot.cells@;
            proof {
                assert(depot.cells@ =~= cells.remove_keys(
                    Set::new(|c: u64| carries(seats.take(0), c)),
                ));
            }
            for seat in iter: state.seats
                invariant
                    iter.seq() == seats,
                    depot.rides@ == old(depot).rides@.remove(self.key),
                    depot.next_ride == old(depot).next_ride,
                    depot.next_cell == old(depot).next_cell,
                    cargo@ == seats.take(iter.index() as int).map_values(|seat: Seat<P>| seat.cargo),
                    depot.cells@ == cells.remove_keys(
                        Set::new(|c: u64| carries(seats.take(iter.index() as int), c)),
                    ),
            {
                let ghost i = iter.index() as int;
                depot.cells.remove(&seat.cell);
                cargo.push(seat.cargo);
                proof {
                    assert(cargo@ =~= seats.take(i + 1).map_values(|seat: Seat<P>| seat.cargo));
                    lemma_carries_push(seats, i);
                    assert(depot.cells@ =~= cells.remove_keys(
                        Set::new(|c: u64| carries(seats.take(i + 1), c)),
                    ));
                }
            }
            proof {
                assert(seats.take(seats.len() as int) =~= seats);
                assert(depot@.rides =~= old(depot)@.rides.remove(self.key));
                assert(depot@ == old(depot)@.without_ride(self.key));
                lemma_retire_keeps_wf(old(depot)@, self.key);
            }
        }
        cargo
    }
}

/// One more seat carries one more cell.
proof fn lemma_carries_push<P>(seats: Seq<Seat<P>>, i: int)
    requires
        0 <= i < seats.len(),
    ensures
        forall|c: u64| #[trigger]
            carries(seats.take(i + 1), c) <==> carries(seats.take(i), c) || c == seats[i].cell,
{
    assert forall|c: u64| #[trigger] carries(seats.take(i + 1), c) <==> carries(seats.take(i), c)
        || c == seats[i].cell by {
        if carries(seats.take(i), c) {
            let k = choose|k: int| 0 <= k < i && (#[trigger] seats.take(i)[k]).cell == c;
            assert(seats.take(i + 1)[k].cell == c);
        }
        if c == seats[i].cell {
            assert(seats.take(i + 1)[i].cell == c);
        }
        if carries(seats.take(i + 1), c) && c != seats[i].cell {
            let k = choose|k: int| 0 <= k < i + 1 && (#[trigger] seats.take(i + 1)[k]).cell == c;
            assert(seats.take(i)[k].cell == c);
        }
    }
}

/// Readdressing seat by seat.
proof fn lemma_readdress_step<P>(
    depot: DepotView<P>,
    r: u64,
    front: Seq<Seat<P>>,
    i: int,
    fresh: u64,
)
    requires
        depot.wf(),
        depot.rides.contains_key(r),
        front.len() <= depot.rides[r].seats.len(),
        front == depot.rides[r].seats.take(front.len() as int),
        0 <= i < front.len(),
    ensures
        depot.readdressed(front.take(i + 1), fresh) == depot.readdressed(
            front.take(i),
            fresh,
        ).insert(front[i].cell, Loc { ride: fresh, id: front[i].id }),
{
    lemma_carries_push(front, i);
    assert(front[i] == depot.rides[r].seats[i]);
    assert(depot.points_at(r, depot.rides[r].seats[i]));
    assert(depot.readdressed(front.take(i + 1), fresh) =~= depot.readdressed(
        front.take(i),
        fresh,
    ).insert(front[i].cell, Loc { ride: fresh, id: front[i].id }));
}

/// A new ride keeps a depot sound.
proof fn lemma_new_keeps_wf<P>(depot: DepotView<P>)
    requires
        depot.wf(),
        depot.next_ride < u64::MAX,
    ensures
        depot.with_ride().wf(),
{
    let after = depot.with_ride();
    assert(!depot.rides.contains_key(depot.next_ride as u64));
    assert forall|q: u64, k: int|
        after.rides.contains_key(q) && 0 <= k < after.rides[q].seats.len() implies after.points_at(
        q,
        #[trigger] after.rides[q].seats[k],
    ) by {
        assert(depot.points_at(q, depot.rides[q].seats[k]));
    }
    assert forall|c: u64| #[trigger] after.cells.contains_key(c) implies c < after.next_cell
        && after.found(c) by {
        assert(depot.cells.contains_key(c));
        assert(depot.rides.contains_key(depot.cells[c].ride));
    }
}

/// Boarding keeps a depot sound.
proof fn lemma_board_keeps_wf<P>(depot: DepotView<P>, r: u64, cargo: P)
    requires
        depot.wf(),
        depot.rides.contains_key(r),
        depot.rides[r].next_id < usize::MAX,
        depot.next_cell < u64::MAX,
    ensures
        depot.with_seat(r, cargo).wf(),
{
    let after = depot.with_seat(r, cargo);
    let cell = depot.next_cell as u64;
    assert(!depot.cells.contains_key(cell));
    assert(after.rides[r].wf());
    assert forall|q: u64, k: int|
        after.rides.contains_key(q) && 0 <= k < after.rides[q].seats.len() implies after.points_at(
        q,
        #[trigger] after.rides[q].seats[k],
    ) by {
        if q != r || k < depot.rides[r].seats.len() {
            assert(depot.points_at(q, depot.rides[q].seats[k]));
        }
    }
    assert forall|c: u64| #[trigger] after.cells.contains_key(c) implies c < after.next_cell
        && after.found(c) by {
        let loc = after.cells[c];
        if c == cell {
            let last = after.rides[r].seats.len() - 1;
            lemma_place_unique(after.rides[r], loc.id, last);
        } else {
            assert(depot.cells.contains_key(c));
            let k = place_of(depot.rides[loc.ride].seats, loc.id);
            assert(0 <= k < depot.rides[loc.ride].seats.len());
            assert(after.rides[loc.ride].seats[k] == depot.rides[loc.ride].seats[k]);
            lemma_place_unique(after.rides[loc.ride], loc.id, k);
        }
    }
}

/// Departing keeps a depot sound.
proof fn lemma_depart_keeps_wf<P>(depot: DepotView<P>, r: u64)
    requires
        depot.wf(),
        depot.rides.contains_key(r),
    ensures
        depot.with_departed(r).wf(),
{
    let after = depot.with_departed(r);
    assert forall|q: u64, k: int|
        after.rides.contains_key(q) && 0 <= k < after.rides[q].seats.len() implies after.points_at(
        q,
        #[trigger] after.rides[q].seats[k],
    ) by {
        assert(depot.points_at(q, depot.rides[q].seats[k]));
    }
    assert forall|c: u64| #[trigger] after.cells.contains_key(c) implies c < after.next_cell
        && after.found(c) by {
        assert(depot.cells.contains_key(c));
    }
}

/// Taking a train keeps a depot sound.
proof fn lemma_take_keeps_wf<P>(depot: DepotView<P>, r: u64, n: nat)
    requires
        depot.wf(),
        depot.rides.contains_key(r),
        depot.next_ride < u64::MAX,
    ensures
        depot.with_train(r, n).wf(),
{
    let after = depot.with_train(r, n);
    let ride = depot.rides[r];
    let split = at_most(n, ride.seats.len());
    let fresh = depot.next_ride as u64;
    let front = ride.seats.take(split);
    assert(!depot.rides.contains_key(fresh));
    assert(after.rides[r] == ride.tail(split));
    assert(after.rides[fresh] == ride.train(split));
    assert(after.rides[r].wf());
    assert(after.rides[fresh].wf());
    assert forall|q: u64, k: int|
        after.rides.contains_key(q) && 0 <= k < after.rides[q].seats.len() implies after.points_at(
        q,
        #[trigger] after.rides[q].seats[k],
    ) by {
        let seat = after.rides[q].seats[k];
        if q == fresh {
            assert(seat == ride.seats[k]);
            assert(depot.points_at(r, ride.seats[k]));
            assert(front[k].cell == seat.cell);
            assert(carries(front, seat.cell));
        } else {
            let was = if q == r {
                split + k
            } else {
                k
            };
            assert(seat == depot.rides[q].seats[was]);
            assert(depot.points_at(q, depot.rides[q].seats[was]));
            if carries(front, seat.cell) {
                let j = choose|j: int| 0 <= j < front.len() && (#[trigger] front[j]).cell == seat.cell;
                assert(front[j] == ride.seats[j]);
                assert(depot.points_at(r, ride.seats[j]));
                assert(ride.seats[j].id < ride.seats[was].id);
            }
        }
    }
    assert forall|c: u64| #[trigger] after.cells.contains_key(c) implies c < after.next_cell
        && after.found(c) by {
        assert(depot.cells.contains_key(c));
        let loc = depot.cells[c];
        let k = place_of(depot.rides[loc.ride].seats, loc.id);
        assert(0 <= k < depot.rides[loc.ride].seats.len());
        let seat = depot.rides[loc.ride].seats[k];
        if carries(front, c) {
            let j = choose|j: int| 0 <= j < front.len() && (#[trigger] front[j]).cell == c;
            assert(front[j] == ride.seats[j]);
            assert(depot.points_at(r, ride.seats[j]));
            lemma_place_unique(ride, loc.id, j);
            assert(after.rides[fresh].seats[j] == ride.seats[j]);
            lemma_place_unique(after.rides[fresh], loc.id, j);
        } else if loc.ride == r {
            if k < split {
                assert(front[k].cell == c);
            }
            assert(after.rides[r].seats[k - split] == seat);
            lemma_place_unique(after.rides[r], loc.id, k - split);
        } else {
            assert(after.rides[loc.ride] == depot.rides[loc.ride]);
        }
    }
}

/// Giving up a ride keeps a depot sound.
proof fn lemma_retire_keeps_wf<P>(depot: DepotView<P>, r: u64)
    requires
        depot.wf(),
        depot.rides.contains_key(r),
    ensures
        depot.without_ride(r).wf(),
{
    let after = depot.without_ride(r);
    let seats = depot.rides[r].seats;
    assert forall|q: u64, k: int|
        after.rides.contains_key(q) && 0 <= k < after.rides[q].seats.len() implies after.points_at(
        q,
        #[trigger] after.rides[q].seats[k],
    ) by {
        let seat = depot.rides[q].seats[k];
        assert(depot.points_at(q, seat));
        if carries(seats, seat.cell) {
            let j = choose|j: int| 0 <= j < seats.len() && (#[trigger] seats[j]).cell == seat.cell;
            assert(depot.points_at(r, depot.rides[r].seats[j]));
        }
    }
    assert forall|c: u64| #[trigger] after.cells.contains_key(c) implies c < after.next_cell
        && after.found(c) by {
        assert(depot.cells.contains_key(c));
        let loc = depot.cells[c];
        let k = place_of(depot.rides[loc.ride].seats, loc.id);
        assert(0 <= k < depot.rides[loc.ride].seats.len());
        assert(depot.rides[loc.ride].seats[k].cell == c);
    }
}

/// Giving up a seat keeps a depot sound.
proof fn lemma_leave_keeps_wf<P>(depot: DepotView<P>, c: u64)
    requires
        depot.wf(),
        depot.cells.contains_key(c),
    ensures
        depot.without_seat(c).wf(),
        depot.rides.contains_key(depot.cells[c].ride),
        forall|d: u64| d != c ==> (depot.without_seat(c).cells.contains_key(d)
            <==> #[trigger] depot.cells.contains_key(d)),
{
    let after = depot.without_seat(c);
    let loc = depot.cells[c];
    let ride = depot.rides[loc.ride];
    let gone = place_of(ride.seats, loc.id);
    assert(depot.found(c));
    assert(0 <= gone < ride.seats.len());
    assert forall|q: u64, k: int|
        after.rides.contains_key(q) && 0 <= k < after.rides[q].seats.len() implies after.points_at(
        q,
        #[trigger] after.rides[q].seats[k],
    ) by {
        let was = if q == loc.ride && k >= gone {
            k + 1
        } else {
            k
        };
        assert(after.rides[q].seats[k] == depot.rides[q].seats[was]);
        assert(depot.points_at(q, depot.rides[q].seats[was]));
        if q == loc.ride {
            if was < gone {
                assert(ride.seats[was].id < ride.seats[gone].id);
            } else {
                assert(ride.seats[gone].id < ride.seats[was].id);
            }
        }
    }
    assert(after.rides[loc.ride].wf());
    assert forall|d: u64| #[trigger] after.cells.contains_key(d) implies d < after.next_cell
        && after.found(d) by {
        assert(depot.cells.contains_key(d));
        let at = depot.cells[d];
        let k = place_of(depot.rides[at.ride].seats, at.id);
        assert(0 <= k < depot.rides[at.ride].seats.len());
        if at.ride == loc.ride {
            assert(k != gone);
            let now = if k < gone {
                k
            } else {
                k - 1
            };
            assert(after.rides[at.ride].seats[now] == ride.seats[k]);
            lemma_place_unique(after.rides[at.ride], at.id, now);
        }
    }
}

/// Taking a train moves seats and nothing else: the train and the tail together are the ride as
/// it was, in boarding order, and the train has as many of the `n` seats as there were.
pub proof fn law_take_splits_the_ride<P>(depot: DepotView<P>, r: u64, n: nat)
    requires
        depot.wf(),
        depot.rides.contains_key(r),
        depot.next_ride < u64::MAX,
    ensures
        ({
            let after = depot.with_train(r, n);
            let fresh = depot.next_ride as u64;
            &&& after.rides[fresh].seats + after.rides[r].seats == depot.rides[r].seats
            &&& after.rides[fresh].seats.len() == at_most(n, depot.rides[r].seats.len())
            &&& after.cells.dom() == depot.cells.dom()
            &&& forall|q: u64|
                q != r && #[trigger] depot.rides.contains_key(q) ==> after.rides[q] == depot.rides[q]
        }),
{
    let after = depot.with_train(r, n);
    let fresh = depot.next_ride as u64;
    assert(!depot.rides.contains_key(fresh));
    assert(after.rides[fresh].seats + after.rides[r].seats =~= depot.rides[r].seats);
    assert(after.cells.dom() =~= depot.cells.dom());
}

/// A moved pass leaves from its new ride: after a take, the pass of a seat on the train gives
/// up that same seat there, with its cargo, and the ride it came from does not notice.
/// The pass of a seat that stayed finds it where it was.
pub proof fn law_a_moved_pass_leaves_from_its_new_ride<P>(
    depot: DepotView<P>,
    r: u64,
    n: nat,
    c: u64,
    left: Left<P>,
    after: DepotView<P>,
)
    requires
        depot.wf(),
        depot.rides.contains_key(r),
        depot.next_ride < u64::MAX,
        depot.cells.contains_key(c),
        depot.cells[c].ride == r,
        is_left(depot.with_train(r, n), c, left, after),
    ensures
        ({
            let fresh = depot.next_ride as u64;
            let k = place_of(depot.rides[r].seats, depot.cells[c].id);
            let moved = k < at_most(n, depot.rides[r].seats.len());
            let taken = depot.with_train(r, n);
            &&& moved ==> {
                &&& left matches Left::Seat { ride, cargo, .. } && ride.key() == fresh && cargo
                    == depot.rides[r].seats[k].cargo
                &&& after.rides[r] == taken.rides[r]
                &&& after.rides[fresh].seats == taken.rides[fresh].seats.remove(k)
            }
            &&& !moved && !depot.rides[r].departed ==> {
                &&& left matches Left::Seat { ride, cargo, .. } && ride.key() == r && cargo
                    == depot.rides[r].seats[k].cargo
                &&& after.rides[fresh] == taken.rides[fresh]
            }
        }),
{
    let fresh = depot.next_ride as u64;
    let ride = depot.rides[r];
    let split = at_most(n, ride.seats.len());
    let front = ride.seats.take(split);
    let taken = depot.with_train(r, n);
    let id = depot.cells[c].id;
    let k = place_of(ride.seats, id);
    assert(depot.found(c));
    assert(0 <= k < ride.seats.len());
    lemma_take_keeps_wf(depot, r, n);
    assert(!depot.rides.contains_key(fresh));
    if k < split {
        assert(front[k].cell == c);
        assert(carries(front, c));
        assert(taken.rides[fresh].seats[k] == ride.seats[k]);
        lemma_place_unique(taken.rides[fresh], id, k);
    } else {
        if carries(front, c) {
            let j = choose|j: int| 0 <= j < front.len() && (#[trigger] front[j]).cell == c;
            assert(front[j] == ride.seats[j]);
            assert(depot.points_at(r, ride.seats[j]));
            lemma_place_unique(ride, id, j);
        }
        assert(taken.rides[r].seats[k - split] == ride.seats[k]);
        lemma_place_unique(taken.rides[r], id, k - split);
    }
}

/// `loc` is where the seat of cell `c` was at some time: that number of that ride was given
/// out, and if a seat there has it, it is the seat of `c`.
pub open spec fn was_at<P>(depot: DepotView<P>, c: u64, loc: Loc) -> bool {
    &&& loc.ride < depot.next_ride
    &&& depot.rides.contains_key(loc.ride) ==> {
        let ride = depot.rides[loc.ride];
        &&& loc.id < ride.next_id
        &&& forall|k: int|
            0 <= k < ride.seats.len() && (#[trigger] ride.seats[k]).id == loc.id ==> ride.seats[k].cell
                == c
    }
}

/// A location read a while ago never names another passenger's seat, whatever happened since:
/// an attempt there removes the right seat or none, and can be repeated with a fresh location.
pub proof fn law_a_stale_location_names_no_other_seat<P>(
    depot: DepotView<P>,
    c: u64,
    loc: Loc,
    r: u64,
    cargo: P,
    n: nat,
    d: u64,
)
    requires
        depot.wf(),
        was_at(depot, c, loc) || (depot.cells.contains_key(c) && depot.cells[c] == loc),
    ensures
        was_at(depot, c, loc),
        was_at(depot.with_ride(), c, loc),
        depot.rides.contains_key(r) && depot.rides[r].next_id < usize::MAX ==> was_at(
            depot.with_seat(r, cargo),
            c,
            loc,
        ),
        depot.rides.contains_key(r) ==> was_at(depot.with_train(r, n), c, loc),
        depot.rides.contains_key(r) ==> was_at(depot.with_departed(r), c, loc),
        depot.rides.contains_key(r) ==> was_at(depot.without_ride(r), c, loc),
        depot.cells.contains_key(d) ==> was_at(depot.without_seat(d), c, loc),
{
    if depot.cells.contains_key(c) && depot.cells[c] == loc {
        assert(depot.found(c));
        let ride = depot.rides[loc.ride];
        let p = place_of(ride.seats, loc.id);
        assert forall|k: int|
            0 <= k < ride.seats.len() && (#[trigger] ride.seats[k]).id == loc.id implies ride.seats[k].cell
            == c by {
            lemma_place_unique(ride, loc.id, k);
        }
    }
    assert(was_at(depot, c, loc));
    if depot.rides.contains_key(r) {
        let taken = depot.with_train(r, n);
        let ride = depot.rides[r];
        if depot.rides.contains_key(loc.ride) && loc.ride == r {
            let split = at_most(n, ride.seats.len());
            assert(taken.rides[r] == ride.tail(split) || loc.ride == depot.next_ride as u64);
            assert forall|k: int|
                0 <= k < taken.rides[r].seats.len() && (#[trigger] taken.rides[r].seats[k]).id
                    == loc.id implies taken.rides[r].seats[k].cell == c by {
                assert(taken.rides[r].seats[k] == ride.seats[split + k]);
            }
        }
        let boarded = depot.with_seat(r, cargo);
        if loc.ride == r && ride.next_id < usize::MAX {
            assert forall|k: int|
                0 <= k < boarded.rides[r].seats.len() && (#[trigger] boarded.rides[r].seats[k]).id
                    == loc.id implies boarded.rides[r].seats[k].cell == c by {
                if k < ride.seats.len() {
                    assert(boarded.rides[r].seats[k] == ride.seats[k]);
                }
            }
        }
    }
    if depot.cells.contains_key(d) {
        assert(depot.found(d));
        let at = depot.cells[d];
        let gone = place_of(depot.rides[at.ride].seats, at.id);
        let left = depot.without_seat(d);
        if at.ride == loc.ride {
            assert forall|k: int|
                0 <= k < left.rides[at.ride].seats.len() && (
                #[trigger] left.rides[at.ride].seats[k]).id == loc.id implies left.rides[at.ride].seats[k].cell
                == c by {
                let was = if k < gone {
                    k
                } else {
                    k + 1
                };
                assert(left.rides[at.ride].seats[k] == depot.rides[at.ride].seats[was]);
            }
        }
    }
}

/// The abandon latch is irreversible: once everyone left a ride before it departed, nothing
/// that happens to the depot while the ride exists undoes that.
pub proof fn law_abandoned_stays_abandoned<P>(
    depot: DepotView<P>,
    q: u64,
    r: u64,
    cargo: P,
    n: nat,
    d: u64,
)
    requires
        depot.wf(),
        depot.rides.contains_key(q),
        depot.rides[q].abandoned,
    ensures
        depot.with_ride().rides[q].abandoned,
        depot.rides.contains_key(r) ==> depot.with_seat(r, cargo).rides[q].abandoned,
        depot.rides.contains_key(r) ==> depot.with_train(r, n).rides[q].abandoned,
        depot.rides.contains_key(r) ==> depot.with_departed(r).rides[q].abandoned,
        depot.rides.contains_key(r) && r != q ==> depot.without_ride(r).rides[q].abandoned,
        depot.cells.contains_key(d) ==> depot.without_seat(d).rides[q].abandoned,
{
    assert(q != depot.next_ride as u64);
}

/// After departure a pass is a no-op: the seats stay for delivery.
pub proof fn law_after_departure_leaving_changes_nothing<P>(
    depot: DepotView<P>,
    r: u64,
    c: u64,
    left: Left<P>,
    after: DepotView<P>,
)
    requires
        depot.wf(),
        depot.rides.contains_key(r),
        depot.cells.contains_key(c),
        depot.cells[c].ride == r,
        is_left(depot.with_departed(r), c, left, after),
    ensures
        after == depot.with_departed(r),
        left is Departed,
        after.rides[r].seats == depot.rides[r].seats,
{
}

/// A pass leaves once and for itself: its seat and its cell are gone, every other cell still
/// finds its seat where it was, and the ride has one seat less. The last one to leave abandons
/// the ride.
pub proof fn law_a_pass_gives_up_its_own_seat<P>(
    depot: DepotView<P>,
    c: u64,
    left: Left<P>,
    after: DepotView<P>,
)
    requires
        depot.wf(),
        depot.cells.contains_key(c),
        !depot.rides[depot.cells[c].ride].departed,
        is_left(depot, c, left, after),
    ensures
        after.wf(),
        after.cells == depot.cells.remove(c),
        after.rides[depot.cells[c].ride].seats.len() + 1 == depot.rides[depot.cells[c].ride].seats.len(),
        depot.rides[depot.cells[c].ride].seats.len() == 1 ==> after.rides[depot.cells[c].ride].abandoned,
        forall|q: u64|
            q != depot.cells[c].ride && #[trigger] depot.rides.contains_key(q) ==> after.rides[q]
                == depot.rides[q],
{
    lemma_leave_keeps_wf(depot, c);
    assert(depot.found(c));
}

/// Opening a ride adds one that nobody is on, that has not left and that nobody abandoned, and
/// changes nothing else.
pub proof fn law_a_new_ride_is_empty<P>(depot: &mut Depot<P>, ride: Ride)
    requires
        call_ensures(Ride::new::<P>, (depot,), ride),
    ensures
        !old(depot)@.rides.contains_key(ride.key()),
        final(depot)@.rides.contains_key(ride.key()),
        final(depot)@.rides[ride.key()].seats.len() == 0,
        !final(depot)@.rides[ride.key()].departed,
        !final(depot)@.rides[ride.key()].abandoned,
        forall|q: u64| #[trigger]
            old(depot)@.rides.contains_key(q) ==> final(depot)@.rides.contains_key(q) && final(
                depot)@.rides[q] == old(depot)@.rides[q],
        final(depot)@.cells == old(depot)@.cells,
{
}

/// Boarding takes the last seat of its own ride, with the cargo as it is, under a number and a pass
/// that nobody has. It changes no other seat, no other ride and no other pass, and neither departs
/// nor abandons anything.
pub proof fn law_boarding_takes_the_last_seat<P>(
    ride: Ride,
    depot: &mut Depot<P>,
    cargo: P,
    pass: Pass,
)
    requires
        call_ensures(Ride::board::<P>, (&ride, depot, cargo), pass),
        old(depot)@.wf(),
        old(depot)@.rides.contains_key(ride.key()),
        old(depot)@.rides[ride.key()].next_id < usize::MAX,
        old(depot)@.next_cell < u64::MAX,
    ensures
        ({
            let before = old(depot)@;
            let after = final(depot)@;
            let was = before.rides[ride.key()];
            let now = after.rides[ride.key()];
            &&& now.seats.len() == was.seats.len() + 1
            &&& now.seats.drop_last() == was.seats
            &&& now.seats.last().cargo == cargo
            &&& now.seats.last().cell == pass.cell()
            &&& forall|k: int|
                0 <= k < was.seats.len() ==> (#[trigger] was.seats[k]).id < now.seats.last().id
            &&& now.departed == was.departed
            &&& now.abandoned == was.abandoned
            &&& !before.cells.contains_key(pass.cell())
            &&& after.cells.contains_key(pass.cell())
            &&& after.cells[pass.cell()] == (Loc { ride: ride.key(), id: now.seats.last().id })
            &&& forall|c: u64| #[trigger]
                before.cells.contains_key(c) ==> after.cells.contains_key(c) && after.cells[c]
                    == before.cells[c]
            &&& forall|q: u64|
                q != ride.key() && #[trigger] before.rides.contains_key(q)
                    ==> after.rides.contains_key(q) && after.rides[q] == before.rides[q]
        }),
{
    let before = old(depot)@;
    let was = before.rides[ride.key()];
    let now = final(depot)@.rides[ride.key()];
    assert(now.seats.drop_last() =~= was.seats);
    assert(was.wf());
}

/// Whoever boards and leaves at once gets the cargo back, and the ride is as it was but for its
/// numbering; it is abandoned exactly if it was before or nobody else is on it.
pub proof fn law_boarding_and_leaving_gives_the_cargo_back<P>(
    depot: DepotView<P>,
    r: u64,
    cargo: P,
    left: Left<P>,
    after: DepotView<P>,
)
    requires
        depot.wf(),
        depot.rides.contains_key(r),
        !depot.rides[r].departed,
        depot.rides[r].next_id < usize::MAX,
        depot.next_cell < u64::MAX,
        is_left(depot.with_seat(r, cargo), depot.next_cell as u64, left, after),
    ensures
        left is Seat,
        left->ride.key() == r,
        left->cargo == cargo,
        left->emptied <==> depot.rides[r].seats.len() == 0 && !depot.rides[r].abandoned,
        after.rides[r].seats == depot.rides[r].seats,
        after.rides[r].abandoned <==> depot.rides[r].abandoned || depot.rides[r].seats.len() == 0,
        after.cells == depot.cells,
{
    let boarded = depot.with_seat(r, cargo);
    let seats = boarded.rides[r].seats;
    let k = seats.len() - 1;
    let c = depot.next_cell as u64;
    lemma_board_keeps_wf(depot, r, cargo);
    assert(seats[k].cell == c);
    lemma_place_unique(boarded.rides[r], seats[k].id, k);
    assert(seats.remove(k) =~= depot.rides[r].seats);
    assert(!depot.cells.contains_key(c));
    assert(after.cells =~= depot.cells);
}

/// A pass gives up its own seat, wherever it is, and nothing else.
///
/// A pass without a seat changes nothing, nor does one whose ride left. Any other gives up the one
/// seat it is bound to and gets the cargo of that seat; the other seats of the ride stay in order,
/// and all other rides and passes stay as they are. The ride is abandoned exactly if it was before
/// or this was its last seat, and that is told exactly when it happens.
pub proof fn law_leaving_gives_up_one_seat<P>(pass: Pass, depot: &mut Depot<P>, left: Left<P>)
    requires
        call_ensures(Pass::leave::<P>, (pass, depot), left),
        old(depot)@.wf(),
    ensures
        ({
            let before = old(depot)@;
            let after = final(depot)@;
            let c = pass.cell();
            let r = before.cells[c].ride;
            let was = before.rides[r];
            let now = after.rides[r];
            &&& left is NotAboard <==> !before.cells.contains_key(c)
            &&& left is Departed <==> before.cells.contains_key(c) && was.departed
            &&& !(left is Seat) ==> after == before
            &&& left is Seat ==> {
                &&& left->ride.key() == r
                &&& exists|k: int|
                    0 <= k < was.seats.len() && (#[trigger] was.seats[k]).cell == c && left->cargo
                        == was.seats[k].cargo && now.seats == was.seats.remove(k)
                &&& forall|k: int| 0 <= k < now.seats.len() ==> (#[trigger] now.seats[k]).cell != c
                &&& left->emptied <==> was.seats.len() == 1 && !was.abandoned
                &&& now.abandoned <==> was.abandoned || was.seats.len() == 1
                &&& !now.departed
                &&& now.next_id == was.next_id
                &&& after.cells == before.cells.remove(c)
                &&& forall|q: u64| #[trigger]
                    after.rides.contains_key(q) <==> before.rides.contains_key(q)
                &&& forall|q: u64|
                    q != r && #[trigger] before.rides.contains_key(q) ==> after.rides[q]
                        == before.rides[q]
            }
        }),
{
    let before = old(depot)@;
    let c = pass.cell();
    if before.cells.contains_key(c) {
        assert(before.found(c));
        let r = before.cells[c].ride;
        let was = before.rides[r];
        let k = place_of(was.seats, before.cells[c].id);
        assert(0 <= k < was.seats.len() && was.seats[k].cell == c);
        if left is Seat {
            let now = final(depot)@.rides[r];
            assert(now.seats == was.seats.remove(k));
            assert forall|j: int| 0 <= j < now.seats.len() implies (#[trigger] now.seats[j]).cell
                != c by {
                let from = if j < k {
                    j
                } else {
                    j + 1
                };
                assert(now.seats[j] == was.seats[from]);
                assert(before.points_at(r, was.seats[from]));
                if was.seats[from].cell == c {
                    lemma_place_unique(was, before.cells[c].id, from);
                }
            }
        }
    }
}

/// Taking a train moves the first seats, and as many as asked for or as there are, to a ride of
/// their own, in order; the others stay, in order. Every pass of a moved seat finds it there, under
/// the number it had, and every other pass finds its seat where it was. The train has neither left
/// nor been abandoned, the ride it came from is otherwise as it was, and so are all other rides.
pub proof fn law_taking_moves_the_first_seats<P>(
    ride: Ride,
    depot: &mut Depot<P>,
    n: usize,
    taken: Ride,
)
    requires
        call_ensures(Ride::take::<P>, (&ride, depot, n), taken),
        old(depot)@.wf(),
        old(depot)@.rides.contains_key(ride.key()),
        old(depot)@.next_ride < u64::MAX,
    ensures
        ({
            let before = old(depot)@;
            let after = final(depot)@;
            let was = before.rides[ride.key()];
            let tail = after.rides[ride.key()];
            let train = after.rides[taken.key()];
            &&& taken.key() != ride.key()
            &&& !before.rides.contains_key(taken.key())
            &&& after.rides.contains_key(taken.key())
            &&& after.rides.contains_key(ride.key())
            &&& train.seats + tail.seats == was.seats
            &&& train.seats.len() <= n
            &&& train.seats.len() == n || tail.seats.len() == 0
            &&& !train.departed
            &&& !train.abandoned
            &&& train.next_id == was.next_id
            &&& tail.departed == was.departed
            &&& tail.abandoned == was.abandoned
            &&& tail.next_id == was.next_id
            &&& forall|c: u64| #[trigger] after.cells.contains_key(c) <==> before.cells.contains_key(c)
            &&& forall|c: u64| #[trigger]
                before.cells.contains_key(c) ==> after.cells[c].id == before.cells[c].id
            &&& forall|c: u64| #[trigger]
                before.cells.contains_key(c) ==> after.cells[c].ride == if exists|k: int|
                    0 <= k < train.seats.len() && (#[trigger] train.seats[k]).cell == c {
                    taken.key()
                } else {
                    before.cells[c].ride
                }
            &&& forall|q: u64|
                q != ride.key() && #[trigger] before.rides.contains_key(q)
                    ==> after.rides.contains_key(q) && after.rides[q] == before.rides[q]
        }),
{
    let before = old(depot)@;
    let after = final(depot)@;
    let was = before.rides[ride.key()];
    let k = at_most(n as nat, was.seats.len());
    let train = after.rides[taken.key()];
    assert(train.seats == was.seats.take(k));
    assert(train.seats + after.rides[ride.key()].seats =~= was.seats);
    assert forall|c: u64| #[trigger] before.cells.contains_key(c) implies after.cells[c].ride
        == if exists|k: int| 0 <= k < train.seats.len() && (#[trigger] train.seats[k]).cell == c {
        taken.key()
    } else {
        before.cells[c].ride
    } by {
        assert(carries(train.seats, c) <==> exists|k: int|
            0 <= k < train.seats.len() && (#[trigger] train.seats[k]).cell == c);
    }
}

/// Departing seals the ride and changes nothing else: its seats stay for delivery, it is abandoned
/// if it was, and all other rides and all passes stay as they are.
pub proof fn law_departing_only_seals<P>(ride: Ride, depot: &mut Depot<P>)
    requires
        call_ensures(Ride::depart::<P>, (&ride, depot), ()),
        old(depot)@.rides.contains_key(ride.key()),
    ensures
        final(depot)@.rides[ride.key()].departed,
        final(depot)@.rides[ride.key()].seats == old(depot)@.rides[ride.key()].seats,
        final(depot)@.rides[ride.key()].abandoned == old(depot)@.rides[ride.key()].abandoned,
        final(depot)@.rides[ride.key()].next_id == old(depot)@.rides[ride.key()].next_id,
        final(depot)@.cells == old(depot)@.cells,
        forall|q: u64| #[trigger]
            final(depot)@.rides.contains_key(q) <==> old(depot)@.rides.contains_key(q),
        forall|q: u64|
            q != ride.key() && #[trigger] old(depot)@.rides.contains_key(q)
                ==> final(depot)@.rides[q] == old(depot)@.rides[q],
{
}

/// A ride that is given up hands out all its cargo, in boarding order, and takes the passes of its
/// own seats with it and no others.
pub proof fn law_retiring_hands_out_all_cargo<P>(ride: Ride, depot: &mut Depot<P>, cargo: Vec<P>)
    requires
        call_ensures(Ride::retire::<P>, (ride, depot), cargo),
        old(depot)@.wf(),
        old(depot)@.rides.contains_key(ride.key()),
    ensures
        ({
            let before = old(depot)@;
            let after = final(depot)@;
            let seats = before.rides[ride.key()].seats;
            &&& cargo@.len() == seats.len()
            &&& forall|k: int| 0 <= k < seats.len() ==> #[trigger] cargo@[k] == seats[k].cargo
            &&& forall|q: u64| #[trigger]
                after.rides.contains_key(q) <==> q != ride.key() && before.rides.contains_key(q)
            &&& forall|q: u64| #[trigger]
                after.rides.contains_key(q) ==> after.rides[q] == before.rides[q]
            &&& forall|c: u64| #[trigger]
                after.cells.contains_key(c) <==> before.cells.contains_key(c)
                    && before.cells[c].ride != ride.key()
            &&& forall|c: u64| #[trigger]
                after.cells.contains_key(c) ==> after.cells[c] == before.cells[c]
        }),
{
    let before = old(depot)@;
    let after = final(depot)@;
    let r = ride.key();
    let seats = before.rides[r].seats;
    assert forall|c: u64| #[trigger] after.cells.contains_key(c) <==> before.cells.contains_key(c)
        && before.cells[c].ride != r by {
        if before.cells.contains_key(c) {
            assert(before.found(c));
            if carries(seats, c) {
                let k = choose|k: int| 0 <= k < seats.len() && (#[trigger] seats[k]).cell == c;
                assert(before.points_at(r, seats[k]));
            }
            if before.cells[c].ride == r {
                let k = place_of(seats, before.cells[c].id);
                assert(seats[k].cell == c);
            }
        }
    }
}

/// What a ride says of itself agrees: it has as many seats as its length, it is empty exactly if
/// nobody is aboard, and it is abandoned exactly if the latch is set.
pub proof fn law_a_ride_knows_its_seats<P>(
    ride: Ride,
    depot: Depot<P>,
    len: usize,
    empty: bool,
    boarded: bool,
    abandoned: bool,
)
    requires
        call_ensures(Ride::len::<P>, (&ride, &depot), len),
        call_ensures(Ride::is_empty::<P>, (&ride, &depot), empty),
        call_ensures(Ride::boarded::<P>, (&ride, &depot), boarded),
        call_ensures(Ride::abandoned::<P>, (&ride, &depot), abandoned),
    ensures
        len == depot@.rides[ride.key()].seats.len(),
        empty <==> len == 0,
        boarded <==> len > 0,
        abandoned <==> depot@.rides[ride.key()].abandoned,
{
}

/// A ride of a sound depot can be boarded and taken from as long as numbers last, and a pass may
/// leave at any time; whatever is done, the depot stays sound.
pub proof fn law_rides_serve_as_long_as_numbers_last<P>(
    ride: Ride,
    pass: Pass,
    depot: &mut Depot<P>,
    cargo: P,
    n: usize,
    can_board: bool,
    can_open: bool,
)
    requires
        old(depot)@.wf(),
        old(depot)@.rides.contains_key(ride.key()),
        call_ensures(Ride::can_board::<P>, (&ride, &*old(depot)), can_board),
        call_ensures(Depot::<P>::can_open, (&*old(depot),), can_open),
    ensures
        can_board ==> call_requires(Ride::board::<P>, (&ride, depot, cargo)),
        can_open ==> call_requires(Ride::take::<P>, (&ride, depot, n)),
        can_open ==> call_requires(Ride::new::<P>, (depot,)),
        call_requires(Pass::leave::<P>, (pass, depot)),
        call_requires(Ride::depart::<P>, (&ride, depot)),
        call_requires(Ride::retire::<P>, (ride, depot)),
        old(depot)@.rides[ride.key()].next_id < usize::MAX && old(depot)@.next_cell < u64::MAX
            ==> can_board,
        old(depot)@.next_ride < u64::MAX ==> can_open,
{
}

} // verus!
