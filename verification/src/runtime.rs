//! The protocols that the emitted bindings follow when they run: the count
//! behind a shared handle, the guard in front of a table that is populated
//! once, the population of the table, and the check behind a downcast.
//!
//! Each protocol is a function from a state and an event to the next state
//! and the action to take. Whoever drives it performs the action; the
//! decisions are made here.

use crate::api::{Api, ApiView};
use crate::text::str_eq;
use vstd::prelude::*;
use vstd::string::*;

verus! {

/// The count of a reference-counted object after one more handle was made.
pub open spec fn acquired(count: nat) -> nat {
    count + 1
}

/// The count of a reference-counted object after a handle was released.
pub open spec fn released(count: nat) -> nat {
    if count > 0 {
        (count - 1) as nat
    } else {
        0
    }
}

/// The logical reference count of one engine object. The object lives while
/// the count is positive and is destroyed when the count reaches zero.
#[derive(Debug)]
pub struct RefCount {
    count: u64,
}

impl View for RefCount {
    type V = nat;

    closed spec fn view(&self) -> nat {
        self.count as nat
    }
}

impl RefCount {
    /// Whether the object is alive.
    pub open spec fn alive(&self) -> bool {
        self@ > 0
    }

    /// The count of a freshly constructed object, which has one handle.
    pub fn new() -> (r: RefCount)
        ensures
            r@ == 1,
    {
        RefCount { count: 1 }
    }

    /// The number of handles to the object.
    pub fn count(&self) -> (r: u64)
        ensures
            r == self@,
    {
        self.count
    }

    /// Tells whether the object is alive.
    pub fn is_alive(&self) -> (r: bool)
        ensures
            r == self.alive(),
    {
        self.count > 0
    }

    /// Clones a handle: raises the count by one. A destroyed object has no
    /// handle to clone, and a count at its limit cannot be raised: the count
    /// is then left as it is, and the result is `false`.
    pub fn acquire(&mut self) -> (ok: bool)
        ensures
            ok == (old(self).alive() && old(self)@ < u64::MAX),
            ok ==> final(self)@ == acquired(old(self)@),
            !ok ==> final(self)@ == old(self)@,
    {
        if self.count > 0 && self.count < u64::MAX {
            self.count = self.count + 1;
            true
        } else {
            false
        }
    }

    /// Releases a handle: lowers the count by one. The result tells whether
    /// this release destroyed the object, which it does exactly when it
    /// was the last handle. Releasing a destroyed object changes nothing and
    /// gives `None`.
    pub fn release(&mut self) -> (destroyed: Option<bool>)
        ensures
            final(self)@ == released(old(self)@),
            old(self).alive() ==> destroyed == Some(!final(self).alive()),
            !old(self).alive() ==> destroyed is None,
    {
        if self.count > 0 {
            self.count = self.count - 1;
            Some(self.count == 0)
        } else {
            None
        }
    }
}

/// A clone that is released again leaves the count where it was, and the
/// object alive.
pub proof fn lemma_clone_then_release(count: nat)
    requires
        count > 0,
    ensures
        released(acquired(count)) == count,
        released(acquired(count)) > 0,
{
}

/// An object with one handle survives a clone and the release of one of the
/// two handles, and is destroyed by the release of the other: the count
/// goes from one to two, back to one, and to zero.
pub proof fn lemma_last_release_destroys()
    ensures
        acquired(1) == 2,
        released(acquired(1)) == 1,
        released(released(acquired(1))) == 0,
{
}

/// Where the one-time population of a table stands.
#[derive(Clone, Copy, PartialEq, Eq, Debug)]
pub enum InitState {
    Uninitialized,
    Initializing,
    Ready,
}

/// What happens at the guard.
#[derive(Clone, Copy, PartialEq, Eq, Debug)]
pub enum InitEvent {
    /// A caller asks for the table.
    Arrive,
    /// The caller that populates the table has finished.
    Complete,
}

/// What a caller at the guard is told to do.
#[derive(Clone, Copy, PartialEq, Eq, Debug)]
pub enum InitAction {
    /// Populate the table, then report completion.
    Initialize,
    /// Block until the table is ready.
    Wait,
    /// Use the table.
    Proceed,
    /// Nothing: the event was no request.
    Nothing,
}

/// The state of the guard after `event`.
pub open spec fn init_next(state: InitState, event: InitEvent) -> InitState {
    match (state, event) {
        (InitState::Uninitialized, InitEvent::Arrive) => InitState::Initializing,
        (InitState::Initializing, InitEvent::Complete) => InitState::Ready,
        _ => state,
    }
}

/// What the guard tells the caller behind `event`.
pub open spec fn init_action(state: InitState, event: InitEvent) -> InitAction {
    match (state, event) {
        (InitState::Uninitialized, InitEvent::Arrive) => InitAction::Initialize,
        (InitState::Initializing, InitEvent::Arrive) => InitAction::Wait,
        (InitState::Ready, InitEvent::Arrive) => InitAction::Proceed,
        (_, InitEvent::Complete) => InitAction::Nothing,
    }
}

/// The state of the guard after the events `events`, in order.
pub open spec fn init_after(state: InitState, events: Seq<InitEvent>) -> InitState
    decreases events.len(),
{
    if events.len() == 0 {
        state
    } else {
        init_next(init_after(state, events.drop_last()), events.last())
    }
}

/// How often the events `events` made a caller populate the table.
pub open spec fn initializations(state: InitState, events: Seq<InitEvent>) -> nat
    decreases events.len(),
{
    if events.len() == 0 {
        0
    } else {
        initializations(state, events.drop_last()) + if init_action(
            init_after(state, events.drop_last()),
            events.last(),
        ) == InitAction::Initialize {
            1nat
        } else {
            0nat
        }
    }
}

/// Decides what happens at the guard on `event`.
pub fn init_step(state: InitState, event: InitEvent) -> (r: (InitState, InitAction))
    ensures
        r.0 == init_next(state, event),
        r.1 == init_action(state, event),
{
    match event {
        InitEvent::Arrive => match state {
            InitState::Uninitialized => (InitState::Initializing, InitAction::Initialize),
            InitState::Initializing => (InitState::Initializing, InitAction::Wait),
            InitState::Ready => (InitState::Ready, InitAction::Proceed),
        },
        InitEvent::Complete => match state {
            InitState::Initializing => (InitState::Ready, InitAction::Nothing),
            _ => (state, InitAction::Nothing),
        },
    }
}

/// The table is populated exactly once, however many callers arrive and in
/// whatever order: a guard that starts uninitialized tells one caller to
/// populate the table, the first to arrive, and nobody after it.
pub proof fn lemma_initialized_once(events: Seq<InitEvent>)
    ensures
        initializations(InitState::Uninitialized, events) == (if events.contains(
            InitEvent::Arrive,
        ) {
            1nat
        } else {
            0nat
        }),
        init_after(InitState::Uninitialized, events) == InitState::Uninitialized
            <==> !events.contains(InitEvent::Arrive),
    decreases events.len(),
{
    if events.len() > 0 {
        let earlier = events.drop_last();
        lemma_initialized_once(earlier);
        if earlier.contains(InitEvent::Arrive) {
            let k = choose|k: int| 0 <= k < earlier.len() && earlier[k] == InitEvent::Arrive;
            assert(events[k] == InitEvent::Arrive);
        }
        if events.last() == InitEvent::Arrive {
            assert(events[events.len() - 1] == InitEvent::Arrive);
        }
        if events.contains(InitEvent::Arrive) && events.last() != InitEvent::Arrive {
            let k = choose|k: int| 0 <= k < events.len() && events[k] == InitEvent::Arrive;
            assert(earlier[k] == InitEvent::Arrive);
        }
    }
}

/// No caller uses a table that is not fully populated: the guard lets a
/// caller proceed only when it is ready, and it is ready only after the
/// population was completed.
pub proof fn lemma_proceed_only_when_ready(state: InitState, event: InitEvent)
    ensures
        init_action(state, event) == InitAction::Proceed ==> state == InitState::Ready,
        init_next(state, event) == InitState::Ready ==> state == InitState::Ready || (state
            == InitState::Initializing && event == InitEvent::Complete),
{
}

/// A table is ready only after a caller has arrived and the population has
/// been completed, whatever else happened in between.
pub proof fn lemma_ready_after_completion(events: Seq<InitEvent>)
    requires
        init_after(InitState::Uninitialized, events) == InitState::Ready,
    ensures
        events.contains(InitEvent::Arrive),
        events.contains(InitEvent::Complete),
    decreases events.len(),
{
    if events.len() > 0 {
        let earlier = events.drop_last();
        let before = init_after(InitState::Uninitialized, earlier);
        assert(events[events.len() - 1] == events.last());
        if before == InitState::Ready {
            lemma_ready_after_completion(earlier);
            let a = choose|k: int| 0 <= k < earlier.len() && earlier[k] == InitEvent::Arrive;
            let c = choose|k: int| 0 <= k < earlier.len() && earlier[k] == InitEvent::Complete;
            assert(events[a] == InitEvent::Arrive);
            assert(events[c] == InitEvent::Complete);
        } else {
            lemma_initialized_once(earlier);
            let a = choose|k: int| 0 <= k < earlier.len() && earlier[k] == InitEvent::Arrive;
            assert(events[a] == InitEvent::Arrive);
        }
    }
}

/// A slot for which the engine had no pointer.
#[derive(Clone, Debug, PartialEq, Eq)]
pub struct BindError {
    /// The position of the slot in the table.
    pub slot: usize,
}

/// The position of the first slot without a pointer, if there is one.
pub open spec fn first_unresolved(resolved: Seq<Option<u64>>) -> Option<int>
    decreases resolved.len(),
{
    if resolved.len() == 0 {
        None
    } else {
        match first_unresolved(resolved.drop_last()) {
            Some(i) => Some(i),
            None => if resolved.last() is None {
                Some(resolved.len() - 1)
            } else {
                None
            },
        }
    }
}

/// Populates a table from what the engine answered for each of its slots, in
/// table order. A slot without a pointer is fatal: the table is not handed
/// out with a hole in it, and the first such slot is reported.
pub fn populate_table(resolved: &Vec<Option<u64>>) -> (r: Result<Vec<u64>, BindError>)
    ensures
        match r {
            Ok(table) => {
                &&& first_unresolved(resolved@) is None
                &&& table.len() == resolved.len()
                &&& forall|i: int| 0 <= i < table.len() ==> resolved@[i] == Some(table@[i])
            },
            Err(e) => first_unresolved(resolved@) == Some(e.slot as int),
        },
{
    let mut table: Vec<u64> = Vec::new();
    let mut i: usize = 0;
    assert(resolved@.take(0) =~= Seq::<Option<u64>>::empty());
    while i < resolved.len()
        invariant
            i <= resolved.len(),
            table.len() == i,
            first_unresolved(resolved@.take(i as int)) is None,
            forall|k: int| 0 <= k < i ==> resolved@[k] == Some(table@[k]),
        decreases resolved.len() - i,
    {
        assert(resolved@.take(i as int + 1).drop_last() =~= resolved@.take(i as int));
        match resolved[i] {
            Some(pointer) => {
                table.push(pointer);
            },
            None => {
                proof {
                    lemma_unresolved_extends(resolved@, i as int + 1);
                }
                return Err(BindError { slot: i });
            },
        }
        i += 1;
    }
    assert(resolved@.take(resolved.len() as int) =~= resolved@);
    Ok(table)
}

/// A hole among the first `k` slots is the first hole of the table.
proof fn lemma_unresolved_extends(resolved: Seq<Option<u64>>, k: int)
    requires
        0 <= k <= resolved.len(),
        first_unresolved(resolved.take(k)) is Some,
    ensures
        first_unresolved(resolved) == first_unresolved(resolved.take(k)),
    decreases resolved.len() - k,
{
    if k < resolved.len() {
        assert(resolved.take(k + 1).drop_last() =~= resolved.take(k));
        lemma_unresolved_extends(resolved, k + 1);
    } else {
        assert(resolved.take(k) =~= resolved);
    }
}

/// Whether an object whose class is called `dynamic` may be used as an
/// instance of the class called `target`: it is of that class, or of one
/// that descends from it.
pub open spec fn is_instance_of(api: ApiView, dynamic: Seq<char>, target: Seq<char>) -> bool {
    api.has_class(dynamic) && (dynamic == target || api.inherits(api.class_named(dynamic), target))
}

/// The check behind a downcast: tells whether an object whose class is
/// called `dynamic` is an instance of the class called `target`. An object of
/// another line of classes is no match, which is an ordinary answer and no
/// failure.
pub fn check_downcast(api: &Api, dynamic: &str, target: &str) -> (r: bool)
    ensures
        r == is_instance_of(api.deep_view(), dynamic@, target@),
{
    match api.find_class(dynamic) {
        None => false,
        Some(class) => str_eq(dynamic, target) || api.class_inherits(class, target),
    }
}

} // verus!
