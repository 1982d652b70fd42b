//! The cleanup run: list the keys, sort them, and decide about each in turn.
//!
//! The run is a state machine. It asks for one store call at a time
//! ([`Cleanup::pending`]); the driver makes the call and hands the reply back
//! ([`Cleanup::step`]), which yields the notices to show and moves the run
//! on. A failed store call ends the run: the driver stops asking.

use crate::decision::{classify, decision_for, is_removal, removes, Decision};
use crate::key::is_managed;
use crate::order::{is_sorted, sort_keys, sorted_keys};
use vstd::prelude::*;

verus! {

/// The pattern of a run that was given none: every key.
pub const DEFAULT_PATTERN: &'static str = "*";

/// What a run is waiting for.
#[derive(Clone, Copy, Debug, PartialEq, Eq, Structural)]
pub enum Awaiting {
    /// The keys that match the pattern.
    Listing,
    /// The time to live of the key under the cursor; nothing, once the
    /// cursor is past the last key.
    Ttl,
    /// The deletion of the key under the cursor.
    Deletion,
}

/// The store call that a run asks its driver to make.
#[derive(Debug, PartialEq, Eq)]
pub enum Action {
    /// List the keys that match `pattern`; reply with [`Event::Listed`].
    ListKeys { pattern: String },
    /// Ask for the time to live of `key`; reply with [`Event::Ttl`].
    QueryTtl { key: String },
    /// Delete `key`; reply with [`Event::Deleted`].
    Delete { key: String },
    /// Nothing is left to do.
    Finish,
}

/// An [`Action`] as contracts see it.
pub enum ActionView {
    ListKeys { pattern: Seq<char> },
    QueryTtl { key: Seq<char> },
    Delete { key: Seq<char> },
    Finish,
}

impl View for Action {
    type V = ActionView;

    open spec fn view(&self) -> ActionView {
        match *self {
            Action::ListKeys { pattern } => ActionView::ListKeys { pattern: pattern@ },
            Action::QueryTtl { key } => ActionView::QueryTtl { key: key@ },
            Action::Delete { key } => ActionView::Delete { key: key@ },
            Action::Finish => ActionView::Finish,
        }
    }
}

/// The store's reply to the call that a run asked for.
#[derive(Debug, PartialEq, Eq)]
pub enum Event {
    /// The keys that match the pattern, in any order.
    Listed { keys: Vec<String> },
    /// The time to live of the key asked about, in seconds.
    Ttl { ttl: i64 },
    /// The key was deleted.
    Deleted,
}

/// An [`Event`] as contracts see it.
pub enum EventView {
    Listed { keys: Seq<Seq<char>> },
    Ttl { ttl: int },
    Deleted,
}

impl View for Event {
    type V = EventView;

    open spec fn view(&self) -> EventView {
        match *self {
            Event::Listed { keys } => EventView::Listed { keys: keys.deep_view() },
            Event::Ttl { ttl } => EventView::Ttl { ttl: ttl as int },
            Event::Deleted => EventView::Deleted,
        }
    }
}

/// A line of the run's report.
#[derive(Debug, PartialEq, Eq)]
pub enum Notice {
    /// The store listed `count` keys.
    Retrieved { count: usize },
    /// The `count` keys are in order.
    Sorted { count: usize },
    /// The decision about `key`, the `position`-th of `total` keys, counted
    /// from one.
    Examined { key: String, ttl: i64, decision: Decision, position: usize, total: usize },
    /// The key examined last was deleted.
    Deleted,
}

/// A [`Notice`] as contracts see it.
pub enum NoticeView {
    Retrieved { count: nat },
    Sorted { count: nat },
    Examined { key: Seq<char>, ttl: int, decision: Decision, position: nat, total: nat },
    Deleted,
}

impl View for Notice {
    type V = NoticeView;

    open spec fn view(&self) -> NoticeView {
        match *self {
            Notice::Retrieved { count } => NoticeView::Retrieved { count: count as nat },
            Notice::Sorted { count } => NoticeView::Sorted { count: count as nat },
            Notice::Examined { key, ttl, decision, position, total } => NoticeView::Examined {
                key: key@,
                ttl: ttl as int,
                decision,
                position: position as nat,
                total: total as nat,
            },
            Notice::Deleted => NoticeView::Deleted,
        }
    }
}

impl DeepView for Notice {
    type V = NoticeView;

    open spec fn deep_view(&self) -> NoticeView {
        self@
    }
}

/// A cleanup run as contracts see it.
pub struct CleanupView {
    /// The pattern whose keys the run examines.
    pub pattern: Seq<char>,
    /// Keys whose time to live is at or below this are deleted.
    pub max_ttl: int,
    /// Whether the run deletes; without it the run only reports.
    pub commit: bool,
    /// The listed keys in ascending order; empty until they are listed.
    pub keys: Seq<Seq<char>>,
    /// How many keys have been dealt with.
    pub cursor: nat,
    /// What the run is waiting for.
    pub awaiting: Awaiting,
}

impl CleanupView {
    /// What holds of every run: the keys are in ascending order, and a run
    /// waits for a deletion only if it commits, and only for that of a key
    /// outside the managed namespace.
    pub open spec fn inv(self) -> bool {
        &&& self.cursor <= self.keys.len()
        &&& is_sorted(self.keys)
        &&& self.awaiting == Awaiting::Listing ==> self.keys.len() == 0
        &&& self.awaiting == Awaiting::Deletion ==> {
            &&& self.cursor < self.keys.len()
            &&& self.commit
            &&& !is_managed(self.current())
        }
    }

    /// A run that has not yet asked for anything.
    pub open spec fn start(pattern: Seq<char>, max_ttl: int, commit: bool) -> CleanupView {
        CleanupView {
            pattern,
            max_ttl,
            commit,
            keys: Seq::empty(),
            cursor: 0,
            awaiting: Awaiting::Listing,
        }
    }

    /// Whether nothing is left to do.
    pub open spec fn finished(self) -> bool {
        self.awaiting != Awaiting::Listing && self.cursor >= self.keys.len()
    }

    /// The key under the cursor.
    pub open spec fn current(self) -> Seq<char>
        recommends
            self.cursor < self.keys.len(),
    {
        self.keys[self.cursor as int]
    }

    /// The call that the run is waiting on.
    pub open spec fn pending(self) -> ActionView {
        if self.finished() {
            ActionView::Finish
        } else {
            match self.awaiting {
                Awaiting::Listing => ActionView::ListKeys { pattern: self.pattern },
                Awaiting::Ttl => ActionView::QueryTtl { key: self.current() },
                Awaiting::Deletion => ActionView::Delete { key: self.current() },
            }
        }
    }

    /// Whether `event` is the reply to the call that the run is waiting on.
    pub open spec fn expects(self, event: EventView) -> bool {
        !self.finished() && match (self.awaiting, event) {
            (Awaiting::Listing, EventView::Listed { .. }) => true,
            (Awaiting::Ttl, EventView::Ttl { .. }) => true,
            (Awaiting::Deletion, EventView::Deleted) => true,
            _ => false,
        }
    }

    /// The run with the cursor on the next key.
    pub open spec fn advanced(self) -> CleanupView {
        CleanupView { cursor: self.cursor + 1, awaiting: Awaiting::Ttl, ..self }
    }

    /// The run after `event`. The listing is sorted, which keeps every key
    /// and puts the keys in ascending order; a time to live leads to the
    /// deletion of the key under the cursor where the run commits and the
    /// key is to be deleted, else to the next key; a deletion leads to the
    /// next key. An event that the run does not expect changes nothing.
    pub open spec fn next(self, event: EventView) -> CleanupView {
        if !self.expects(event) {
            self
        } else {
            match event {
                EventView::Listed { keys } => CleanupView {
                    keys: sorted_keys(keys),
                    cursor: 0,
                    awaiting: Awaiting::Ttl,
                    ..self
                },
                EventView::Ttl { ttl } => if removes(
                    decision_for(self.current(), ttl, self.max_ttl),
                    self.commit,
                ) {
                    CleanupView { awaiting: Awaiting::Deletion, ..self }
                } else {
                    self.advanced()
                },
                EventView::Deleted => self.advanced(),
            }
        }
    }

    /// The notices that `event` gives rise to: the two counts for a listing,
    /// the decision for a time to live, the confirmation for a deletion, and
    /// none for an event that the run does not expect.
    pub open spec fn notices(self, event: EventView) -> Seq<NoticeView> {
        if !self.expects(event) {
            Seq::empty()
        } else {
            match event {
                EventView::Listed { keys } => seq![
                    NoticeView::Retrieved { count: keys.len() },
                    NoticeView::Sorted { count: keys.len() },
                ],
                EventView::Ttl { ttl } => seq![
                    NoticeView::Examined {
                        key: self.current(),
                        ttl,
                        decision: decision_for(self.current(), ttl, self.max_ttl),
                        position: self.cursor + 1,
                        total: self.keys.len(),
                    },
                ],
                EventView::Deleted => seq![NoticeView::Deleted],
            }
        }
    }
}

/// A cleanup run.
pub struct Cleanup {
    pattern: String,
    max_ttl: i64,
    commit: bool,
    keys: Vec<String>,
    cursor: usize,
    awaiting: Awaiting,
}

impl View for Cleanup {
    type V = CleanupView;

    closed spec fn view(&self) -> CleanupView {
        CleanupView {
            pattern: self.pattern@,
            max_ttl: self.max_ttl as int,
            commit: self.commit,
            keys: self.keys.deep_view(),
            cursor: self.cursor as nat,
            awaiting: self.awaiting,
        }
    }
}

impl Cleanup {
    #[verifier::type_invariant]
    spec fn well_formed(self) -> bool {
        self@.inv()
    }

    /// A run over the keys that match `pattern`, which deletes those whose
    /// time to live is at or below `max_ttl` if `commit` is set, and only
    /// reports otherwise.
    pub fn new(pattern: String, max_ttl: i64, commit: bool) -> (run: Cleanup)
        ensures
            run@ == CleanupView::start(pattern@, max_ttl as int, commit),
            run@.inv(),
    {
        let run = Cleanup {
            pattern,
            max_ttl,
            commit,
            keys: Vec::new(),
            cursor: 0,
            awaiting: Awaiting::Listing,
        };
        assert(run.keys.deep_view() =~= Seq::<Seq<char>>::empty());
        run
    }

    /// Whether nothing is left to do.
    pub fn is_finished(&self) -> (finished: bool)
        ensures
            finished == self@.finished(),
            finished == (self@.pending() == ActionView::Finish),
    {
        self.awaiting != Awaiting::Listing && self.cursor >= self.keys.len()
    }

    /// The call that the run is waiting on.
    pub fn pending(&self) -> (action: Action)
        ensures
            action@ == self@.pending(),
            action@ matches ActionView::Delete { key } ==> self@.commit && !is_managed(key),
    {
        proof {
            use_type_invariant(self);
        }
        if self.is_finished() {
            Action::Finish
        } else {
            match self.awaiting {
                Awaiting::Listing => Action::ListKeys { pattern: self.pattern.clone() },
                Awaiting::Ttl => Action::QueryTtl { key: self.keys[self.cursor].clone() },
                Awaiting::Deletion => Action::Delete { key: self.keys[self.cursor].clone() },
            }
        }
    }

    /// Takes the reply to the pending call, moves the run on and returns the
    /// notices to show.
    pub fn step(&mut self, event: Event) -> (notices: Vec<Notice>)
        ensures
            final(self)@ == old(self)@.next(event@),
            notices.deep_view() == old(self)@.notices(event@),
            final(self)@.inv(),
    {
        proof {
            use_type_invariant(&*self);
        }
        let mut notices: Vec<Notice> = Vec::new();
        match event {
            Event::Listed { keys } => {
                if self.awaiting == Awaiting::Listing {
                    let mut keys = keys;
                    let count = keys.len();
                    sort_keys(&mut keys);
                    self.awaiting = Awaiting::Ttl;
                    self.keys = keys;
                    notices.push(Notice::Retrieved { count });
                    notices.push(Notice::Sorted { count });
                }
            },
            Event::Ttl { ttl } => {
                if self.awaiting == Awaiting::Ttl && self.cursor < self.keys.len() {
                    let key = self.keys[self.cursor].clone();
                    let decision = classify(key.as_str(), ttl, self.max_ttl);
                    notices.push(
                        Notice::Examined {
                            key,
                            ttl,
                            decision,
                            position: self.cursor + 1,
                            total: self.keys.len(),
                        },
                    );
                    if is_removal(decision, self.commit) {
                        self.awaiting = Awaiting::Deletion;
                    } else {
                        self.cursor = self.cursor + 1;
                    }
                }
            },
            Event::Deleted => {
                if self.awaiting == Awaiting::Deletion && self.cursor < self.keys.len() {
                    notices.push(Notice::Deleted);
                    self.awaiting = Awaiting::Ttl;
                    self.cursor = self.cursor + 1;
                }
            },
        }
        notices
    }
}

} // verus!
