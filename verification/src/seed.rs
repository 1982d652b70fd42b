//! The seeding run: write a number of fresh keys under a prefix, some of
//! them with an expiry.
//!
//! Like the cleanup run it is a state machine. It asks its driver to draw
//! whether the next key expires, then to write the key, and so on until the
//! number of keys is written. The key of each write ends in a fresh
//! identifier.

use crate::key::SEPARATOR;
use crate::token::{fresh_id, id_text, token_text};
use vstd::prelude::*;
use vstd::string::StringExecFns;

verus! {

/// The number of keys of a run that was given none.
pub const DEFAULT_NUM_KEYS: usize = 40_000;

/// The expiry, in seconds, of a run that was given none.
pub const DEFAULT_TTL_SECS: u64 = 10;

/// The value that every seeded key is written with.
pub const SEED_VALUE: bool = true;

/// The key that ends in the identifier `id` under `prefix`: the prefix, a
/// colon, and the text of the identifier.
pub open spec fn seed_key_text(prefix: Seq<char>, id: u128) -> Seq<char> {
    prefix + seq![SEPARATOR] + token_text(id)
}

/// The key that ends in the identifier `id` under `prefix`.
pub fn seed_key(prefix: &str, id: u128) -> (key: String)
    ensures
        key@ == seed_key_text(prefix@, id),
{
    let mut key = prefix.to_owned();
    proof {
        reveal_strlit(":");
    }
    key.append(":");
    let token = id_text(id);
    key.append(token.as_str());
    key
}

/// What a seeding run is waiting for.
#[derive(Clone, Copy, Debug, PartialEq, Eq, Structural)]
pub enum SeedAwaiting {
    /// The draw that tells whether the key at hand expires.
    Draw,
    /// The write of the key at hand.
    Write,
}

/// What a seeding run asks its driver to do.
#[derive(Debug, PartialEq, Eq)]
pub enum SeedAction {
    /// Draw a number from zero up to, not including, one, and tell whether
    /// it is below the threshold; reply with [`SeedEvent::Drawn`].
    Draw,
    /// Write `key` with the value [`SEED_VALUE`], to expire after `expiry`
    /// seconds, or never where there is none; reply with
    /// [`SeedEvent::Written`].
    Write { key: String, expiry: Option<u64> },
    /// Nothing is left to do.
    Finish,
}

/// A [`SeedAction`] as contracts see it.
pub enum SeedActionView {
    Draw,
    Write { key: Seq<char>, expiry: Option<u64> },
    Finish,
}

impl View for SeedAction {
    type V = SeedActionView;

    open spec fn view(&self) -> SeedActionView {
        match *self {
            SeedAction::Draw => SeedActionView::Draw,
            SeedAction::Write { key, expiry } => SeedActionView::Write { key: key@, expiry },
            SeedAction::Finish => SeedActionView::Finish,
        }
    }
}

/// The driver's reply to what a seeding run asked for.
#[derive(Clone, Copy, Debug, PartialEq, Eq, Structural)]
pub enum SeedEvent {
    /// The draw was made; `expires` tells whether it fell below the
    /// threshold.
    Drawn { expires: bool },
    /// The key was written.
    Written,
}

/// The notice of one written key, the `position`-th of `total`, counted from
/// one.
#[derive(Debug, PartialEq, Eq)]
pub struct Created {
    pub key: String,
    pub expiry: Option<u64>,
    pub position: usize,
    pub total: usize,
}

/// A [`Created`] as contracts see it.
pub struct CreatedView {
    pub key: Seq<char>,
    pub expiry: Option<u64>,
    pub position: nat,
    pub total: nat,
}

impl View for Created {
    type V = CreatedView;

    open spec fn view(&self) -> CreatedView {
        CreatedView {
            key: self.key@,
            expiry: self.expiry,
            position: self.position as nat,
            total: self.total as nat,
        }
    }
}

impl DeepView for Created {
    type V = CreatedView;

    open spec fn deep_view(&self) -> CreatedView {
        self@
    }
}

/// A seeding run as contracts see it.
pub struct SeederView {
    /// The prefix of every key.
    pub prefix: Seq<char>,
    /// The number of keys to write.
    pub total: nat,
    /// The expiry, in seconds, of the keys that get one.
    pub ttl: u64,
    /// The number of keys written.
    pub written: nat,
    /// What the run is waiting for.
    pub awaiting: SeedAwaiting,
    /// The key at hand; empty once all keys are written.
    pub key: Seq<char>,
    /// Whether the key at hand expires; set by the draw.
    pub expires: bool,
}

impl SeederView {
    /// The key at hand of a run that has written `written` keys and holds
    /// the fresh identifier `id`.
    pub open spec fn key_at(prefix: Seq<char>, total: nat, written: nat, id: u128) -> Seq<char> {
        if written < total {
            seed_key_text(prefix, id)
        } else {
            Seq::empty()
        }
    }

    /// A run that has not yet asked for anything; `id` is the fresh
    /// identifier of its first key.
    pub open spec fn start(prefix: Seq<char>, total: nat, ttl: u64, id: u128) -> SeederView {
        SeederView {
            prefix,
            total,
            ttl,
            written: 0,
            awaiting: SeedAwaiting::Draw,
            key: Self::key_at(prefix, total, 0, id),
            expires: false,
        }
    }

    /// Whether nothing is left to do.
    pub open spec fn finished(self) -> bool {
        self.written >= self.total
    }

    /// The expiry of the key at hand.
    pub open spec fn expiry(self) -> Option<u64> {
        if self.expires {
            Some(self.ttl)
        } else {
            None
        }
    }

    /// What the run is waiting on.
    pub open spec fn pending(self) -> SeedActionView {
        if self.finished() {
            SeedActionView::Finish
        } else {
            match self.awaiting {
                SeedAwaiting::Draw => SeedActionView::Draw,
                SeedAwaiting::Write => SeedActionView::Write {
                    key: self.key,
                    expiry: self.expiry(),
                },
            }
        }
    }

    /// Whether `event` is the reply to what the run is waiting on.
    pub open spec fn expects(self, event: SeedEvent) -> bool {
        !self.finished() && match (self.awaiting, event) {
            (SeedAwaiting::Draw, SeedEvent::Drawn { .. }) => true,
            (SeedAwaiting::Write, SeedEvent::Written) => true,
            _ => false,
        }
    }

    /// The run after `event`, where `id` is the fresh identifier that it
    /// takes for its next key. A draw settles the expiry of the key at hand;
    /// a write counts the key and brings the next one. An event that the run
    /// does not expect changes nothing.
    pub open spec fn next(self, event: SeedEvent, id: u128) -> SeederView {
        if !self.expects(event) {
            self
        } else {
            match event {
                SeedEvent::Drawn { expires } => SeederView {
                    awaiting: SeedAwaiting::Write,
                    expires,
                    ..self
                },
                SeedEvent::Written => SeederView {
                    written: self.written + 1,
                    awaiting: SeedAwaiting::Draw,
                    key: Self::key_at(self.prefix, self.total, self.written + 1, id),
                    expires: false,
                    ..self
                },
            }
        }
    }

    /// The notice that `event` gives rise to: one for each write that the
    /// run expects.
    pub open spec fn notice(self, event: SeedEvent) -> Option<CreatedView> {
        if self.expects(event) && event == SeedEvent::Written {
            Some(
                CreatedView {
                    key: self.key,
                    expiry: self.expiry(),
                    position: self.written + 1,
                    total: self.total,
                },
            )
        } else {
            None
        }
    }
}

/// A seeding run.
pub struct Seeder {
    prefix: String,
    total: usize,
    ttl: u64,
    written: usize,
    awaiting: SeedAwaiting,
    key: String,
    expires: bool,
}

impl View for Seeder {
    type V = SeederView;

    closed spec fn view(&self) -> SeederView {
        SeederView {
            prefix: self.prefix@,
            total: self.total as nat,
            ttl: self.ttl,
            written: self.written as nat,
            awaiting: self.awaiting,
            key: self.key@,
            expires: self.expires,
        }
    }
}

impl Seeder {
    /// The key at hand of a run that has written `written` of `total` keys:
    /// a fresh one while keys are left to write.
    fn key_for(prefix: &str, total: usize, written: usize) -> (key: String)
        ensures
            exists|id: u128| key@ == #[trigger] SeederView::key_at(
                prefix@,
                total as nat,
                written as nat,
                id,
            ),
    {
        if written < total {
            let id = fresh_id();
            let key = seed_key(prefix, id);
            assert(key@ == SeederView::key_at(prefix@, total as nat, written as nat, id));
            key
        } else {
            let key = String::new();
            assert(key@ == SeederView::key_at(prefix@, total as nat, written as nat, 0));
            key
        }
    }

    /// A run that writes `num_keys` keys under `prefix`, those that expire
    /// with an expiry of `ttl` seconds.
    pub fn new(prefix: String, num_keys: usize, ttl: u64) -> (run: Seeder)
        ensures
            exists|id: u128| run@ == #[trigger] SeederView::start(prefix@, num_keys as nat, ttl, id),
    {
        let key = Self::key_for(prefix.as_str(), num_keys, 0);
        let ghost id = choose|id: u128| key@ == #[trigger] SeederView::key_at(
            prefix@,
            num_keys as nat,
            0,
            id,
        );
        let run = Seeder {
            prefix,
            total: num_keys,
            ttl,
            written: 0,
            awaiting: SeedAwaiting::Draw,
            key,
            expires: false,
        };
        assert(run@ == SeederView::start(prefix@, num_keys as nat, ttl, id));
        run
    }

    /// Whether nothing is left to do.
    pub fn is_finished(&self) -> (finished: bool)
        ensures
            finished == self@.finished(),
            finished == (self@.pending() == SeedActionView::Finish),
    {
        self.written >= self.total
    }

    /// What the run is waiting on.
    pub fn pending(&self) -> (action: SeedAction)
        ensures
            action@ == self@.pending(),
    {
        if self.written >= self.total {
            SeedAction::Finish
        } else {
            match self.awaiting {
                SeedAwaiting::Draw => SeedAction::Draw,
                SeedAwaiting::Write => SeedAction::Write {
                    key: self.key.clone(),
                    expiry: if self.expires {
                        Some(self.ttl)
                    } else {
                        None
                    },
                },
            }
        }
    }

    /// Takes the reply to what the run was waiting on, moves the run on and
    /// returns the notice to show, if there is one.
    pub fn step(&mut self, event: SeedEvent) -> (notice: Option<Created>)
        ensures
            exists|id: u128| final(self)@ == #[trigger] old(self)@.next(event, id),
            notice.deep_view() == old(self)@.notice(event),
    {
        if self.written >= self.total {
            assert(self@ == old(self)@.next(event, 0));
            return None;
        }
        match (self.awaiting, event) {
            (SeedAwaiting::Draw, SeedEvent::Drawn { expires }) => {
                self.awaiting = SeedAwaiting::Write;
                self.expires = expires;
                assert(self@ == old(self)@.next(event, 0));
                None
            },
            (SeedAwaiting::Write, SeedEvent::Written) => {
                let written = self.written + 1;
                let mut key = Self::key_for(self.prefix.as_str(), self.total, written);
                let ghost id = choose|id: u128| key@ == #[trigger] SeederView::key_at(
                    self.prefix@,
                    self.total as nat,
                    written as nat,
                    id,
                );
                std::mem::swap(&mut self.key, &mut key);
                let notice = Created {
                    key,
                    expiry: if self.expires {
                        Some(self.ttl)
                    } else {
                        None
                    },
                    position: written,
                    total: self.total,
                };
                self.written = written;
                self.awaiting = SeedAwaiting::Draw;
                self.expires = false;
                assert(self@ == old(self)@.next(event, id));
                Some(notice)
            },
            _ => {
                assert(self@ == old(self)@.next(event, 0));
                None
            },
        }
    }
}

} // verus!
