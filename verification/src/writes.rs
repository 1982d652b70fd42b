//! A model of a driver that serves a seeding run to its end, and what
//! follows for whole runs: the number of keys written, their names and
//! their expiries.

use crate::key::SEPARATOR;
use crate::order::{key_le, lemma_common_start};
use crate::seed::{seed_key_text, SeedActionView, SeedAwaiting, SeedEvent, SeederView};
use crate::token::{
    lemma_token_shape, lemma_token_text_injective, lemma_token_text_sorts_as_id, token_text,
    TOKEN_LEN,
};
use vstd::prelude::*;

verus! {

/// One write that a seeding run asked for.
pub struct WriteView {
    /// The key written.
    pub key: Seq<char>,
    /// The seconds after which it expires, if it does.
    pub expiry: Option<u64>,
}

/// An upper bound on what a seeding run still asks for.
pub open spec fn asks_left(run: SeederView) -> nat {
    if run.finished() {
        0
    } else if run.awaiting == SeedAwaiting::Write {
        (2 * (run.total - run.written) - 1) as nat
    } else {
        (2 * (run.total - run.written)) as nat
    }
}

/// Serves `run` until it asks for nothing more, and gives the writes that
/// it asked for, in order. The draw for the key after `n` written keys is
/// `draws(n)`, and the fresh identifier of that key is `ids(n)`.
pub open spec fn seed_to_end(
    run: SeederView,
    draws: spec_fn(nat) -> bool,
    ids: spec_fn(nat) -> u128,
) -> Seq<WriteView>
    decreases asks_left(run),
{
    match run.pending() {
        SeedActionView::Draw => seed_to_end(
            run.next(SeedEvent::Drawn { expires: draws(run.written) }, 0),
            draws,
            ids,
        ),
        SeedActionView::Write { key, expiry } => seq![WriteView { key, expiry }] + seed_to_end(
            run.next(SeedEvent::Written, ids(run.written + 1)),
            draws,
            ids,
        ),
        SeedActionView::Finish => Seq::empty(),
    }
}

/// The write of the key after `n` written keys.
pub open spec fn write_at(
    prefix: Seq<char>,
    ttl: u64,
    draws: spec_fn(nat) -> bool,
    ids: spec_fn(nat) -> u128,
    n: nat,
) -> WriteView {
    WriteView {
        key: seed_key_text(prefix, ids(n)),
        expiry: if draws(n) {
            Some(ttl)
        } else {
            None
        },
    }
}

/// A run that waits for a draw writes each of the keys that are left, each
/// under the prefix with its own identifier and with the expiry that its
/// draw calls for.
proof fn lemma_writes_from(run: SeederView, draws: spec_fn(nat) -> bool, ids: spec_fn(nat) -> u128)
    requires
        run.awaiting == SeedAwaiting::Draw,
        run.written <= run.total,
        run.key == SeederView::key_at(run.prefix, run.total, run.written, ids(run.written)),
    ensures
        seed_to_end(run, draws, ids).len() == run.total - run.written,
        forall|j: int|
            0 <= j < run.total - run.written ==> #[trigger] seed_to_end(run, draws, ids)[j]
                == write_at(run.prefix, run.ttl, draws, ids, (run.written + j) as nat),
    decreases run.total - run.written,
{
    if run.written < run.total {
        let drawn = run.next(SeedEvent::Drawn { expires: draws(run.written) }, 0);
        let after = drawn.next(SeedEvent::Written, ids(run.written + 1));
        lemma_writes_from(after, draws, ids);
        let rest = seed_to_end(after, draws, ids);
        let first = write_at(run.prefix, run.ttl, draws, ids, run.written);
        assert(seed_to_end(drawn, draws, ids) == seq![first] + rest);
        assert forall|j: int| 0 <= j < run.total - run.written implies #[trigger] seed_to_end(
            run,
            draws,
            ids,
        )[j] == write_at(run.prefix, run.ttl, draws, ids, (run.written + j) as nat) by {
            if j > 0 {
                assert(rest[j - 1] == write_at(
                    run.prefix,
                    run.ttl,
                    draws,
                    ids,
                    (after.written + (j - 1)) as nat,
                ));
            }
        }
    }
}

/// A seeding run writes exactly the number of keys it was asked for: the
/// `n`-th write, counted from zero, is of the key under the prefix that ends
/// in the `n`-th identifier, and it has the expiry exactly when the `n`-th
/// draw fell below the threshold.
pub proof fn lemma_seed_writes_each_key(
    prefix: Seq<char>,
    total: nat,
    ttl: u64,
    draws: spec_fn(nat) -> bool,
    ids: spec_fn(nat) -> u128,
)
    ensures
        seed_to_end(SeederView::start(prefix, total, ttl, ids(0)), draws, ids).len() == total,
        forall|n: int|
            0 <= n < total ==> #[trigger] seed_to_end(
                SeederView::start(prefix, total, ttl, ids(0)),
                draws,
                ids,
            )[n] == write_at(prefix, ttl, draws, ids, n as nat),
{
    lemma_writes_from(SeederView::start(prefix, total, ttl, ids(0)), draws, ids);
}

/// A seeded key starts with the prefix and a colon, and the 26 characters of
/// its identifier follow; the identifier holds no colon.
pub proof fn lemma_seed_key_shape(prefix: Seq<char>, id: u128)
    ensures
        (prefix + seq![SEPARATOR]).is_prefix_of(seed_key_text(prefix, id)),
        seed_key_text(prefix, id).len() == prefix.len() + 1 + TOKEN_LEN,
        seed_key_text(prefix, id).skip(prefix.len() as int + 1) == token_text(id),
        !token_text(id).contains(SEPARATOR),
{
    lemma_token_shape(id);
}

/// Under one prefix, two identifiers give the same key only if they are the
/// same identifier.
pub proof fn lemma_seed_key_injective(prefix: Seq<char>, a: u128, b: u128)
    requires
        seed_key_text(prefix, a) == seed_key_text(prefix, b),
    ensures
        a == b,
{
    lemma_seed_key_shape(prefix, a);
    lemma_seed_key_shape(prefix, b);
    lemma_token_text_injective(a, b);
}

/// As long as no identifier is drawn twice, no key is written twice.
pub proof fn lemma_fresh_ids_give_distinct_keys(
    prefix: Seq<char>,
    total: nat,
    ttl: u64,
    draws: spec_fn(nat) -> bool,
    ids: spec_fn(nat) -> u128,
)
    requires
        forall|m: nat, n: nat| m < n < total ==> #[trigger] ids(m) != #[trigger] ids(n),
    ensures
        forall|m: int, n: int|
            0 <= m < n < total ==> (#[trigger] seed_to_end(
                SeederView::start(prefix, total, ttl, ids(0)),
                draws,
                ids,
            )[m]).key != (#[trigger] seed_to_end(
                SeederView::start(prefix, total, ttl, ids(0)),
                draws,
                ids,
            )[n]).key,
{
    lemma_seed_writes_each_key(prefix, total, ttl, draws, ids);
    let writes = seed_to_end(SeederView::start(prefix, total, ttl, ids(0)), draws, ids);
    assert forall|m: int, n: int| 0 <= m < n < total implies (#[trigger] writes[m]).key != (
    #[trigger] writes[n]).key by {
        if writes[m].key == writes[n].key {
            lemma_seed_key_injective(prefix, ids(m as nat), ids(n as nat));
        }
    }
}

/// Under one prefix, keys are in lexicographic order exactly when their
/// identifiers are in order.
pub proof fn lemma_seed_keys_sort_as_ids(prefix: Seq<char>, a: u128, b: u128)
    ensures
        key_le(seed_key_text(prefix, a), seed_key_text(prefix, b)) <==> a <= b,
{
    lemma_common_start(prefix + seq![SEPARATOR], token_text(a), token_text(b));
    lemma_token_text_sorts_as_id(a, b);
}

} // verus!
