//! A model of the store and of a driver that serves a cleanup run to its
//! end, and what follows for whole runs: a run that does not commit changes
//! nothing, a second committing run finds nothing left to delete, and managed
//! keys outlast every run.

use crate::cleanup::{ActionView, Awaiting, CleanupView, EventView, NoticeView};
use crate::decision::{decision_for, removes};
use crate::key::is_managed;
use crate::order::{lemma_sorted_keys, sorted_keys};
use vstd::prelude::*;

verus! {

/// The time to live that the store reports for a key that it does not hold.
pub const MISSING: i64 = -2;

/// The time to live that `store` reports for `key`. The model of a store is
/// a map from each key that it holds to the key's time to live.
pub open spec fn ttl_in(store: Map<Seq<char>, int>, key: Seq<char>) -> int {
    if store.dom().contains(key) {
        store[key]
    } else {
        MISSING as int
    }
}

/// What a run that was served to its end leaves behind.
pub struct Outcome {
    /// The store after the run.
    pub store: Map<Seq<char>, int>,
    /// The notices of the run, in order.
    pub notices: Seq<NoticeView>,
    /// The keys whose deletion the run asked for, in order.
    pub deleted: Seq<Seq<char>>,
}

/// Whether `after` holds nothing but keys of `before`, each with the time to
/// live it has there.
pub open spec fn is_rest_of(after: Map<Seq<char>, int>, before: Map<Seq<char>, int>) -> bool {
    forall|key: Seq<char>| #[trigger]
        after.dom().contains(key) ==> before.dom().contains(key) && after[key] == before[key]
}

/// An upper bound on the store calls that a listed run still asks for.
pub open spec fn calls_left(run: CleanupView) -> nat {
    if run.finished() || run.awaiting == Awaiting::Listing {
        0
    } else if run.awaiting == Awaiting::Deletion {
        (2 * (run.keys.len() - run.cursor) - 1) as nat
    } else {
        (2 * (run.keys.len() - run.cursor)) as nat
    }
}

/// Serves `run` against `store` until it asks for nothing more: each query
/// is answered from the store, each deletion takes the key out of it. A run
/// that still waits for its listing is not served.
pub open spec fn run_to_end(run: CleanupView, store: Map<Seq<char>, int>) -> Outcome
    decreases calls_left(run),
{
    match run.pending() {
        ActionView::QueryTtl { key } => {
            let event = EventView::Ttl { ttl: ttl_in(store, key) };
            let rest = run_to_end(run.next(event), store);
            Outcome { notices: run.notices(event) + rest.notices, ..rest }
        },
        ActionView::Delete { key } => {
            let event = EventView::Deleted;
            let rest = run_to_end(run.next(event), store.remove(key));
            Outcome {
                notices: run.notices(event) + rest.notices,
                deleted: seq![key] + rest.deleted,
                ..rest
            }
        },
        _ => Outcome { store, notices: Seq::empty(), deleted: Seq::empty() },
    }
}

/// The run over `listing`, once the listing has arrived.
pub open spec fn listed_run(
    pattern: Seq<char>,
    max_ttl: int,
    commit: bool,
    listing: Seq<Seq<char>>,
) -> CleanupView {
    CleanupView::start(pattern, max_ttl, commit).next(EventView::Listed { keys: listing })
}

/// Every event leaves a well-formed run well formed.
pub proof fn lemma_step_keeps_inv(run: CleanupView, event: EventView)
    requires
        run.inv(),
    ensures
        run.next(event).inv(),
{
    if let EventView::Listed { keys } = event {
        lemma_sorted_keys(keys);
    }
}

/// A run that never decides to remove a key leaves the store as it was and
/// asks for no deletion.
proof fn lemma_run_without_removal(run: CleanupView, store: Map<Seq<char>, int>)
    requires
        run.awaiting != Awaiting::Deletion,
        forall|j: int|
            run.cursor <= j < run.keys.len() ==> !removes(
                decision_for(#[trigger] run.keys[j], ttl_in(store, run.keys[j]), run.max_ttl),
                run.commit,
            ),
    ensures
        run_to_end(run, store).store == store,
        run_to_end(run, store).deleted == Seq::<Seq<char>>::empty(),
    decreases calls_left(run),
{
    if run.awaiting == Awaiting::Ttl && !run.finished() {
        let key = run.keys[run.cursor as int];
        let event = EventView::Ttl { ttl: ttl_in(store, key) };
        lemma_run_without_removal(run.next(event), store);
    }
}

/// What a run leaves of the store: nothing new, nothing changed, and of the
/// keys still to be examined only those that it decided not to remove.
proof fn lemma_run_outcome(run: CleanupView, store: Map<Seq<char>, int>)
    requires
        run.awaiting != Awaiting::Listing,
    ensures
        is_rest_of(run_to_end(run, store).store, store),
        run.awaiting == Awaiting::Deletion && !run.finished() ==> !run_to_end(
            run,
            store,
        ).store.dom().contains(run.current()),
        forall|j: int|
            run.cursor <= j < run.keys.len() && run_to_end(run, store).store.dom().contains(
                #[trigger] run.keys[j],
            ) ==> !removes(
                decision_for(run.keys[j], ttl_in(store, run.keys[j]), run.max_ttl),
                run.commit,
            ),
    decreases calls_left(run),
{
    if run.finished() {
        // Nothing is asked for: the store stays as it is.
    } else if run.awaiting == Awaiting::Ttl {
        let event = EventView::Ttl { ttl: ttl_in(store, run.current()) };
        lemma_run_outcome(run.next(event), store);
    } else {
        lemma_run_outcome(run.next(EventView::Deleted), store.remove(run.current()));
    }
}

/// A run that does not commit never changes the store: it asks for no
/// deletion, whatever the keys and their times to live.
pub proof fn lemma_dry_run_changes_nothing(
    pattern: Seq<char>,
    max_ttl: int,
    listing: Seq<Seq<char>>,
    store: Map<Seq<char>, int>,
)
    ensures
        run_to_end(listed_run(pattern, max_ttl, false, listing), store).store == store,
        run_to_end(listed_run(pattern, max_ttl, false, listing), store).deleted == Seq::<
            Seq<char>,
        >::empty(),
{
    lemma_run_without_removal(listed_run(pattern, max_ttl, false, listing), store);
}

/// Two runs that do not commit, one after the other over the same keys in
/// whatever order the store lists them, leave the same store and give the
/// same notices.
pub proof fn lemma_dry_run_repeats(
    pattern: Seq<char>,
    max_ttl: int,
    first_listing: Seq<Seq<char>>,
    second_listing: Seq<Seq<char>>,
    store: Map<Seq<char>, int>,
)
    requires
        first_listing.to_multiset() == second_listing.to_multiset(),
    ensures
        ({
            let first = run_to_end(listed_run(pattern, max_ttl, false, first_listing), store);
            let second = run_to_end(
                listed_run(pattern, max_ttl, false, second_listing),
                first.store,
            );
            &&& first.store == store
            &&& second.store == store
            &&& second.notices == first.notices
        }),
{
    lemma_dry_run_changes_nothing(pattern, max_ttl, first_listing, store);
    lemma_dry_run_changes_nothing(pattern, max_ttl, second_listing, store);
    lemma_sorted_keys(first_listing);
    lemma_sorted_keys(second_listing);
}

/// After a committing run, a second one finds nothing to delete, provided
/// that nothing else wrote to the store: the second listing holds no key
/// that the first did not hold, and only keys that the store still holds.
pub proof fn lemma_second_commit_removes_nothing(
    pattern: Seq<char>,
    max_ttl: int,
    first_listing: Seq<Seq<char>>,
    second_listing: Seq<Seq<char>>,
    store: Map<Seq<char>, int>,
)
    requires
        forall|i: int|
            0 <= i < second_listing.len() ==> first_listing.contains(#[trigger] second_listing[i]),
        forall|i: int|
            0 <= i < second_listing.len() ==> run_to_end(
                listed_run(pattern, max_ttl, true, first_listing),
                store,
            ).store.dom().contains(#[trigger] second_listing[i]),
    ensures
        ({
            let first = run_to_end(listed_run(pattern, max_ttl, true, first_listing), store);
            let second = run_to_end(
                listed_run(pattern, max_ttl, true, second_listing),
                first.store,
            );
            &&& second.store == first.store
            &&& second.deleted == Seq::<Seq<char>>::empty()
        }),
{
    let run1 = listed_run(pattern, max_ttl, true, first_listing);
    let run2 = listed_run(pattern, max_ttl, true, second_listing);
    let first = run_to_end(run1, store);
    lemma_run_outcome(run1, store);
    lemma_sorted_keys(first_listing);
    lemma_sorted_keys(second_listing);
    assert forall|j: int| 0 <= j < run2.keys.len() implies !removes(
        decision_for(#[trigger] run2.keys[j], ttl_in(first.store, run2.keys[j]), max_ttl),
        true,
    ) by {
        // The key was listed both times, so the first run examined it, and
        // the store still holds it, so the first run decided to leave it.
        let key = run2.keys[j];
        assert(sorted_keys(second_listing).contains(key));
        assert(sorted_keys(first_listing).contains(key));
    }
    lemma_run_without_removal(run2, first.store);
}

/// Unless it is already about to delete one, a run asks for the deletion of
/// no managed key and leaves those that the store holds.
proof fn lemma_managed_key_outlasts_any_run(
    run: CleanupView,
    store: Map<Seq<char>, int>,
    key: Seq<char>,
)
    requires
        is_managed(key),
        run.awaiting != Awaiting::Deletion,
    ensures
        !run_to_end(run, store).deleted.contains(key),
        store.dom().contains(key) ==> run_to_end(run, store).store.dom().contains(key)
            && run_to_end(run, store).store[key] == store[key],
    decreases calls_left(run),
{
    if run.awaiting == Awaiting::Ttl && !run.finished() {
        let current = run.current();
        let event = EventView::Ttl { ttl: ttl_in(store, current) };
        let next = run.next(event);
        if next.awaiting == Awaiting::Deletion {
            let after = next.next(EventView::Deleted);
            lemma_managed_key_outlasts_any_run(after, store.remove(current), key);
            assert(run_to_end(run, store).deleted == run_to_end(next, store).deleted);
        } else {
            lemma_managed_key_outlasts_any_run(next, store, key);
        }
    }
}

/// The decision that a run reports about a key does not depend on whether
/// the run commits.
pub proof fn lemma_decision_ignores_commit(run: CleanupView, ttl: int)
    ensures
        run.notices(EventView::Ttl { ttl }) == (CleanupView { commit: !run.commit, ..run }).notices(
            EventView::Ttl { ttl },
        ),
{
}

/// The keys of the decisions among `notices`, in order.
pub open spec fn examined_keys(notices: Seq<NoticeView>) -> Seq<Seq<char>>
    decreases notices.len(),
{
    if notices.len() == 0 {
        Seq::empty()
    } else {
        let rest = examined_keys(notices.drop_first());
        match notices[0] {
            NoticeView::Examined { key, .. } => seq![key] + rest,
            _ => rest,
        }
    }
}

proof fn lemma_examined_keys_after(notice: NoticeView, rest: Seq<NoticeView>)
    ensures
        examined_keys(seq![notice] + rest) == match notice {
            NoticeView::Examined { key, .. } => seq![key] + examined_keys(rest),
            _ => examined_keys(rest),
        },
{
    assert((seq![notice] + rest).drop_first() =~= rest);
}

/// A run decides about each key that is left, once, in the order of the
/// keys.
proof fn lemma_run_examines_keys_in_order(run: CleanupView, store: Map<Seq<char>, int>)
    requires
        run.awaiting == Awaiting::Ttl,
        run.cursor <= run.keys.len(),
    ensures
        examined_keys(run_to_end(run, store).notices) == run.keys.skip(run.cursor as int),
    decreases calls_left(run),
{
    if !run.finished() {
        let key = run.current();
        let event = EventView::Ttl { ttl: ttl_in(store, key) };
        let next = run.next(event);
        let after = run.advanced();
        lemma_examined_keys_after(run.notices(event)[0], run_to_end(next, store).notices);
        if next.awaiting == Awaiting::Deletion {
            let less = store.remove(key);
            lemma_run_examines_keys_in_order(after, less);
            lemma_examined_keys_after(NoticeView::Deleted, run_to_end(after, less).notices);
        } else {
            lemma_run_examines_keys_in_order(after, store);
        }
    }
}

/// A whole run decides about each listed key, once, in ascending order.
pub proof fn lemma_run_examines_listing_in_order(
    pattern: Seq<char>,
    max_ttl: int,
    commit: bool,
    listing: Seq<Seq<char>>,
    store: Map<Seq<char>, int>,
)
    ensures
        examined_keys(run_to_end(listed_run(pattern, max_ttl, commit, listing), store).notices)
            == sorted_keys(listing),
{
    let run = listed_run(pattern, max_ttl, commit, listing);
    lemma_run_examines_keys_in_order(run, store);
}

/// The store after a listed run, from whatever state, holds the keys that
/// it held before, but for those whose deletion the run asked for.
proof fn lemma_store_after_any_run(run: CleanupView, store: Map<Seq<char>, int>)
    requires
        run.awaiting != Awaiting::Listing,
    ensures
        is_rest_of(run_to_end(run, store).store, store),
        forall|key: Seq<char>| #[trigger]
            run_to_end(run, store).store.dom().contains(key) <==> store.dom().contains(key)
                && !run_to_end(run, store).deleted.contains(key),
    decreases calls_left(run),
{
    let out = run_to_end(run, store);
    lemma_run_outcome(run, store);
    if run.finished() {
        // Nothing is asked for: the store stays as it is.
    } else if run.awaiting == Awaiting::Ttl {
        let event = EventView::Ttl { ttl: ttl_in(store, run.current()) };
        lemma_store_after_any_run(run.next(event), store);
    } else {
        let gone = run.current();
        let less = store.remove(gone);
        let rest = run_to_end(run.next(EventView::Deleted), less);
        lemma_store_after_any_run(run.next(EventView::Deleted), less);
        assert forall|key: Seq<char>| #[trigger]
            out.store.dom().contains(key) <==> store.dom().contains(key) && !out.deleted.contains(
                key,
            ) by {
            assert(out.deleted[0] == gone);
            if rest.deleted.contains(key) {
                let i = choose|i: int| 0 <= i < rest.deleted.len() && rest.deleted[i] == key;
                assert(out.deleted[i + 1] == key);
            }
            assert(rest.store.dom().contains(key) <==> less.dom().contains(key)
                && !rest.deleted.contains(key));
        }
    }
}

/// No run asks for the deletion of a managed key, and one that the store
/// holds is still held after the run, with the time to live it had.
pub proof fn lemma_managed_key_outlasts_run(
    pattern: Seq<char>,
    max_ttl: int,
    commit: bool,
    listing: Seq<Seq<char>>,
    store: Map<Seq<char>, int>,
    key: Seq<char>,
)
    requires
        is_managed(key),
    ensures
        !run_to_end(listed_run(pattern, max_ttl, commit, listing), store).deleted.contains(key),
        store.dom().contains(key) ==> ttl_in(
            run_to_end(listed_run(pattern, max_ttl, commit, listing), store).store,
            key,
        ) == store[key],
{
    lemma_managed_key_outlasts_any_run(listed_run(pattern, max_ttl, commit, listing), store, key);
}

/// The store after a run holds the keys that it held before, each with the
/// time to live it had, but for those whose deletion the run asked for.
pub proof fn lemma_store_after_run(
    pattern: Seq<char>,
    max_ttl: int,
    commit: bool,
    listing: Seq<Seq<char>>,
    store: Map<Seq<char>, int>,
)
    ensures
        is_rest_of(run_to_end(listed_run(pattern, max_ttl, commit, listing), store).store, store),
        forall|key: Seq<char>| #[trigger]
            run_to_end(listed_run(pattern, max_ttl, commit, listing), store).store.dom().contains(
                key,
            ) <==> store.dom().contains(key) && !run_to_end(
                listed_run(pattern, max_ttl, commit, listing),
                store,
            ).deleted.contains(key),
{
    lemma_store_after_any_run(listed_run(pattern, max_ttl, commit, listing), store);
}

/// Whether a run with this limit, which commits or not, removes `key` from
/// `store`: it commits, the key is outside the managed namespace, and its
/// time to live in the store is at or below the limit.
pub open spec fn is_due(store: Map<Seq<char>, int>, max_ttl: int, commit: bool) -> spec_fn(
    Seq<char>,
) -> bool {
    |key: Seq<char>| removes(decision_for(key, ttl_in(store, key), max_ttl), commit)
}

proof fn lemma_filter_agrees(
    keys: Seq<Seq<char>>,
    p: spec_fn(Seq<char>) -> bool,
    q: spec_fn(Seq<char>) -> bool,
)
    requires
        forall|i: int| 0 <= i < keys.len() ==> p(#[trigger] keys[i]) == q(keys[i]),
    ensures
        keys.filter(p) == keys.filter(q),
    decreases keys.len(),
{
    reveal(Seq::filter);
    if keys.len() > 0 {
        assert forall|i: int| 0 <= i < keys.drop_last().len() implies p(
            #[trigger] keys.drop_last()[i],
        ) == q(keys.drop_last()[i]) by {
            assert(keys.drop_last()[i] == keys[i]);
        }
        lemma_filter_agrees(keys.drop_last(), p, q);
        assert(p(keys[keys.len() - 1]) == q(keys[keys.len() - 1]));
    }
}

proof fn lemma_filter_holds(keys: Seq<Seq<char>>, p: spec_fn(Seq<char>) -> bool, key: Seq<char>)
    ensures
        keys.filter(p).contains(key) <==> keys.contains(key) && p(key),
    decreases keys.len(),
{
    reveal(Seq::filter);
    if keys.len() > 0 {
        let front = keys.drop_last();
        let last = keys.last();
        lemma_filter_holds(front, p, key);
        let kept = front.filter(p);
        let all = keys.filter(p);
        if front.contains(key) {
            let i = choose|i: int| 0 <= i < front.len() && front[i] == key;
            assert(keys[i] == key);
        }
        if keys.contains(key) && key != last {
            let i = choose|i: int| 0 <= i < keys.len() && keys[i] == key;
            assert(front[i] == key);
        }
        if kept.contains(key) {
            let i = choose|i: int| 0 <= i < kept.len() && kept[i] == key;
            assert(all[i] == key);
        }
        if all.contains(key) && !kept.contains(key) {
            let i = choose|i: int| 0 <= i < all.len() && all[i] == key;
            if i < kept.len() {
                assert(kept[i] == key);
            }
        }
        if p(last) {
            assert(all[all.len() - 1] == last);
            assert(keys[keys.len() - 1] == last);
        }
    }
}

/// A run over keys of which none occurs twice asks for the deletion of the
/// keys that are due in the store as it stands, in the order of the keys.
proof fn lemma_deleted_from(run: CleanupView, store: Map<Seq<char>, int>)
    requires
        run.awaiting == Awaiting::Ttl,
        run.cursor <= run.keys.len(),
        run.keys.no_duplicates(),
    ensures
        run_to_end(run, store).deleted == run.keys.skip(run.cursor as int).filter(
            is_due(store, run.max_ttl, run.commit),
        ),
    decreases calls_left(run),
{
    let due = is_due(store, run.max_ttl, run.commit);
    let left = run.keys.skip(run.cursor as int);
    if run.finished() {
        reveal(Seq::filter);
        assert(left =~= Seq::<Seq<char>>::empty());
    } else {
        let key = run.current();
        let next = run.next(EventView::Ttl { ttl: ttl_in(store, key) });
        let after = run.advanced();
        let rest = after.keys.skip(after.cursor as int);
        assert(left =~= seq![key] + rest);
        Seq::filter_distributes_over_add(seq![key], rest, due);
        assert(seq![key].filter(due) =~= if due(key) {
            seq![key]
        } else {
            Seq::empty()
        }) by {
            reveal_with_fuel(Seq::filter, 2);
        }
        if next.awaiting == Awaiting::Deletion {
            let less = store.remove(key);
            lemma_deleted_from(after, less);
            assert forall|i: int| 0 <= i < rest.len() implies is_due(
                less,
                run.max_ttl,
                run.commit,
            )(#[trigger] rest[i]) == due(rest[i]) by {
                assert(rest[i] == run.keys[run.cursor + 1 + i]);
            }
            lemma_filter_agrees(rest, is_due(less, run.max_ttl, run.commit), due);
            assert(next.next(EventView::Deleted) == after);
            assert(run_to_end(next, store).deleted == seq![key] + run_to_end(after, less).deleted);
            assert(run_to_end(run, store).deleted == run_to_end(next, store).deleted);
        } else {
            lemma_deleted_from(after, store);
        }
    }
}

/// Which keys a run deletes. Of a listing in which no key occurs twice, the
/// run asks for the deletion of exactly the keys that are due in the store
/// as it was found: those outside the managed namespace whose time to live
/// is at or below the limit, if the run commits, and none if it does not.
/// It asks for each once, in ascending order.
pub proof fn lemma_run_deletes_due_keys(
    pattern: Seq<char>,
    max_ttl: int,
    commit: bool,
    listing: Seq<Seq<char>>,
    store: Map<Seq<char>, int>,
)
    requires
        listing.no_duplicates(),
    ensures
        run_to_end(listed_run(pattern, max_ttl, commit, listing), store).deleted == sorted_keys(
            listing,
        ).filter(is_due(store, max_ttl, commit)),
        forall|key: Seq<char>| #[trigger]
            run_to_end(listed_run(pattern, max_ttl, commit, listing), store).deleted.contains(key)
                <==> listing.contains(key) && commit && !is_managed(key) && ttl_in(store, key)
                <= max_ttl,
{
    let run = listed_run(pattern, max_ttl, commit, listing);
    lemma_sorted_keys(listing);
    listing.lemma_multiset_has_no_duplicates();
    run.keys.lemma_multiset_has_no_duplicates_conv();
    lemma_deleted_from(run, store);
    assert(run.keys.skip(0) =~= run.keys);
    assert forall|key: Seq<char>| #[trigger]
        run_to_end(run, store).deleted.contains(key) <==> listing.contains(key) && commit
            && !is_managed(key) && ttl_in(store, key) <= max_ttl by {
        lemma_filter_holds(run.keys, is_due(store, max_ttl, commit), key);
        assert(sorted_keys(listing).contains(key) <==> listing.contains(key));
    }
}

/// Which keys a run leaves. Every listed key that the store still holds
/// after the run is one that the run did not decide to remove: the run did
/// not commit, or the key is managed, or its time to live is above the
/// limit.
pub proof fn lemma_listed_keys_left_are_kept(
    pattern: Seq<char>,
    max_ttl: int,
    commit: bool,
    listing: Seq<Seq<char>>,
    store: Map<Seq<char>, int>,
)
    ensures
        forall|key: Seq<char>|
            listing.contains(key) && #[trigger] run_to_end(
                listed_run(pattern, max_ttl, commit, listing),
                store,
            ).store.dom().contains(key) ==> !commit || is_managed(key) || store[key] > max_ttl,
{
    let run = listed_run(pattern, max_ttl, commit, listing);
    let out = run_to_end(run, store);
    lemma_run_outcome(run, store);
    lemma_sorted_keys(listing);
    assert forall|key: Seq<char>|
        listing.contains(key) && #[trigger] out.store.dom().contains(key) implies !commit
        || is_managed(key) || store[key] > max_ttl by {
        assert(sorted_keys(listing).contains(key));
        let at = choose|at: int| 0 <= at < run.keys.len() && run.keys[at] == key;
        assert(out.store.dom().contains(run.keys[at]));
    }
}

} // verus!
