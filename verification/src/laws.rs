use vstd::prelude::*;

use crate::hooks::{finalize, hook_activate, hook_deactivate, run_steps};
use crate::market::{settle, simple_reward, unlock_action, winners_lockup};
use crate::model::{
    activate_asap_check, activate_asap_result, activate_asap_underflows, activate_check,
    activate_result, activate_underflows, activation_owner_check, bind_end_has_room,
    add_movies_result, create_festival_result, create_festival_state, vote_check,
    bind_duration_has_room, inv, movie_list_check, remove_movies_result, sum_amounts, vote_error,
    vote_result, PalletView,
};
use crate::seqs::{
    keep_not_in, lemma_keep_not_in_contains, lemma_keep_not_in_len, lemma_unique_contains, lemma_unique_no_dups, no_dups,
    push_until_full, room, unique,
};
use crate::types::{Error, FestivalStatus, HookActionView, TokenKind, TokenUpdate, VoteView};

verus! {

broadcast use vstd::seq_lib::group_seq_properties;

//  Lists of movies
proof fn lemma_keep_not_in_no_dups(s: Seq<Seq<u8>>, other: Seq<Seq<u8>>)
    requires
        no_dups(s),
    ensures
        no_dups(keep_not_in(s, other)),
    decreases s.len(),
{
    if s.len() > 0 {
        let d = s.drop_last();
        assert(no_dups(d));
        lemma_keep_not_in_no_dups(d, other);
        let k = keep_not_in(d, other);
        if !other.contains(s.last()) {
            lemma_keep_not_in_contains(d, other, s.last());
            assert(!d.contains(s.last())) by {
                if d.contains(s.last()) {
                    let i = choose|i: int| 0 <= i < d.len() && d[i] == s.last();
                    assert(s[i] == s[s.len() - 1]);
                }
            }
            assert forall|i: int, j: int| 0 <= i < j < k.push(s.last()).len() implies k.push(
                s.last(),
            )[i] != k.push(s.last())[j] by {
                if j == k.len() {
                    assert(k[i] == k.push(s.last())[i]);
                }
            }
        }
    }
}

proof fn lemma_keep_not_in_concat(a: Seq<Seq<u8>>, b: Seq<Seq<u8>>, other: Seq<Seq<u8>>)
    ensures
        keep_not_in(a + b, other) == keep_not_in(a, other) + keep_not_in(b, other),
    decreases b.len(),
{
    if b.len() == 0 {
        assert(a + b =~= a);
        assert(keep_not_in(a, other) + keep_not_in(b, other) =~= keep_not_in(a, other));
    } else {
        assert((a + b).drop_last() =~= a + b.drop_last());
        assert((a + b).last() == b.last());
        lemma_keep_not_in_concat(a, b.drop_last(), other);
        if other.contains(b.last()) {
        } else {
            assert(keep_not_in(a, other) + keep_not_in(b.drop_last(), other).push(b.last())
                =~= (keep_not_in(a, other) + keep_not_in(b.drop_last(), other)).push(b.last()));
        }
    }
}

proof fn lemma_keep_not_in_disjoint(s: Seq<Seq<u8>>, other: Seq<Seq<u8>>)
    requires
        forall|x: Seq<u8>| s.contains(x) ==> !other.contains(x),
    ensures
        keep_not_in(s, other) == s,
    decreases s.len(),
{
    if s.len() > 0 {
        assert forall|x: Seq<u8>| s.drop_last().contains(x) implies !other.contains(x) by {
            let i = choose|i: int| 0 <= i < s.drop_last().len() && s.drop_last()[i] == x;
            assert(s[i] == x);
        }
        lemma_keep_not_in_disjoint(s.drop_last(), other);
        assert(s.contains(s.last())) by {
            assert(s[s.len() - 1] == s.last());
        }
        assert(s.drop_last().push(s.last()) =~= s);
    }
}

proof fn lemma_keep_not_in_covered(s: Seq<Seq<u8>>, other: Seq<Seq<u8>>)
    requires
        forall|x: Seq<u8>| s.contains(x) ==> other.contains(x),
    ensures
        keep_not_in(s, other) == Seq::<Seq<u8>>::empty(),
    decreases s.len(),
{
    if s.len() > 0 {
        assert forall|x: Seq<u8>| s.drop_last().contains(x) implies other.contains(x) by {
            let i = choose|i: int| 0 <= i < s.drop_last().len() && s.drop_last()[i] == x;
            assert(s[i] == x);
        }
        lemma_keep_not_in_covered(s.drop_last(), other);
        assert(s.contains(s.last())) by {
            assert(s[s.len() - 1] == s.last());
        }
    } else {
        assert(s =~= Seq::<Seq<u8>>::empty());
    }
}

proof fn lemma_push_until_full_no_dups(s: Seq<Seq<u8>>, items: Seq<Seq<u8>>, max: int)
    requires
        no_dups(s),
        no_dups(items),
        forall|x: Seq<u8>| items.contains(x) ==> !s.contains(x),
    ensures
        no_dups(push_until_full(s, items, max)),
{
    let n = room(s.len() as int, items.len() as int, max);
    let t = items.take(n);
    let r = s + t;
    assert forall|i: int, j: int| 0 <= i < j < r.len() implies r[i] != r[j] by {
        if j >= s.len() && i < s.len() {
            assert(t[j - s.len()] == items[j - s.len()]);
            assert(items.contains(r[j]));
            assert(s.contains(r[i]));
        } else if i >= s.len() {
            assert(t[i - s.len()] == items[i - s.len()]);
            assert(t[j - s.len()] == items[j - s.len()]);
        }
    }
}

/// Adding movies to a festival whose lists hold no movie twice leaves lists that hold no
/// movie twice: the movies the festival holds already are not added again, and a movie
/// named more than once is added once.
pub proof fn law_add_movies_no_duplicates(
    pv: PalletView,
    id: u32,
    internal: Seq<Seq<u8>>,
    external: Seq<Seq<u8>>,
)
    requires
        movie_list_check(pv, id, Error::NonexistentFestival) is None,
        no_dups(pv.festivals[id].internal_movies),
        no_dups(pv.festivals[id].external_movies),
    ensures
        no_dups(add_movies_result(pv, id, internal, external).festivals[id].internal_movies),
        no_dups(add_movies_result(pv, id, internal, external).festivals[id].external_movies),
{
    let f = pv.festivals[id];
    let max = pv.config.max_movies_in_fest as int;
    let ui = unique(internal);
    let ue = unique(external);
    lemma_unique_no_dups(internal);
    lemma_unique_no_dups(external);
    lemma_keep_not_in_no_dups(ui, f.internal_movies);
    lemma_keep_not_in_no_dups(ue, f.external_movies);
    assert forall|x: Seq<u8>| keep_not_in(ui, f.internal_movies).contains(x) implies !f.internal_movies.contains(x) by {
        lemma_keep_not_in_contains(ui, f.internal_movies, x);
    }
    assert forall|x: Seq<u8>| keep_not_in(ue, f.external_movies).contains(x) implies !f.external_movies.contains(x) by {
        lemma_keep_not_in_contains(ue, f.external_movies, x);
    }
    lemma_push_until_full_no_dups(f.internal_movies, keep_not_in(ui, f.internal_movies), max);
    lemma_push_until_full_no_dups(f.external_movies, keep_not_in(ue, f.external_movies), max);
}

/// Adding the same movies a second time changes nothing: every movie named is held
/// already, or the list it would join is full.
pub proof fn law_add_movies_twice_changes_nothing(
    pv: PalletView,
    id: u32,
    internal: Seq<Seq<u8>>,
    external: Seq<Seq<u8>>,
)
    requires
        movie_list_check(pv, id, Error::NonexistentFestival) is None,
    ensures
        movie_list_check(
            add_movies_result(pv, id, internal, external),
            id,
            Error::NonexistentFestival,
        ) is None,
        add_movies_result(add_movies_result(pv, id, internal, external), id, internal, external)
            == add_movies_result(pv, id, internal, external),
{
    let p1 = add_movies_result(pv, id, internal, external);
    let p2 = add_movies_result(p1, id, internal, external);
    let f = pv.festivals[id];
    let max = pv.config.max_movies_in_fest as int;
    lemma_add_list_settled(f.internal_movies, internal, max);
    lemma_add_list_settled(f.external_movies, external, max);
    assert(p2.festivals[id] == p1.festivals[id]) by {
        assert(p2.festivals[id].internal_movies =~= p1.festivals[id].internal_movies);
        assert(p2.festivals[id].external_movies =~= p1.festivals[id].external_movies);
    }
    assert(p2.festivals =~= p1.festivals);
}

/// One list of a festival after an addition takes nothing more from the same request.
proof fn lemma_add_list_settled(l: Seq<Seq<u8>>, req: Seq<Seq<u8>>, max: int)
    ensures
        ({
            let l1 = push_until_full(l, keep_not_in(unique(req), l), max);
            push_until_full(l1, keep_not_in(unique(req), l1), max) == l1
        }),
{
    let u = unique(req);
    let k = keep_not_in(u, l);
    let n = room(l.len() as int, k.len() as int, max);
    let l1 = push_until_full(l, k, max);
    let k2 = keep_not_in(u, l1);
    lemma_keep_not_in_len(u, l);
    if n < k.len() {
        assert(l1.len() >= max);
        assert(room(l1.len() as int, k2.len() as int, max) == 0);
    } else {
        assert(k.take(n) =~= k);
        assert forall|x: Seq<u8>| u.contains(x) implies l1.contains(x) by {
            if l.contains(x) {
                let i = choose|i: int| 0 <= i < l.len() && l[i] == x;
                assert(l1[i] == x);
            } else {
                lemma_keep_not_in_contains(u, l, x);
                let i = choose|i: int| 0 <= i < k.len() && k[i] == x;
                assert(l1[l.len() + i] == x);
            }
        }
        lemma_keep_not_in_covered(u, l1);
        assert(room(l1.len() as int, k2.len() as int, max) == 0);
    }
    assert(k2.take(0) =~= Seq::<Seq<u8>>::empty());
    assert(push_until_full(l1, k2, max) =~= l1);
}

/// After movies are removed from a festival, its lists hold exactly the movies they held
/// before that the removal does not name.
pub proof fn law_remove_movies_removes(
    pv: PalletView,
    id: u32,
    internal: Seq<Seq<u8>>,
    external: Seq<Seq<u8>>,
    m: Seq<u8>,
)
    requires
        movie_list_check(pv, id, Error::BadMetadata) is None,
    ensures
        remove_movies_result(pv, id, internal, external).festivals[id].internal_movies.contains(m)
            <==> (pv.festivals[id].internal_movies.contains(m) && !internal.contains(m)),
        remove_movies_result(pv, id, internal, external).festivals[id].external_movies.contains(m)
            <==> (pv.festivals[id].external_movies.contains(m) && !external.contains(m)),
{
    lemma_keep_not_in_contains(pv.festivals[id].internal_movies, internal, m);
    lemma_keep_not_in_contains(pv.festivals[id].external_movies, external, m);
}

/// Removing the movies that were just added to a festival, none of which it held
/// before, gives back the storage as it was.
pub proof fn law_add_then_remove_restores(
    pv: PalletView,
    id: u32,
    internal: Seq<Seq<u8>>,
    external: Seq<Seq<u8>>,
)
    requires
        movie_list_check(pv, id, Error::NonexistentFestival) is None,
        forall|x: Seq<u8>| internal.contains(x) ==> !pv.festivals[id].internal_movies.contains(x),
        forall|x: Seq<u8>| external.contains(x) ==> !pv.festivals[id].external_movies.contains(x),
    ensures
        movie_list_check(
            add_movies_result(pv, id, internal, external),
            id,
            Error::BadMetadata,
        ) is None,
        remove_movies_result(add_movies_result(pv, id, internal, external), id, internal, external)
            == pv,
{
    let f = pv.festivals[id];
    let max = pv.config.max_movies_in_fest as int;
    let p1 = add_movies_result(pv, id, internal, external);
    let f1 = p1.festivals[id];
    let ki = keep_not_in(unique(internal), f.internal_movies);
    let ke = keep_not_in(unique(external), f.external_movies);
    let ai = ki.take(room(f.internal_movies.len() as int, ki.len() as int, max));
    let ae = ke.take(room(f.external_movies.len() as int, ke.len() as int, max));
    assert(f1.internal_movies == f.internal_movies + ai);
    assert(f1.external_movies == f.external_movies + ae);
    lemma_keep_not_in_concat(f.internal_movies, ai, internal);
    lemma_keep_not_in_concat(f.external_movies, ae, external);
    assert forall|x: Seq<u8>| f.internal_movies.contains(x) implies !internal.contains(x) by {}
    assert forall|x: Seq<u8>| f.external_movies.contains(x) implies !external.contains(x) by {}
    lemma_keep_not_in_disjoint(f.internal_movies, internal);
    lemma_keep_not_in_disjoint(f.external_movies, external);
    assert forall|x: Seq<u8>| ai.contains(x) implies internal.contains(x) by {
        let i = choose|i: int| 0 <= i < ai.len() && ai[i] == x;
        assert(ki[i] == x);
        assert(ki.contains(x));
        lemma_keep_not_in_contains(unique(internal), f.internal_movies, x);
        lemma_unique_contains(internal, x);
    }
    assert forall|x: Seq<u8>| ae.contains(x) implies external.contains(x) by {
        let i = choose|i: int| 0 <= i < ae.len() && ae[i] == x;
        assert(ke[i] == x);
        assert(ke.contains(x));
        lemma_keep_not_in_contains(unique(external), f.external_movies, x);
        lemma_unique_contains(external, x);
    }
    lemma_keep_not_in_covered(ai, internal);
    lemma_keep_not_in_covered(ae, external);
    let p2 = remove_movies_result(p1, id, internal, external);
    assert(p2.festivals[id] == f) by {
        assert(p2.festivals[id].internal_movies =~= f.internal_movies);
        assert(p2.festivals[id].external_movies =~= f.external_movies);
    }
    assert(p2.festivals =~= pv.festivals);
}

//  Votes
/// A vote keeps the total stake of every festival equal to the sum of its votes: the
/// festival voted in adds the stake to both, and the others are untouched.
pub proof fn law_vote_keeps_totals(pv: PalletView, who: u64, id: u32, movie: Seq<u8>, amount: u128)
    requires
        forall|i: u32| #[trigger]
            pv.festivals.dom().contains(i) ==> pv.festivals[i].total_lockup == sum_amounts(
                pv.festivals[i].vote_list,
            ),
        vote_error(pv, who, id, movie, amount) is None,
    ensures
        ({
            let p2 = vote_result(pv, who, id, movie, amount);
            forall|i: u32| #[trigger]
                p2.festivals.dom().contains(i) ==> p2.festivals[i].total_lockup == sum_amounts(
                    p2.festivals[i].vote_list,
                )
        }),
{
    let f = pv.festivals[id];
    let v = VoteView { voter: who, vote_for: movie, amount };
    assert(f.vote_list.push(v).drop_last() =~= f.vote_list);
    assert(sum_amounts(f.vote_list.push(v)) == sum_amounts(f.vote_list) + amount);
}

//  Activation
/// A festival that is activated has a start block that lies at least the safety margin
/// after the current block, and an end block at least the shortest festival length
/// after that safe start; it then awaits its start block, is listed to start at its
/// start block and to end at its end block, and its owner's wallet data lists it as
/// awaiting its start and no longer as awaiting activation.
pub proof fn law_activation_schedules(
    pv: PalletView,
    who: u64,
    id: u32,
    start: u64,
    end: u64,
    now: u64,
)
    requires
        inv(pv),
        !activate_underflows(pv, who, id, start, end, now),
        activate_check(pv, who, id, start, end, now) is None,
        bind_duration_has_room(pv, id, start, end),
    ensures
        ({
            let margin = pv.config.fest_block_safety_margin;
            let p2 = activate_result(pv, id, start, end);
            &&& now + margin <= start
            &&& end >= start - margin + pv.config.min_fes_block_duration
            &&& p2.festivals[id].status == FestivalStatus::AwaitingStartBlock
            &&& p2.block_assignments[start].to_start.contains(id)
            &&& p2.block_assignments[end].to_end.contains(id)
            &&& p2.wallets[who].awaiting_start_festivals.contains(id)
            &&& !p2.wallets[who].awaiting_activation_festivals.contains(id)
        }),
{
    let p2 = activate_result(pv, id, start, end);
    let w = pv.wallets[who];
    crate::seqs::lemma_without_contains(w.awaiting_activation_festivals, id, id);
    let ba1 = crate::model::add_start(pv.block_assignments, start, id);
    assert(ba1[start].to_start.contains(id)) by {
        assert(ba1[start].to_start.last() == id);
    }
    assert(p2.block_assignments[end].to_end.contains(id)) by {
        assert(p2.block_assignments[end].to_end.last() == id);
    }
}

/// A festival that is activated at once has an end block at least the shortest festival
/// length after the current block; it is then active, is listed to end at its end
/// block, and its owner's wallet data lists it as active and no longer as awaiting
/// activation.
pub proof fn law_asap_activation_schedules(pv: PalletView, who: u64, id: u32, end: u64, now: u64)
    requires
        inv(pv),
        !activate_asap_underflows(pv, who, id, end, now),
        activate_asap_check(pv, who, id, end, now) is None,
        bind_end_has_room(pv, end),
    ensures
        ({
            let p2 = activate_asap_result(pv, id, end);
            &&& end >= now + pv.config.min_fes_block_duration
            &&& p2.festivals[id].status == FestivalStatus::Active
            &&& p2.block_assignments[end].to_end.contains(id)
            &&& p2.wallets[who].active_festivals.contains(id)
            &&& !p2.wallets[who].awaiting_activation_festivals.contains(id)
        }),
{
    let p2 = activate_asap_result(pv, id, end);
    let w = pv.wallets[who];
    crate::seqs::lemma_without_contains(w.awaiting_activation_festivals, id, id);
    assert(p2.block_assignments[end].to_end.contains(id)) by {
        assert(p2.block_assignments[end].to_end.last() == id);
    }
}

//  Settlement
/// The token updates of a settlement that unlock a stake, in order.
pub open spec fn unlocks(actions: Seq<HookActionView>) -> Seq<HookActionView>
    decreases actions.len(),
{
    if actions.len() == 0 {
        seq![]
    } else {
        let rest = unlocks(actions.drop_last());
        match actions.last() {
            HookActionView::UpdateTokens(u) => if u.token == TokenKind::Locked && u.decrease {
                rest.push(actions.last())
            } else {
                rest
            },
            HookActionView::AwardWin { .. } => rest,
        }
    }
}

/// Settling a festival's votes unlocks the stake of every vote, once and in vote order,
/// and lists no more winning voters than there are votes.
pub proof fn law_settlement_unlocks_every_stake(
    votes: Seq<VoteView>,
    winners: Seq<Seq<u8>>,
    total: u128,
    wl: u128,
)
    ensures
        unlocks(settle(votes, winners, total, wl).1) == votes.map_values(
            |v: VoteView| unlock_action(v),
        ),
        settle(votes, winners, total, wl).0.len() <= votes.len(),
    decreases votes.len(),
{
    if votes.len() > 0 {
        let d = votes.drop_last();
        law_settlement_unlocks_every_stake(d, winners, total, wl);
        let prev = settle(d, winners, total, wl);
        let v = votes.last();
        let acts = settle(votes, winners, total, wl).1;
        if winners.contains(v.vote_for) {
            let a1 = prev.1.push(
                HookActionView::UpdateTokens(
                    TokenUpdate {
                        account: v.voter,
                        token: TokenKind::Claimable,
                        amount: crate::market::simple_reward(total, v.amount, wl)->0,
                        decrease: false,
                    },
                ),
            );
            assert(acts == a1.push(unlock_action(v)));
            assert(acts.drop_last() =~= a1);
            assert(a1.drop_last() =~= prev.1);
            assert(unlocks(a1) == unlocks(prev.1));
            assert(unlocks(acts) == unlocks(a1).push(unlock_action(v)));
        } else {
            assert(acts.drop_last() =~= prev.1);
            assert(unlocks(acts) == unlocks(prev.1).push(unlock_action(v)));
        }
        assert(votes.map_values(|v: VoteView| unlock_action(v)) =~= d.map_values(
            |v: VoteView| unlock_action(v),
        ).push(unlock_action(v)));
    } else {
        assert(votes.map_values(|v: VoteView| unlock_action(v)) =~= Seq::<HookActionView>::empty());
    }
}

//  Hooks
proof fn lemma_run_steps_clears(pv: PalletView, ids: Seq<u32>, starting: bool, gone: FestivalStatus)
    requires
        run_steps(pv, ids, starting).error is None,
        gone == (if starting {
            FestivalStatus::AwaitingStartBlock
        } else {
            FestivalStatus::Active
        }),
    ensures
        forall|i: int|
            0 <= i < ids.len() ==> {
                let st = run_steps(pv, ids, starting).state;
                &&& st.festivals.dom().contains(#[trigger] ids[i])
                &&& st.festivals[ids[i]].status != gone
            },
    decreases ids.len(),
{
    if ids.len() > 0 {
        let d = ids.drop_last();
        let p = run_steps(pv, d, starting);
        assert(p.error is None);
        lemma_run_steps_clears(pv, d, starting, gone);
        let last = ids.last();
        let st = run_steps(pv, ids, starting).state;
        assert forall|i: int| 0 <= i < ids.len() implies {
            &&& st.festivals.dom().contains(#[trigger] ids[i])
            &&& st.festivals[ids[i]].status != gone
        } by {
            if i < d.len() {
                assert(d[i] == ids[i]);
            }
        }
    }
}

/// A start hook that no refusal stops leaves none of the festivals listed to start at
/// its block awaiting its start block.
pub proof fn law_start_hook_starts_listed_festivals(pv: PalletView, now: u64)
    requires
        pv.block_assignments.dom().contains(now),
        hook_activate(pv, now).error is None,
    ensures
        forall|i: int|
            0 <= i < pv.block_assignments[now].to_start.len() ==> {
                let st = hook_activate(pv, now).state;
                let id = #[trigger] pv.block_assignments[now].to_start[i];
                &&& st.festivals.dom().contains(id)
                &&& st.festivals[id].status != FestivalStatus::AwaitingStartBlock
            },
{
    lemma_run_steps_clears(
        pv,
        pv.block_assignments[now].to_start,
        true,
        FestivalStatus::AwaitingStartBlock,
    );
}

/// An end hook that no refusal stops leaves none of the festivals listed to end at its
/// block active.
pub proof fn law_end_hook_ends_listed_festivals(pv: PalletView, now: u64)
    requires
        pv.block_assignments.dom().contains(now),
        hook_deactivate(pv, now).error is None,
    ensures
        forall|i: int|
            0 <= i < pv.block_assignments[now].to_end.len() ==> {
                let st = hook_deactivate(pv, now).state;
                let id = #[trigger] pv.block_assignments[now].to_end[i];
                &&& st.festivals.dom().contains(id)
                &&& st.festivals[id].status != FestivalStatus::Active
            },
{
    lemma_run_steps_clears(pv, pv.block_assignments[now].to_end, false, FestivalStatus::Active);
}

//  Creation
/// A created festival is private: it awaits activation, is bound to no block, and is
/// listed by its creator as owned and awaiting activation.
pub proof fn law_created_festival_is_private(
    pv: PalletView,
    who: u64,
    name: Seq<u8>,
    description: Seq<u8>,
    max_entry: u128,
    internal: Seq<Seq<u8>>,
    external: Seq<Seq<u8>>,
    tags: Seq<(Seq<u8>, Seq<u8>)>,
)
    ensures
        ({
            let p2 = create_festival_result(
                pv,
                who,
                name,
                description,
                max_entry,
                internal,
                external,
                tags,
            );
            let id = pv.next_festival_id;
            &&& p2.festivals[id].status == FestivalStatus::AwaitingActivation
            &&& p2.festivals[id].owner == who
            &&& p2.block_assignments == pv.block_assignments
            &&& p2.wallets[who].all_festivals.contains(id)
            &&& p2.wallets[who].awaiting_activation_festivals.contains(id)
        }),
{
    let p2 = create_festival_result(pv, who, name, description, max_entry, internal, external, tags);
    let id = pv.next_festival_id;
    assert(p2.wallets[who].all_festivals.last() == id);
    assert(p2.wallets[who].awaiting_activation_festivals.last() == id);
}

//  Statuses
/// The place of a status in a festival's life.
pub open spec fn status_rank(s: FestivalStatus) -> int {
    match s {
        FestivalStatus::AwaitingActivation => 0,
        FestivalStatus::AwaitingStartBlock => 1,
        FestivalStatus::Active => 2,
        FestivalStatus::Finished => 3,
        FestivalStatus::FinishedNotEnoughVotes => 3,
    }
}

/// Every festival of `pv` is still stored in `p2`, with a status no earlier in its life.
pub open spec fn statuses_advance(pv: PalletView, p2: PalletView) -> bool {
    forall|id: u32| #[trigger]
        pv.festivals.dom().contains(id) ==> p2.festivals.dom().contains(id) && status_rank(
            p2.festivals[id].status,
        ) >= status_rank(pv.festivals[id].status)
}

proof fn lemma_advance_trans(a: PalletView, b: PalletView, c: PalletView)
    requires
        statuses_advance(a, b),
        statuses_advance(b, c),
    ensures
        statuses_advance(a, c),
{
    assert forall|id: u32| #[trigger] a.festivals.dom().contains(id) implies c.festivals.dom().contains(id)
        && status_rank(c.festivals[id].status) >= status_rank(a.festivals[id].status) by {
        assert(b.festivals.dom().contains(id));
    }
}

proof fn lemma_run_steps_advance(pv: PalletView, ids: Seq<u32>, starting: bool)
    ensures
        statuses_advance(pv, run_steps(pv, ids, starting).state),
    decreases ids.len(),
{
    if ids.len() == 0 {
        assert(statuses_advance(pv, pv));
    } else {
        lemma_run_steps_advance(pv, ids.drop_last(), starting);
        let p = run_steps(pv, ids.drop_last(), starting);
        if p.error is None {
            let st = run_steps(pv, ids, starting).state;
            assert(statuses_advance(p.state, st));
            lemma_advance_trans(pv, p.state, st);
        }
    }
}

/// A festival's status only ever moves forward in its life, AwaitingActivation, then
/// AwaitingStartBlock, then Active, then finished, and no festival is dropped: so at the
/// end of a block, and so on activating a festival.
pub proof fn law_statuses_only_advance(
    pv: PalletView,
    now: u64,
    who: u64,
    id: u32,
    start: u64,
    end: u64,
)
    ensures
        statuses_advance(pv, finalize(pv, now).0),
        activate_check(pv, who, id, start, end, now) is None ==> statuses_advance(
            pv,
            activate_result(pv, id, start, end),
        ),
        activation_owner_check(pv, who, id) is None ==> statuses_advance(
            pv,
            activate_asap_result(pv, id, end),
        ),
{
    let d = hook_deactivate(pv, now);
    if pv.block_assignments.dom().contains(now) {
        lemma_run_steps_advance(pv, pv.block_assignments[now].to_end, false);
    } else {
        assert(statuses_advance(pv, d.state));
    }
    let a = hook_activate(d.state, now);
    if d.state.block_assignments.dom().contains(now) {
        lemma_run_steps_advance(d.state, d.state.block_assignments[now].to_start, true);
    } else {
        assert(statuses_advance(d.state, a.state));
    }
    lemma_advance_trans(pv, d.state, a.state);
}


//  What each operation is for
/// Whether a vote backs one of `winners`.
pub open spec fn backs(winners: Seq<Seq<u8>>) -> spec_fn(VoteView) -> bool {
    |v: VoteView| winners.contains(v.vote_for)
}

/// The updates among `actions` that credit claimable tokens, in order.
pub open spec fn credits(actions: Seq<HookActionView>) -> Seq<TokenUpdate>
    decreases actions.len(),
{
    if actions.len() == 0 {
        seq![]
    } else {
        let rest = credits(actions.drop_last());
        match actions.last() {
            HookActionView::UpdateTokens(u) => if u.token == TokenKind::Claimable && !u.decrease {
                rest.push(u)
            } else {
                rest
            },
            HookActionView::AwardWin { .. } => rest,
        }
    }
}

/// Settling a festival lists the voter of every vote that backs a winning movie, and
/// only those, in vote order, whatever the other votes are; each such vote, and no
/// other, earns its voter a credit of claimable tokens, in the same order. Where the
/// vote's stake is positive and at most the winners' stake, the credit is the total
/// stake divided by (the winners' stake divided by the vote's stake).
pub proof fn law_settlement_credits_winning_voters(
    votes: Seq<VoteView>,
    winners: Seq<Seq<u8>>,
    total: u128,
    wl: u128,
)
    ensures
        ({
            let won = votes.filter(backs(winners));
            let s = settle(votes, winners, total, wl);
            &&& s.0 == won.map_values(|v: VoteView| v.voter)
            &&& credits(s.1).len() == won.len()
            &&& forall|j: int|
                0 <= j < won.len() ==> {
                    let c = #[trigger] credits(s.1)[j];
                    &&& c.account == won[j].voter
                    &&& c.token == TokenKind::Claimable
                    &&& !c.decrease
                    &&& (0 < won[j].amount <= wl ==> c.amount == total / (wl / won[j].amount))
                }
        }),
    decreases votes.len(),
{
    let won = votes.filter(backs(winners));
    let s = settle(votes, winners, total, wl);
    if votes.len() == 0 {
        reveal(Seq::filter);
        assert(won =~= Seq::<VoteView>::empty());
        assert(won.map_values(|v: VoteView| v.voter) =~= Seq::<u64>::empty());
    } else {
        let d = votes.drop_last();
        let v = votes.last();
        law_settlement_credits_winning_voters(d, winners, total, wl);
        let prev = settle(d, winners, total, wl);
        let dwon = d.filter(backs(winners));
        assert(d.push(v) =~= votes);
        d.lemma_filter_push(v, backs(winners));
        let u = TokenUpdate {
            account: v.voter,
            token: TokenKind::Claimable,
            amount: crate::market::simple_reward(total, v.amount, wl)->0,
            decrease: false,
        };
        if winners.contains(v.vote_for) {
            assert(won == dwon.push(v));
            let a1 = prev.1.push(HookActionView::UpdateTokens(u));
            assert(s.1 == a1.push(unlock_action(v)));
            assert(s.1.drop_last() =~= a1);
            assert(a1.drop_last() =~= prev.1);
            assert(credits(a1) == credits(prev.1).push(u));
            assert(credits(s.1) == credits(a1));
            assert(won.map_values(|x: VoteView| x.voter) =~= dwon.map_values(
                |x: VoteView| x.voter,
            ).push(v.voter));
            if 0 < v.amount <= wl {
                assert(wl / v.amount >= 1) by (nonlinear_arith)
                    requires
                        0 < v.amount <= wl,
                ;
            }
            assert forall|j: int| 0 <= j < won.len() implies {
                let c = #[trigger] credits(s.1)[j];
                &&& c.account == won[j].voter
                &&& c.token == TokenKind::Claimable
                &&& !c.decrease
                &&& (0 < won[j].amount <= wl ==> c.amount == total / (wl / won[j].amount))
            } by {
                if j < dwon.len() {
                    assert(credits(s.1)[j] == credits(prev.1)[j]);
                    assert(won[j] == dwon[j]);
                }
            }
        } else {
            assert(won == dwon);
            assert(s.1 == prev.1.push(unlock_action(v)));
            assert(s.1.drop_last() =~= prev.1);
            assert(credits(s.1) == credits(prev.1));
        }
    }
}

/// A winning voter's reward is the total stake divided by the winners' stake per unit
/// of the voter's stake, both divisions rounding down; there is none where the voter
/// staked nothing or more than the winners together.
pub proof fn law_reward_is_total_over_share(total: u128, user: u128, winner: u128)
    ensures
        0 < user <= winner ==> simple_reward(total, user, winner) == Some(
            (total / (winner / user)) as u128,
        ),
        0 < user <= winner ==> simple_reward(total, user, winner)->0 * (winner / user) <= total
            < (simple_reward(total, user, winner)->0 + 1) * (winner / user),
        user == 0 || winner < user ==> simple_reward(total, user, winner) is None,
{
    if 0 < user <= winner {
        let q = winner / user;
        assert(q >= 1) by (nonlinear_arith)
            requires
                0 < user <= winner,
                q == winner / user,
        ;
        let r = total / q;
        assert(r * q <= total < (r + 1) * q) by (nonlinear_arith)
            requires
                q >= 1,
                r == total / q,
        ;
    }
    if user > 0 && winner < user {
        assert(winner / user == 0) by (nonlinear_arith)
            requires
                0 <= winner < user,
        ;
    }
}

/// A vote for any movie the festival lists, internal or external, by someone other than
/// its owner, in an active festival, staking more than nothing and at most the highest
/// stake, passes every check; where the total stake does not overflow it is recorded
/// at the end of the festival's votes and its stake added to the total. A vote refused
/// as not in the festival names a movie in neither list.
pub proof fn law_vote_for_a_listed_movie_is_taken(
    pv: PalletView,
    who: u64,
    id: u32,
    movie: Seq<u8>,
    amount: u128,
)
    ensures
        ({
            let f = pv.festivals[id];
            (pv.festivals.dom().contains(id) && (f.internal_movies.contains(movie)
                || f.external_movies.contains(movie)) && f.owner != who && f.status
                == FestivalStatus::Active && 0 < amount <= f.max_entry) ==> {
                &&& vote_check(pv, who, id, movie, amount) is None
                &&& f.total_lockup + amount <= u128::MAX ==> {
                    let g = vote_result(pv, who, id, movie, amount).festivals[id];
                    &&& vote_error(pv, who, id, movie, amount) is None
                    &&& g.vote_list == f.vote_list.push(
                        VoteView { voter: who, vote_for: movie, amount },
                    )
                    &&& g.total_lockup == f.total_lockup + amount
                }
            }
        }),
        vote_check(pv, who, id, movie, amount) == Some(Error::MovieNotInFestival) ==> {
            &&& !pv.festivals[id].internal_movies.contains(movie)
            &&& !pv.festivals[id].external_movies.contains(movie)
        },
{
}

/// Activation refuses a festival for its movies only when it holds fewer than two, in
/// its two lists together; a festival of its owner, awaiting activation, with two or
/// more movies, internal or external, passes the checks that come first.
pub proof fn law_activation_needs_two_movies(pv: PalletView, who: u64, id: u32)
    ensures
        activation_owner_check(pv, who, id) == Some(Error::NotEnoughMoviesInFestival) ==> (
        pv.festivals[id].internal_movies.len() + pv.festivals[id].external_movies.len() < 2),
        (pv.festivals.dom().contains(id) && pv.festivals[id].owner == who
            && pv.festivals[id].status == FestivalStatus::AwaitingActivation
            && pv.festivals[id].internal_movies.len() + pv.festivals[id].external_movies.len()
            >= 2) ==> activation_owner_check(pv, who, id) is None,
{
}

/// A created festival holds what it was created with: the creator as owner, the name,
/// description, highest stake, tags and status given, no stake and no votes, and the
/// first of the movies given, as many as fit; it takes the next id, and the next id
/// after it is free.
pub proof fn law_created_festival_holds_what_was_given(
    pv: PalletView,
    who: u64,
    name: Seq<u8>,
    description: Seq<u8>,
    max_entry: u128,
    internal: Seq<Seq<u8>>,
    external: Seq<Seq<u8>>,
    tags: Seq<(Seq<u8>, Seq<u8>)>,
    status: FestivalStatus,
)
    requires
        pv.next_festival_id < u32::MAX,
    ensures
        ({
            let id = pv.next_festival_id;
            let max = pv.config.max_movies_in_fest as int;
            let p1 = create_festival_state(
                pv,
                who,
                name,
                description,
                max_entry,
                internal,
                external,
                tags,
                status,
            );
            let p2 = create_festival_result(
                pv,
                who,
                name,
                description,
                max_entry,
                internal,
                external,
                tags,
            );
            let f = p1.festivals[id];
            &&& p1.festivals.dom().contains(id)
            &&& p1.next_festival_id == id + 1
            &&& f.id == id
            &&& f.owner == who
            &&& f.name == name
            &&& f.description == description
            &&& f.max_entry == max_entry
            &&& f.status == status
            &&& f.total_lockup == 0
            &&& f.vote_list.len() == 0
            &&& f.categories_and_tags == tags
            &&& f.internal_movies == internal.take(
                if internal.len() <= max {
                    internal.len() as int
                } else {
                    max
                },
            )
            &&& f.external_movies == external.take(
                if external.len() <= max {
                    external.len() as int
                } else {
                    max
                },
            )
            &&& p2.festivals == create_festival_state(
                pv,
                who,
                name,
                description,
                max_entry,
                internal,
                external,
                tags,
                FestivalStatus::AwaitingActivation,
            ).festivals
        }),
{
    let max = pv.config.max_movies_in_fest as int;
    let e = Seq::<Seq<u8>>::empty();
    assert(e + internal.take(room(0, internal.len() as int, max)) =~= internal.take(room(0, internal.len() as int, max)));
    assert(e + external.take(room(0, external.len() as int, max)) =~= external.take(room(0, external.len() as int, max)));
}


/// The winners' stake is the sum of the stakes of the votes that back a winning movie,
/// and of no others.
pub proof fn law_winners_stake_sums_winning_votes(votes: Seq<VoteView>, winners: Seq<Seq<u8>>)
    ensures
        winners_lockup(votes, winners) == sum_amounts(votes.filter(backs(winners))),
    decreases votes.len(),
{
    if votes.len() == 0 {
        reveal(Seq::filter);
    } else {
        let d = votes.drop_last();
        let v = votes.last();
        law_winners_stake_sums_winning_votes(d, winners);
        assert(d.push(v) =~= votes);
        d.lemma_filter_push(v, backs(winners));
        let dwon = d.filter(backs(winners));
        if winners.contains(v.vote_for) {
            assert(dwon.push(v).drop_last() =~= dwon);
        }
    }
}

} // verus!
