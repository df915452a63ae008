use vstd::prelude::*;

use crate::model::{
    add_start, award_has_room, award_win, bind_duration, bind_duration_has_room, bind_end,
    bind_end_has_room, bind_owner,
    bind_owner_has_room, block_ok, create_festival_state, festival_ok, inv, move_stage, owned,
    stage_list, stage_of, sum_amounts, vote_fits, wallet_ok, with_stage_list, PalletView, Stage,
};
use crate::seqs::{
    lemma_push_no_dups, lemma_sub_len, lemma_without_contains, lemma_without_no_dups, no_dups,
    push_until_full, room, without,
};
use crate::types::{FestivalStatus, FestivalView, WalletDataView};

verus! {

broadcast use vstd::seq_lib::group_seq_properties;

/// Under the invariant, no wallet lists a festival that does not exist.
pub proof fn lemma_unknown_id_unlisted(pv: PalletView, a: u64, id: u32)
    requires
        inv(pv),
        pv.wallets.dom().contains(a),
        !pv.festivals.dom().contains(id),
    ensures
        !pv.wallets[a].all_festivals.contains(id),
        forall|st: Stage| !(#[trigger] stage_list(pv.wallets[a], st)).contains(id),
{
    assert(wallet_ok(pv, a, pv.wallets[a]));
    assert forall|st: Stage| !(#[trigger] stage_list(pv.wallets[a], st)).contains(id) by {
        if stage_list(pv.wallets[a], st).contains(id) {
            assert(owned(pv, a, id));
        }
    }
}

pub proof fn lemma_new_festival_ok(
    pv: PalletView,
    internal: Seq<Seq<u8>>,
    external: Seq<Seq<u8>>,
)
    ensures
        push_until_full(seq![], internal, pv.config.max_movies_in_fest as int).len()
            <= pv.config.max_movies_in_fest,
        push_until_full(seq![], external, pv.config.max_movies_in_fest as int).len()
            <= pv.config.max_movies_in_fest,
        sum_amounts(Seq::empty()) == 0,
{
    let max = pv.config.max_movies_in_fest as int;
    assert(room(0, internal.len() as int, max) <= max);
    assert(room(0, external.len() as int, max) <= max);
}

/// Creating a festival and binding it to its creator keeps the invariant.
pub proof fn lemma_create_inv(
    pv: PalletView,
    who: u64,
    name: Seq<u8>,
    description: Seq<u8>,
    max_entry: u128,
    internal: Seq<Seq<u8>>,
    external: Seq<Seq<u8>>,
    tags: Seq<(Seq<u8>, Seq<u8>)>,
)
    requires
        inv(pv),
        pv.next_festival_id < u32::MAX,
        bind_owner_has_room(pv, who),
    ensures
        inv(
            bind_owner(
                create_festival_state(
                    pv,
                    who,
                    name,
                    description,
                    max_entry,
                    internal,
                    external,
                    tags,
                    FestivalStatus::AwaitingActivation,
                ),
                who,
                pv.next_festival_id,
            ),
        ),
{
    let id0 = pv.next_festival_id;
    let p1 = create_festival_state(
        pv,
        who,
        name,
        description,
        max_entry,
        internal,
        external,
        tags,
        FestivalStatus::AwaitingActivation,
    );
    let p2 = bind_owner(p1, who, id0);
    let max = pv.config.max_owned_festivals;
    assert(!pv.festivals.dom().contains(id0));
    lemma_new_festival_ok(pv, internal, external);
    assert forall|id: u32| #[trigger] p2.festivals.dom().contains(id) implies {
        &&& p2.festivals[id].id == id
        &&& id < p2.next_festival_id
        &&& p2.wallets.dom().contains(p2.festivals[id].owner)
        &&& festival_ok(p2.config, p2.festivals[id])
    } by {
        if id != id0 {
            assert(pv.festivals.dom().contains(id));
        }
    }
    assert forall|b: u64| #[trigger] p2.block_assignments.dom().contains(b) implies block_ok(
        p2.config,
        p2.block_assignments[b],
    ) by {
        assert(pv.block_assignments.dom().contains(b));
    }
    assert forall|a: u64| #[trigger] p2.wallets.dom().contains(a) implies wallet_ok(
        p2,
        a,
        p2.wallets[a],
    ) by {
        let w2 = p2.wallets[a];
        assert forall|id: u32| id != id0 implies (owned(p2, a, id) <==> owned(pv, a, id)
            && #[trigger] p2.festivals[id] == pv.festivals[id]) by {}
        assert(owned(p2, a, id0) <==> a == who);
        if a != who {
            let w = pv.wallets[a];
            assert(w2 == w);
            assert(wallet_ok(pv, a, w));
            lemma_unknown_id_unlisted(pv, a, id0);
            assert forall|id: u32| #[trigger] w2.all_festivals.contains(id) <==> owned(p2, a, id) by {
                if id != id0 {
                    assert(owned(p2, a, id) <==> owned(pv, a, id));
                }
            }
            assert forall|st: Stage, id: u32| #[trigger]
                stage_list(w2, st).contains(id) <==> (owned(p2, a, id) && stage_of(
                    p2.festivals[id].status,
                ) == st) by {
                if id != id0 {
                    assert(owned(p2, a, id) <==> owned(pv, a, id));
                }
            }
        } else if pv.wallets.dom().contains(who) {
            let w = pv.wallets[a];
            assert(wallet_ok(pv, a, w));
            lemma_unknown_id_unlisted(pv, a, id0);
            assert(w2.all_festivals == w.all_festivals.push(id0));
            assert(stage_list(w2, Stage::AwaitingActivation) == stage_list(
                w,
                Stage::AwaitingActivation,
            ).push(id0));
            lemma_push_no_dups(w.all_festivals, id0);
            lemma_push_no_dups(stage_list(w, Stage::AwaitingActivation), id0);
            assert forall|id: u32| #[trigger] w2.all_festivals.contains(id) <==> owned(p2, a, id) by {
                if id != id0 {
                    assert(owned(p2, a, id) <==> owned(pv, a, id));
                }
            }
            assert forall|st: Stage| no_dups(#[trigger] stage_list(w2, st)) by {
                if st != Stage::AwaitingActivation {
                    assert(stage_list(w2, st) == stage_list(w, st));
                }
            }
            assert forall|st: Stage, id: u32| #[trigger]
                stage_list(w2, st).contains(id) <==> (owned(p2, a, id) && stage_of(
                    p2.festivals[id].status,
                ) == st) by {
                if st != Stage::AwaitingActivation {
                    assert(stage_list(w2, st) == stage_list(w, st));
                }
                if id != id0 {
                    assert(owned(p2, a, id) <==> owned(pv, a, id));
                }
            }
        } else {
            assert forall|id: u32| id != id0 implies !owned(pv, a, id) by {
                if owned(pv, a, id) {
                    assert(pv.festivals.dom().contains(id));
                }
            }
            assert(w2 == WalletDataView {
                all_festivals: seq![id0],
                awaiting_activation_festivals: seq![id0],
                awaiting_start_festivals: seq![],
                active_festivals: seq![],
                finished_festivals: seq![],
                won_festivals: seq![],
            });
            assert forall|id: u32| #[trigger] w2.all_festivals.contains(id) <==> owned(p2, a, id) by {
                if w2.all_festivals.contains(id) {
                    assert(id == id0);
                }
            }
            assert forall|st: Stage| no_dups(#[trigger] stage_list(w2, st)) by {}
            assert forall|st: Stage, id: u32| #[trigger]
                stage_list(w2, st).contains(id) <==> (owned(p2, a, id) && stage_of(
                    p2.festivals[id].status,
                ) == st) by {
                if stage_list(w2, st).contains(id) {
                    assert(id == id0);
                }
            }
        }
    }
}

pub proof fn lemma_with_stage_list(w: WalletDataView, st: Stage, l: Seq<u32>)
    ensures
        with_stage_list(w, st, l).all_festivals == w.all_festivals,
        with_stage_list(w, st, l).won_festivals == w.won_festivals,
        forall|st2: Stage| #[trigger]
            stage_list(with_stage_list(w, st, l), st2) == if st2 == st {
                l
            } else {
                stage_list(w, st2)
            },
{
}

/// Moving an owned festival to a status of another stage finds room in the list of
/// the new stage: that list misses the festival, and lies within the owned list.
pub proof fn lemma_move_stage_room(pv: PalletView, id0: u32, s: FestivalStatus)
    requires
        inv(pv),
        pv.festivals.dom().contains(id0),
        stage_of(s) != stage_of(pv.festivals[id0].status),
    ensures
        pv.wallets.dom().contains(pv.festivals[id0].owner),
        stage_list(pv.wallets[pv.festivals[id0].owner], stage_of(s)).len()
            < pv.config.max_owned_festivals,
        !stage_list(pv.wallets[pv.festivals[id0].owner], stage_of(s)).contains(id0),
{
    let o = pv.festivals[id0].owner;
    let w = pv.wallets[o];
    assert(wallet_ok(pv, o, w));
    let l = stage_list(w, stage_of(s));
    assert(no_dups(l));
    assert forall|y: u32| l.contains(y) implies w.all_festivals.contains(y) by {
        assert(owned(pv, o, y));
    }
    assert(owned(pv, o, id0));
    lemma_sub_len(l, w.all_festivals, id0);
}

/// Moving a festival to a status of another stage keeps the invariant.
pub proof fn lemma_move_stage_inv(pv: PalletView, id0: u32, s: FestivalStatus)
    requires
        inv(pv),
        pv.festivals.dom().contains(id0),
        stage_of(s) != stage_of(pv.festivals[id0].status),
        (s == FestivalStatus::AwaitingActivation || s == FestivalStatus::AwaitingStartBlock)
            ==> pv.festivals[id0].vote_list.len() == 0,
    ensures
        inv(move_stage(pv, id0, s)),
{
    let p2 = move_stage(pv, id0, s);
    let f = pv.festivals[id0];
    let o = f.owner;
    let old_st = stage_of(f.status);
    let new_st = stage_of(s);
    lemma_move_stage_room(pv, id0, s);
    let w = pv.wallets[o];
    let w1 = with_stage_list(w, old_st, without(stage_list(w, old_st), id0));
    let w2 = with_stage_list(w1, new_st, stage_list(w1, new_st).push(id0));
    lemma_with_stage_list(w, old_st, without(stage_list(w, old_st), id0));
    lemma_with_stage_list(w1, new_st, stage_list(w1, new_st).push(id0));
    assert(p2.wallets == pv.wallets.insert(o, w2));
    assert forall|id: u32| #[trigger] p2.festivals.dom().contains(id) implies {
        &&& p2.festivals[id].id == id
        &&& id < p2.next_festival_id
        &&& p2.wallets.dom().contains(p2.festivals[id].owner)
        &&& festival_ok(p2.config, p2.festivals[id])
    } by {
        assert(pv.festivals.dom().contains(id));
        if id == id0 {
            let f2 = p2.festivals[id];
            assert(festival_ok(pv.config, f));
            assert forall|i: int| 0 <= i < f2.vote_list.len() implies vote_fits(
                f2,
                #[trigger] f2.vote_list[i],
            ) by {
                assert(vote_fits(f, f.vote_list[i]));
            }
        }
    }
    assert forall|b: u64| #[trigger] p2.block_assignments.dom().contains(b) implies block_ok(
        p2.config,
        p2.block_assignments[b],
    ) by {
        assert(pv.block_assignments.dom().contains(b));
    }
    assert forall|a: u64| #[trigger] p2.wallets.dom().contains(a) implies wallet_ok(
        p2,
        a,
        p2.wallets[a],
    ) by {
        assert(wallet_ok(pv, a, pv.wallets[a]));
        assert forall|id: u32| #![trigger owned(p2, a, id)] owned(p2, a, id) <==> owned(pv, a, id) by {}
        assert forall|id: u32| id != id0 implies #[trigger] p2.festivals[id] == pv.festivals[id] by {}
        if a != o {
            assert(p2.wallets[a] == pv.wallets[a]);
            assert forall|st: Stage, id: u32| #[trigger]
                stage_list(p2.wallets[a], st).contains(id) <==> (owned(p2, a, id) && stage_of(
                    p2.festivals[id].status,
                ) == st) by {
                if id == id0 {
                    assert(!owned(pv, a, id0));
                }
            }
        } else {
            assert(p2.wallets[a] == w2);
            lemma_without_no_dups(stage_list(w, old_st), id0);
            lemma_push_no_dups(stage_list(w, new_st), id0);
            assert forall|st: Stage| no_dups(#[trigger] stage_list(w2, st)) by {
                if st != old_st && st != new_st {
                    assert(stage_list(w2, st) == stage_list(w, st));
                }
            }
            assert forall|st: Stage, id: u32| #[trigger]
                stage_list(w2, st).contains(id) <==> (owned(p2, a, id) && stage_of(
                    p2.festivals[id].status,
                ) == st) by {
                lemma_without_contains(stage_list(w, old_st), id0, id);
                if st != old_st && st != new_st {
                    assert(stage_list(w2, st) == stage_list(w, st));
                }
            }
        }
    }
}

/// Replacing a festival by one with the same id, owner and status that is well formed
/// keeps the invariant.
pub proof fn lemma_festival_update_inv(pv: PalletView, id0: u32, f2: FestivalView)
    requires
        inv(pv),
        pv.festivals.dom().contains(id0),
        f2.id == id0,
        f2.owner == pv.festivals[id0].owner,
        f2.status == pv.festivals[id0].status,
        festival_ok(pv.config, f2),
    ensures
        inv(PalletView { festivals: pv.festivals.insert(id0, f2), ..pv }),
{
    let p2 = PalletView { festivals: pv.festivals.insert(id0, f2), ..pv };
    assert forall|id: u32| #[trigger] p2.festivals.dom().contains(id) implies {
        &&& p2.festivals[id].id == id
        &&& id < p2.next_festival_id
        &&& p2.wallets.dom().contains(p2.festivals[id].owner)
        &&& festival_ok(p2.config, p2.festivals[id])
    } by {
        assert(pv.festivals.dom().contains(id));
    }
    assert forall|a: u64| #[trigger] p2.wallets.dom().contains(a) implies wallet_ok(
        p2,
        a,
        p2.wallets[a],
    ) by {
        assert(wallet_ok(pv, a, pv.wallets[a]));
        assert forall|id: u32| #![trigger owned(p2, a, id)] owned(p2, a, id) <==> owned(pv, a, id) by {}
        assert forall|st: Stage, id: u32| #[trigger]
            stage_list(p2.wallets[a], st).contains(id) <==> (owned(p2, a, id) && stage_of(
                p2.festivals[id].status,
            ) == st) by {}
    }
}

/// Listing a festival to start and end at two blocks, where the lists have room,
/// keeps the invariant.
pub proof fn lemma_bind_duration_inv(pv: PalletView, id: u32, start: u64, end: u64)
    requires
        inv(pv),
        bind_duration_has_room(pv, id, start, end),
    ensures
        inv(bind_duration(pv, id, start, end)),
{
    let p2 = bind_duration(pv, id, start, end);
    let ba1 = add_start(pv.block_assignments, start, id);
    assert forall|b: u64| #[trigger] ba1.dom().contains(b) implies block_ok(pv.config, ba1[b]) by {
        if b != start {
            assert(pv.block_assignments.dom().contains(b));
        }
    }
    assert forall|b: u64| #[trigger] p2.block_assignments.dom().contains(b) implies block_ok(
        p2.config,
        p2.block_assignments[b],
    ) by {
        if b != end {
            assert(ba1.dom().contains(b));
        }
    }
    assert forall|a: u64| #[trigger] p2.wallets.dom().contains(a) implies wallet_ok(
        p2,
        a,
        p2.wallets[a],
    ) by {
        assert(wallet_ok(pv, a, pv.wallets[a]));
        assert forall|id: u32| #![trigger owned(p2, a, id)] owned(p2, a, id) <==> owned(pv, a, id) by {}
    }
}

/// Listing a festival to end at a block whose end list has room keeps the invariant.
pub proof fn lemma_bind_end_inv(pv: PalletView, id: u32, end: u64)
    requires
        inv(pv),
        bind_end_has_room(pv, end),
    ensures
        inv(bind_end(pv, id, end)),
{
    let p2 = bind_end(pv, id, end);
    assert forall|b: u64| #[trigger] p2.block_assignments.dom().contains(b) implies block_ok(
        p2.config,
        p2.block_assignments[b],
    ) by {
        if b != end {
            assert(pv.block_assignments.dom().contains(b));
        }
    }
    assert forall|a: u64| #[trigger] p2.wallets.dom().contains(a) implies wallet_ok(
        p2,
        a,
        p2.wallets[a],
    ) by {
        assert(wallet_ok(pv, a, pv.wallets[a]));
        assert forall|id: u32| #![trigger owned(p2, a, id)] owned(p2, a, id) <==> owned(pv, a, id) by {}
    }
}

/// Recording a win, where the list of won festivals has room, keeps the invariant.
pub proof fn lemma_award_inv(pv: PalletView, uploader: u64, id: u32)
    requires
        inv(pv),
        award_has_room(pv, uploader),
    ensures
        inv(award_win(pv, uploader, id)),
{
    let p2 = award_win(pv, uploader, id);
    assert forall|fid: u32| #[trigger] p2.festivals.dom().contains(fid) implies {
        &&& p2.festivals[fid].id == fid
        &&& fid < p2.next_festival_id
        &&& p2.wallets.dom().contains(p2.festivals[fid].owner)
        &&& festival_ok(p2.config, p2.festivals[fid])
    } by {
        assert(pv.festivals.dom().contains(fid));
    }
    assert forall|a: u64| #[trigger] p2.wallets.dom().contains(a) implies wallet_ok(
        p2,
        a,
        p2.wallets[a],
    ) by {
        assert forall|fid: u32| #![trigger owned(p2, a, fid)] owned(p2, a, fid) <==> owned(pv, a, fid) by {}
        if a != uploader || pv.wallets.dom().contains(uploader) {
            assert(wallet_ok(pv, a, pv.wallets[a]));
            assert forall|st: Stage| #[trigger] stage_list(p2.wallets[a], st) == stage_list(
                pv.wallets[a],
                st,
            ) by {}
        } else {
            assert forall|fid: u32| !owned(pv, a, fid) by {
                if owned(pv, a, fid) {
                    assert(pv.festivals.dom().contains(fid));
                }
            }
            assert forall|st: Stage| #[trigger] stage_list(p2.wallets[a], st) == Seq::<u32>::empty() by {}
        }
    }
}

} // verus!
