use vstd::prelude::*;

use crate::seqs::{keep_not_in, no_dups, push_until_full, unique, without};
use crate::types::{
    BlockAssignmentView, Config, Error, FestivalStatus, FestivalView, VoteView, WalletDataView,
};

verus! {

/// The pallet's storage, as values.
pub struct PalletView {
    pub config: Config,
    pub next_festival_id: u32,
    pub festivals: Map<u32, FestivalView>,
    pub block_assignments: Map<u64, BlockAssignmentView>,
    pub wallets: Map<u64, WalletDataView>,
}

/// The stages an owner's festivals are listed under.
#[derive(Clone, Copy)]
pub enum Stage {
    AwaitingActivation,
    AwaitingStart,
    Active,
    Finished,
}

pub open spec fn stage_of(s: FestivalStatus) -> Stage {
    match s {
        FestivalStatus::AwaitingActivation => Stage::AwaitingActivation,
        FestivalStatus::AwaitingStartBlock => Stage::AwaitingStart,
        FestivalStatus::Active => Stage::Active,
        FestivalStatus::Finished => Stage::Finished,
        FestivalStatus::FinishedNotEnoughVotes => Stage::Finished,
    }
}

/// The list of a wallet that holds the festivals of a stage.
pub open spec fn stage_list(w: WalletDataView, st: Stage) -> Seq<u32> {
    match st {
        Stage::AwaitingActivation => w.awaiting_activation_festivals,
        Stage::AwaitingStart => w.awaiting_start_festivals,
        Stage::Active => w.active_festivals,
        Stage::Finished => w.finished_festivals,
    }
}

/// `w` with the list of stage `st` replaced by `l`.
pub open spec fn with_stage_list(w: WalletDataView, st: Stage, l: Seq<u32>) -> WalletDataView {
    match st {
        Stage::AwaitingActivation => WalletDataView { awaiting_activation_festivals: l, ..w },
        Stage::AwaitingStart => WalletDataView { awaiting_start_festivals: l, ..w },
        Stage::Active => WalletDataView { active_festivals: l, ..w },
        Stage::Finished => WalletDataView { finished_festivals: l, ..w },
    }
}

/// The sum of the amounts staked by `votes`.
pub open spec fn sum_amounts(votes: Seq<VoteView>) -> int
    decreases votes.len(),
{
    if votes.len() == 0 {
        0
    } else {
        sum_amounts(votes.drop_last()) + votes.last().amount
    }
}

/// Festival `id` exists and belongs to `a`.
pub open spec fn owned(pv: PalletView, a: u64, id: u32) -> bool {
    pv.festivals.dom().contains(id) && pv.festivals[id].owner == a
}

/// Vote `v` could have been cast in festival `f`: it backs a movie of the festival, is
/// not the owner's, and stakes more than nothing and at most the festival's highest stake.
pub open spec fn vote_fits(f: FestivalView, v: VoteView) -> bool {
    &&& f.internal_movies.contains(v.vote_for) || f.external_movies.contains(v.vote_for)
    &&& v.voter != f.owner
    &&& 0 < v.amount <= f.max_entry
}

/// What holds of each stored festival: its lists keep their bounds, it has no votes
/// before it is active, each vote fits it, and its total stake is the sum of its votes.
pub open spec fn festival_ok(c: Config, f: FestivalView) -> bool {
    &&& f.internal_movies.len() <= c.max_movies_in_fest
    &&& f.external_movies.len() <= c.max_movies_in_fest
    &&& f.vote_list.len() <= c.max_votes
    &&& (f.status == FestivalStatus::AwaitingActivation || f.status
        == FestivalStatus::AwaitingStartBlock) ==> f.vote_list.len() == 0
    &&& forall|i: int| 0 <= i < f.vote_list.len() ==> vote_fits(f, #[trigger] f.vote_list[i])
    &&& f.total_lockup == sum_amounts(f.vote_list)
}

/// What holds of the wallet data of account `a`: it lists each festival that `a` owns
/// once, and each once more under the stage of its status.
pub open spec fn wallet_ok(pv: PalletView, a: u64, w: WalletDataView) -> bool {
    let max = pv.config.max_owned_festivals;
    &&& w.all_festivals.len() <= max
    &&& w.won_festivals.len() <= max
    &&& no_dups(w.all_festivals)
    &&& forall|id: u32| #[trigger] w.all_festivals.contains(id) <==> owned(pv, a, id)
    &&& forall|st: Stage| no_dups(#[trigger] stage_list(w, st))
    &&& forall|st: Stage, id: u32| #[trigger]
        stage_list(w, st).contains(id) <==> (owned(pv, a, id) && stage_of(
            pv.festivals[id].status,
        ) == st)
}

/// What holds of the festivals assigned to a block.
pub open spec fn block_ok(c: Config, b: BlockAssignmentView) -> bool {
    &&& b.to_start.len() <= c.max_festivals_per_block
    &&& b.to_end.len() <= c.max_festivals_per_block
}

/// The invariant of the pallet's storage.
pub open spec fn inv(pv: PalletView) -> bool {
    &&& forall|id: u32| #[trigger]
        pv.festivals.dom().contains(id) ==> {
            &&& pv.festivals[id].id == id
            &&& id < pv.next_festival_id
            &&& pv.wallets.dom().contains(pv.festivals[id].owner)
            &&& festival_ok(pv.config, pv.festivals[id])
        }
    &&& forall|b: u64| #[trigger]
        pv.block_assignments.dom().contains(b) ==> block_ok(pv.config, pv.block_assignments[b])
    &&& forall|a: u64| #[trigger]
        pv.wallets.dom().contains(a) ==> wallet_ok(pv, a, pv.wallets[a])
}

/// The storage of a freshly deployed pallet.
pub open spec fn genesis(c: Config) -> PalletView {
    PalletView {
        config: c,
        next_festival_id: 0,
        festivals: Map::empty(),
        block_assignments: Map::empty(),
        wallets: Map::empty(),
    }
}

/// Festival `id` takes status `s`; its owner's wallet, where there is one, moves it
/// from the list of its old stage to the end of the list of its new one.
pub open spec fn move_stage(pv: PalletView, id: u32, s: FestivalStatus) -> PalletView {
    let f = pv.festivals[id];
    let o = f.owner;
    let festivals = pv.festivals.insert(id, FestivalView { status: s, ..f });
    if pv.wallets.dom().contains(o) {
        let w = pv.wallets[o];
        let old_st = stage_of(f.status);
        let new_st = stage_of(s);
        let w1 = with_stage_list(w, old_st, without(stage_list(w, old_st), id));
        let w2 = with_stage_list(w1, new_st, stage_list(w1, new_st).push(id));
        PalletView { festivals, wallets: pv.wallets.insert(o, w2), ..pv }
    } else {
        PalletView { festivals, ..pv }
    }
}

//  Creating a festival
/// A new festival, with as many of the given movies as fit.
pub open spec fn new_festival(
    c: Config,
    id: u32,
    who: u64,
    name: Seq<u8>,
    description: Seq<u8>,
    max_entry: u128,
    internal: Seq<Seq<u8>>,
    external: Seq<Seq<u8>>,
    tags: Seq<(Seq<u8>, Seq<u8>)>,
    status: FestivalStatus,
) -> FestivalView {
    FestivalView {
        id,
        owner: who,
        name,
        description,
        status,
        max_entry,
        total_lockup: 0,
        vote_list: seq![],
        categories_and_tags: tags,
        internal_movies: push_until_full(seq![], internal, c.max_movies_in_fest as int),
        external_movies: push_until_full(seq![], external, c.max_movies_in_fest as int),
    }
}

/// The storage after `do_create_festival` succeeds.
pub open spec fn create_festival_state(
    pv: PalletView,
    who: u64,
    name: Seq<u8>,
    description: Seq<u8>,
    max_entry: u128,
    internal: Seq<Seq<u8>>,
    external: Seq<Seq<u8>>,
    tags: Seq<(Seq<u8>, Seq<u8>)>,
    status: FestivalStatus,
) -> PalletView {
    PalletView {
        next_festival_id: (pv.next_festival_id + 1) as u32,
        festivals: pv.festivals.insert(
            pv.next_festival_id,
            new_festival(
                pv.config,
                pv.next_festival_id,
                who,
                name,
                description,
                max_entry,
                internal,
                external,
                tags,
                status,
            ),
        ),
        ..pv
    }
}

/// Wallet data that lists `id` as owned and awaiting activation.
pub open spec fn bound_owner_wallet(pv: PalletView, who: u64, id: u32) -> WalletDataView {
    if pv.wallets.dom().contains(who) {
        let w = pv.wallets[who];
        WalletDataView {
            all_festivals: w.all_festivals.push(id),
            awaiting_activation_festivals: w.awaiting_activation_festivals.push(id),
            ..w
        }
    } else {
        WalletDataView {
            all_festivals: seq![id],
            awaiting_activation_festivals: seq![id],
            awaiting_start_festivals: seq![],
            active_festivals: seq![],
            finished_festivals: seq![],
            won_festivals: seq![],
        }
    }
}

pub open spec fn bind_owner(pv: PalletView, who: u64, id: u32) -> PalletView {
    PalletView { wallets: pv.wallets.insert(who, bound_owner_wallet(pv, who, id)), ..pv }
}

/// Binding festival `id` to `who` finds room in the bounded lists it pushes to.
pub open spec fn bind_owner_has_room(pv: PalletView, who: u64) -> bool {
    let max = pv.config.max_owned_festivals;
    if pv.wallets.dom().contains(who) {
        &&& pv.wallets[who].all_festivals.len() < max
        &&& pv.wallets[who].awaiting_activation_festivals.len() < max
    } else {
        max >= 1
    }
}

//  Block assignments
pub open spec fn add_start(ba: Map<u64, BlockAssignmentView>, b: u64, id: u32) -> Map<
    u64,
    BlockAssignmentView,
> {
    if ba.dom().contains(b) {
        ba.insert(b, BlockAssignmentView { to_start: ba[b].to_start.push(id), ..ba[b] })
    } else {
        ba.insert(b, BlockAssignmentView { to_start: seq![id], to_end: seq![] })
    }
}

pub open spec fn add_end(ba: Map<u64, BlockAssignmentView>, b: u64, id: u32) -> Map<
    u64,
    BlockAssignmentView,
> {
    if ba.dom().contains(b) {
        ba.insert(b, BlockAssignmentView { to_end: ba[b].to_end.push(id), ..ba[b] })
    } else {
        ba.insert(b, BlockAssignmentView { to_start: seq![], to_end: seq![id] })
    }
}

/// Festival `id` is listed to start at `start` and to end at `end`.
pub open spec fn bind_duration(pv: PalletView, id: u32, start: u64, end: u64) -> PalletView {
    PalletView {
        block_assignments: add_end(add_start(pv.block_assignments, start, id), end, id),
        ..pv
    }
}

/// Festival `id` is listed to end at `end`.
pub open spec fn bind_end(pv: PalletView, id: u32, end: u64) -> PalletView {
    PalletView { block_assignments: add_end(pv.block_assignments, end, id), ..pv }
}

/// The end list of block `end` has room for one more festival.
pub open spec fn bind_end_has_room(pv: PalletView, end: u64) -> bool {
    let max = pv.config.max_festivals_per_block;
    if pv.block_assignments.dom().contains(end) {
        pv.block_assignments[end].to_end.len() < max
    } else {
        max >= 1
    }
}

/// The start list of block `start`, and then the end list of block `end`, have room.
pub open spec fn bind_duration_has_room(pv: PalletView, id: u32, start: u64, end: u64) -> bool {
    let max = pv.config.max_festivals_per_block;
    let ba = pv.block_assignments;
    let ba1 = add_start(ba, start, id);
    &&& if ba.dom().contains(start) {
        ba[start].to_start.len() < max
    } else {
        max >= 1
    }
    &&& if ba1.dom().contains(end) {
        ba1[end].to_end.len() < max
    } else {
        max >= 1
    }
}

//  Calls
/// The category that festivals are tagged under: the bytes of "Festival".
pub open spec fn festival_category() -> Seq<u8> {
    seq![70u8, 101u8, 115u8, 116u8, 105u8, 118u8, 97u8, 108u8]
}

/// The refusal that `create_festival` gives before it asks whether the tags are valid.
pub open spec fn create_festival_precheck(pv: PalletView, max_entry: u128) -> Option<Error> {
    if max_entry == 0 {
        Some(Error::VoteMaxAmountCannotBeZero)
    } else if pv.config.category_string_limit < festival_category().len() {
        Some(Error::BadMetadata)
    } else {
        None
    }
}

/// The storage after `create_festival` succeeds: the festival is created, awaiting
/// activation, and bound to its creator.
pub open spec fn create_festival_result(
    pv: PalletView,
    who: u64,
    name: Seq<u8>,
    description: Seq<u8>,
    max_entry: u128,
    internal: Seq<Seq<u8>>,
    external: Seq<Seq<u8>>,
    tags: Seq<(Seq<u8>, Seq<u8>)>,
) -> PalletView {
    bind_owner(
        create_festival_state(
            pv,
            who,
            name,
            description,
            max_entry,
            internal,
            external,
            tags,
            FestivalStatus::AwaitingActivation,
        ),
        who,
        pv.next_festival_id,
    )
}

/// The checks that activating festival `id` for `who` makes first, in order.
pub open spec fn activation_owner_check(pv: PalletView, who: u64, id: u32) -> Option<Error> {
    if !pv.festivals.dom().contains(id) {
        Some(Error::BadMetadata)
    } else if pv.festivals[id].owner != who {
        Some(Error::NoFestivalAdminAccess)
    } else if pv.festivals[id].internal_movies.len() + pv.festivals[id].external_movies.len() < 2 {
        Some(Error::NotEnoughMoviesInFestival)
    } else if pv.festivals[id].status != FestivalStatus::AwaitingActivation {
        Some(Error::NotAwaitingActivation)
    } else {
        None
    }
}

/// The checks of `activate_festival` that come before it measures the festival's length.
pub open spec fn activate_start_check(pv: PalletView, who: u64, id: u32, start: u64, now: u64) -> Option<
    Error,
> {
    let margin = pv.config.fest_block_safety_margin;
    if activation_owner_check(pv, who, id) is Some {
        activation_owner_check(pv, who, id)
    } else if start < margin {
        Some(Error::InvalidBlockPeriod)
    } else if !(now <= start - margin) {
        Some(Error::PastStartDate)
    } else {
        None
    }
}

/// `activate_festival` reaches its measurement of the festival's length with an end
/// block before the safe start block; the subtraction there would overflow.
pub open spec fn activate_underflows(
    pv: PalletView,
    who: u64,
    id: u32,
    start: u64,
    end: u64,
    now: u64,
) -> bool {
    activate_start_check(pv, who, id, start, now) is None && end < start
        - pv.config.fest_block_safety_margin
}

/// The refusal that `activate_festival` gives, if any.
pub open spec fn activate_check(
    pv: PalletView,
    who: u64,
    id: u32,
    start: u64,
    end: u64,
    now: u64,
) -> Option<Error> {
    let safe_start = start - pv.config.fest_block_safety_margin;
    if activate_start_check(pv, who, id, start, now) is Some {
        activate_start_check(pv, who, id, start, now)
    } else if end - safe_start < pv.config.min_fes_block_duration {
        Some(Error::FestivalPeriodTooShort)
    } else if !pv.wallets.dom().contains(who) {
        Some(Error::NonexistentFestival)
    } else {
        None
    }
}

/// The storage after `activate_festival` succeeds.
pub open spec fn activate_result(pv: PalletView, id: u32, start: u64, end: u64) -> PalletView {
    bind_duration(move_stage(pv, id, FestivalStatus::AwaitingStartBlock), id, start, end)
}

/// `activate_festival_asap` measures the festival's length from a current block past
/// the end block; the subtraction there would overflow.
pub open spec fn activate_asap_underflows(pv: PalletView, who: u64, id: u32, end: u64, now: u64) -> bool {
    activation_owner_check(pv, who, id) is None && end < now
}

/// The refusal that `activate_festival_asap` gives, if any.
pub open spec fn activate_asap_check(pv: PalletView, who: u64, id: u32, end: u64, now: u64) -> Option<
    Error,
> {
    if activation_owner_check(pv, who, id) is Some {
        activation_owner_check(pv, who, id)
    } else if end - now < pv.config.min_fes_block_duration {
        Some(Error::FestivalPeriodTooShort)
    } else if !pv.wallets.dom().contains(who) {
        Some(Error::NonexistentFestival)
    } else {
        None
    }
}

/// The storage after `activate_festival_asap` succeeds: the festival is active at once
/// and listed to end at `end`.
pub open spec fn activate_asap_result(pv: PalletView, id: u32, end: u64) -> PalletView {
    bind_end(move_stage(pv, id, FestivalStatus::Active), id, end)
}

/// The refusal that adding or removing movies gives, if any; `missing` is the refusal
/// for a festival that does not exist.
pub open spec fn movie_list_check(pv: PalletView, id: u32, missing: Error) -> Option<Error> {
    if !pv.festivals.dom().contains(id) {
        Some(missing)
    } else if pv.festivals[id].status != FestivalStatus::AwaitingActivation {
        Some(Error::FestivalNotAcceptingNewMovies)
    } else {
        None
    }
}

/// Festival `id` takes the movies given that it does not hold yet, each once and in the
/// order first given, as many as fit.
pub open spec fn add_movies_result(
    pv: PalletView,
    id: u32,
    internal: Seq<Seq<u8>>,
    external: Seq<Seq<u8>>,
) -> PalletView {
    let f = pv.festivals[id];
    let max = pv.config.max_movies_in_fest as int;
    PalletView {
        festivals: pv.festivals.insert(
            id,
            FestivalView {
                internal_movies: push_until_full(
                    f.internal_movies,
                    keep_not_in(unique(internal), f.internal_movies),
                    max,
                ),
                external_movies: push_until_full(
                    f.external_movies,
                    keep_not_in(unique(external), f.external_movies),
                    max,
                ),
                ..f
            },
        ),
        ..pv
    }
}

/// Festival `id` drops every movie that the lists given name.
pub open spec fn remove_movies_result(
    pv: PalletView,
    id: u32,
    internal: Seq<Seq<u8>>,
    external: Seq<Seq<u8>>,
) -> PalletView {
    let f = pv.festivals[id];
    PalletView {
        festivals: pv.festivals.insert(
            id,
            FestivalView {
                internal_movies: keep_not_in(f.internal_movies, internal),
                external_movies: keep_not_in(f.external_movies, external),
                ..f
            },
        ),
        ..pv
    }
}

/// The checks a vote passes before any tokens move.
pub open spec fn vote_check(pv: PalletView, who: u64, id: u32, movie: Seq<u8>, amount: u128) -> Option<
    Error,
> {
    if !pv.festivals.dom().contains(id) {
        Some(Error::NonexistentFestival)
    } else if !(pv.festivals[id].internal_movies.contains(movie)
        || pv.festivals[id].external_movies.contains(movie)) {
        Some(Error::MovieNotInFestival)
    } else if pv.festivals[id].owner == who {
        Some(Error::CannotVoteInOwnFestival)
    } else if pv.festivals[id].status != FestivalStatus::Active {
        Some(Error::FestivalNotActive)
    } else if amount > pv.festivals[id].max_entry {
        Some(Error::VoteValueTooHigh)
    } else if amount == 0 {
        Some(Error::VoteValueCannotBeZero)
    } else {
        None
    }
}

/// The refusal that a vote gets, if any: the checks, then the total stake overflowing.
pub open spec fn vote_error(pv: PalletView, who: u64, id: u32, movie: Seq<u8>, amount: u128) -> Option<
    Error,
> {
    if vote_check(pv, who, id, movie, amount) is Some {
        vote_check(pv, who, id, movie, amount)
    } else if pv.festivals[id].total_lockup + amount > u128::MAX {
        Some(Error::Overflow)
    } else {
        None
    }
}

/// The storage after a vote is taken: the stake is added to the festival's total and
/// the vote to the end of its list.
pub open spec fn vote_result(pv: PalletView, who: u64, id: u32, movie: Seq<u8>, amount: u128) -> PalletView {
    let f = pv.festivals[id];
    PalletView {
        festivals: pv.festivals.insert(
            id,
            FestivalView {
                total_lockup: (f.total_lockup + amount) as u128,
                vote_list: f.vote_list.push(VoteView { voter: who, vote_for: movie, amount }),
                ..f
            },
        ),
        ..pv
    }
}

//  Ending festivals and awarding wins
/// The wallet data of `owner`, where there is some, moves `id` from its active list to
/// the end of its finished list.
pub open spec fn active_to_finished(pv: PalletView, owner: u64, id: u32) -> PalletView {
    if pv.wallets.dom().contains(owner) {
        let w = pv.wallets[owner];
        PalletView {
            wallets: pv.wallets.insert(
                owner,
                WalletDataView {
                    active_festivals: without(w.active_festivals, id),
                    finished_festivals: w.finished_festivals.push(id),
                    ..w
                },
            ),
            ..pv
        }
    } else {
        pv
    }
}

/// Festival `id` is recorded as won by `uploader`, whose wallet data is created, empty
/// but for that win, where there is none.
pub open spec fn award_win(pv: PalletView, uploader: u64, id: u32) -> PalletView {
    let w = if pv.wallets.dom().contains(uploader) {
        WalletDataView {
            won_festivals: pv.wallets[uploader].won_festivals.push(id),
            ..pv.wallets[uploader]
        }
    } else {
        WalletDataView {
            all_festivals: seq![],
            awaiting_activation_festivals: seq![],
            awaiting_start_festivals: seq![],
            active_festivals: seq![],
            finished_festivals: seq![],
            won_festivals: seq![id],
        }
    };
    PalletView { wallets: pv.wallets.insert(uploader, w), ..pv }
}

/// Recording a win for `uploader` finds room in the list of won festivals.
pub open spec fn award_has_room(pv: PalletView, uploader: u64) -> bool {
    if pv.wallets.dom().contains(uploader) {
        pv.wallets[uploader].won_festivals.len() < pv.config.max_owned_festivals
    } else {
        pv.config.max_owned_festivals >= 1
    }
}

} // verus!
