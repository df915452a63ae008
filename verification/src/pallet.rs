use std::collections::HashMap;

use vstd::prelude::*;

use crate::model::{
    active_to_finished, add_end, add_start, award_has_room, award_win, bind_duration, bind_end,
    bind_end_has_room,
    bind_duration_has_room, bind_owner, bind_owner_has_room, bound_owner_wallet,
    create_festival_state, genesis, inv, move_stage, stage_list, stage_of, with_stage_list,
    PalletView, Stage,
};
use crate::proofs::lemma_award_inv;
use crate::seqs::{push_movies_until_full, without, without_id};
use crate::types::{
    bytes_list, tag_list, votes_view, BlockAssignment, Config, Error, Festival, FestivalStatus,
    FestivalView, VoteView, WalletData,
};

verus! {

broadcast use vstd::std_specs::hash::group_hash_axioms;

/// The festival pallet: its configuration and its storage.
#[derive(Clone, Debug)]
pub struct Pallet {
    config: Config,
    next_festival_id: u32,
    festivals: HashMap<u32, Festival>,
    block_assignments: HashMap<u64, BlockAssignment>,
    wallet_festival_data: HashMap<u64, WalletData>,
}

impl View for Pallet {
    type V = PalletView;

    closed spec fn view(&self) -> PalletView {
        PalletView {
            config: self.config,
            next_festival_id: self.next_festival_id,
            festivals: self.festivals@.map_values(|f: Festival| f@),
            block_assignments: self.block_assignments@.map_values(|b: BlockAssignment| b@),
            wallets: self.wallet_festival_data@.map_values(|w: WalletData| w@),
        }
    }
}

impl Pallet {
    /// A pallet with empty storage.
    pub fn new(config: Config) -> (r: Pallet)
        ensures
            r@ == genesis(config),
            inv(r@),
    {
        let r = Pallet {
            config,
            next_festival_id: 0,
            festivals: HashMap::new(),
            block_assignments: HashMap::new(),
            wallet_festival_data: HashMap::new(),
        };
        assert(r@.festivals =~= Map::empty());
        assert(r@.block_assignments =~= Map::empty());
        assert(r@.wallets =~= Map::empty());
        r
    }

    /// The pallet's configuration.
    pub fn config(&self) -> (r: Config)
        ensures
            r == self@.config,
    {
        self.config
    }

    /// The id the next festival will get.
    pub fn next_festival_id(&self) -> (r: u32)
        ensures
            r == self@.next_festival_id,
    {
        self.next_festival_id
    }

    /// The festival stored under `id`.
    pub fn get_festival(&self, id: u32) -> (r: Option<&Festival>)
        ensures
            match r {
                Some(f) => self@.festivals.dom().contains(id) && self@.festivals[id] == f@,
                None => !self@.festivals.dom().contains(id),
            },
    {
        self.festivals.get(&id)
    }

    /// The festivals assigned to block `b`.
    pub fn get_block_assignments(&self, b: u64) -> (r: Option<&BlockAssignment>)
        ensures
            match r {
                Some(x) => self@.block_assignments.dom().contains(b)
                    && self@.block_assignments[b] == x@,
                None => !self@.block_assignments.dom().contains(b),
            },
    {
        self.block_assignments.get(&b)
    }

    /// The festival data of account `a`.
    pub fn get_wallet_festival_data(&self, a: u64) -> (r: Option<&WalletData>)
        ensures
            match r {
                Some(w) => self@.wallets.dom().contains(a) && self@.wallets[a] == w@,
                None => !self@.wallets.dom().contains(a),
            },
    {
        self.wallet_festival_data.get(&a)
    }

    /// Whether binding a festival to `who` finds room in the lists of `who` that it
    /// pushes to.
    pub fn owner_lists_have_room(&self, who: u64) -> (r: bool)
        ensures
            r == bind_owner_has_room(self@, who),
    {
        let max = self.config.max_owned_festivals as usize;
        match self.wallet_festival_data.get(&who) {
            Some(w) => w.all_festivals.len() < max && w.awaiting_activation_festivals.len() < max,
            None => self.config.max_owned_festivals >= 1,
        }
    }

    /// Whether listing festival `festival_id` to start at `start_block` and then to end at
    /// `end_block` finds room in both lists.
    pub fn block_lists_have_room(&self, festival_id: u32, start_block: u64, end_block: u64) -> (r:
        bool)
        ensures
            r == bind_duration_has_room(self@, festival_id, start_block, end_block),
    {
        let max = self.config.max_festivals_per_block as usize;
        let start_ok = match self.block_assignments.get(&start_block) {
            Some(a) => a.to_start.len() < max,
            None => self.config.max_festivals_per_block >= 1,
        };
        let end_ok = if end_block == start_block {
            match self.block_assignments.get(&start_block) {
                Some(a) => a.to_end.len() < max,
                None => self.config.max_festivals_per_block >= 1,
            }
        } else {
            self.end_list_has_room(end_block)
        };
        start_ok && end_ok
    }

    /// Whether the end list of block `end_block` has room for one more festival.
    pub fn end_list_has_room(&self, end_block: u64) -> (r: bool)
        ensures
            r == bind_end_has_room(self@, end_block),
    {
        let max = self.config.max_festivals_per_block as usize;
        match self.block_assignments.get(&end_block) {
            Some(a) => a.to_end.len() < max,
            None => self.config.max_festivals_per_block >= 1,
        }
    }

    /// Whether recording a win for `uploader` finds room in its list of won festivals.
    pub fn win_list_has_room(&self, uploader: u64) -> (r: bool)
        ensures
            r == award_has_room(self@, uploader),
    {
        let max = self.config.max_owned_festivals as usize;
        match self.wallet_festival_data.get(&uploader) {
            Some(w) => w.won_festivals.len() < max,
            None => self.config.max_owned_festivals >= 1,
        }
    }

    /// Stores a new festival under the next free id, with as many of the given movies as
    /// fit, and hands back that id; `Overflow` when the ids are used up.
    pub fn do_create_festival(
        &mut self,
        who: u64,
        name: Vec<u8>,
        description: Vec<u8>,
        min_ticket_price: u128,
        internal_movie_ids: Vec<Vec<u8>>,
        external_movie_ids: Vec<Vec<u8>>,
        category_tag_list: Vec<(Vec<u8>, Vec<u8>)>,
        status: FestivalStatus,
    ) -> (r: Result<u32, Error>)
        ensures
            match r {
                Ok(id) => {
                    &&& id == old(self)@.next_festival_id
                    &&& old(self)@.next_festival_id < u32::MAX
                    &&& final(self)@ == create_festival_state(
                        old(self)@,
                        who,
                        name@,
                        description@,
                        min_ticket_price,
                        bytes_list(internal_movie_ids@),
                        bytes_list(external_movie_ids@),
                        tag_list(category_tag_list@),
                        status,
                    )
                },
                Err(e) => {
                    &&& e == Error::Overflow
                    &&& old(self)@.next_festival_id == u32::MAX
                    &&& final(self)@ == old(self)@
                },
            },
    {
        let festival_id = self.next_festival_id;
        match festival_id.checked_add(1) {
            None => {
                return Err(Error::Overflow);
            },
            Some(n) => {
                self.next_festival_id = n;
            },
        }
        let mut internal_movies: Vec<Vec<u8>> = Vec::new();
        let mut external_movies: Vec<Vec<u8>> = Vec::new();
        push_movies_until_full(&mut internal_movies, &internal_movie_ids, self.config.max_movies_in_fest);
        push_movies_until_full(&mut external_movies, &external_movie_ids, self.config.max_movies_in_fest);
        assert(bytes_list(Seq::<Vec<u8>>::empty()) =~= Seq::<Seq<u8>>::empty());
        let festival = Festival {
            id: festival_id,
            owner: who,
            name,
            description,
            status,
            max_entry: min_ticket_price,
            total_lockup: 0,
            vote_list: Vec::new(),
            categories_and_tags: category_tag_list,
            internal_movies,
            external_movies,
        };
        assert(votes_view(festival.vote_list@) =~= Seq::<VoteView>::empty());
        let ghost fv = festival@;
        let ghost before = self.festivals@;
        self.festivals.insert(festival_id, festival);
        assert(self.festivals@.map_values(|f: Festival| f@) =~= before.map_values(
            |f: Festival| f@,
        ).insert(festival_id, fv));
        Ok(festival_id)
    }

    /// Records `festival_id` in the wallet data of `who` as owned and awaiting
    /// activation, creating that data if there is none.
    pub fn do_bind_owners_to_festival(&mut self, who: u64, festival_id: u32) -> (r: Result<
        (),
        Error,
    >)
        requires
            bind_owner_has_room(old(self)@, who),
        ensures
            r is Ok,
            final(self)@ == bind_owner(old(self)@, who, festival_id),
    {
        let ghost pv = self@;
        let ghost before = self.wallet_festival_data@;
        let new_data = match self.wallet_festival_data.remove(&who) {
            Some(w) => {
                let mut w = w;
                w.all_festivals.push(festival_id);
                w.awaiting_activation_festivals.push(festival_id);
                w
            },
            None => {
                let mut all: Vec<u32> = Vec::new();
                all.push(festival_id);
                let mut awaiting: Vec<u32> = Vec::new();
                awaiting.push(festival_id);
                WalletData {
                    all_festivals: all,
                    awaiting_activation_festivals: awaiting,
                    awaiting_start_festivals: Vec::new(),
                    active_festivals: Vec::new(),
                    finished_festivals: Vec::new(),
                    won_festivals: Vec::new(),
                }
            },
        };
        assert(new_data@ == bound_owner_wallet(pv, who, festival_id));
        self.wallet_festival_data.insert(who, new_data);
        assert(self@.wallets =~= pv.wallets.insert(who, bound_owner_wallet(pv, who, festival_id)));
        Ok(())
    }

    /// Lists `festival_id` to start at `start_block` and to end at `end_block`, creating
    /// the entries of blocks that have none.
    pub fn do_bind_duration_to_festival(
        &mut self,
        festival_id: u32,
        start_block: u64,
        end_block: u64,
    ) -> (r: Result<(), Error>)
        requires
            bind_duration_has_room(old(self)@, festival_id, start_block, end_block),
        ensures
            r is Ok,
            final(self)@ == bind_duration(old(self)@, festival_id, start_block, end_block),
    {
        let ghost pv = self@;
        let ghost before = self.block_assignments@;
        let start_entry = match self.block_assignments.remove(&start_block) {
            Some(a) => {
                let mut a = a;
                a.to_start.push(festival_id);
                a
            },
            None => {
                let mut to_start: Vec<u32> = Vec::new();
                to_start.push(festival_id);
                BlockAssignment { to_start, to_end: Vec::new() }
            },
        };
        self.block_assignments.insert(start_block, start_entry);
        let ghost ba1 = add_start(pv.block_assignments, start_block, festival_id);
        assert(self@.block_assignments =~= ba1);
        let end_entry = match self.block_assignments.remove(&end_block) {
            Some(a) => {
                let mut a = a;
                a.to_end.push(festival_id);
                a
            },
            None => {
                let mut to_end: Vec<u32> = Vec::new();
                to_end.push(festival_id);
                BlockAssignment { to_start: Vec::new(), to_end }
            },
        };
        self.block_assignments.insert(end_block, end_entry);
        assert(self@.block_assignments =~= add_end(ba1, end_block, festival_id));
        Ok(())
    }

    /// Lists `festival_id` to end at `end_block`, creating the block's entry where it has
    /// none.
    pub(crate) fn bind_end_block(&mut self, festival_id: u32, end_block: u64)
        requires
            bind_end_has_room(old(self)@, end_block),
        ensures
            final(self)@ == bind_end(old(self)@, festival_id, end_block),
    {
        let ghost pv = self@;
        let end_entry = match self.block_assignments.remove(&end_block) {
            Some(a) => {
                let mut a = a;
                a.to_end.push(festival_id);
                a
            },
            None => {
                let mut to_end: Vec<u32> = Vec::new();
                to_end.push(festival_id);
                BlockAssignment { to_start: Vec::new(), to_end }
            },
        };
        self.block_assignments.insert(end_block, end_entry);
        assert(self@.block_assignments =~= add_end(pv.block_assignments, end_block, festival_id));
    }

    /// Builds a start list and an end list that each hold `festival_id`, bounded as an
    /// owner's lists are, and stores neither.
    pub fn do_create_empty_block_assignments(&self, festival_id: u32) -> (r: Result<(), Error>)
        requires
            self@.config.max_owned_festivals >= 1,
        ensures
            r is Ok,
    {
        let mut to_start: Vec<u32> = Vec::new();
        to_start.push(festival_id);
        let mut to_end: Vec<u32> = Vec::new();
        to_end.push(festival_id);
        let _assignment = BlockAssignment { to_start, to_end };
        Ok(())
    }

    /// Takes festival `id` out of storage.
    pub(crate) fn take_festival(&mut self, id: u32) -> (r: Option<Festival>)
        ensures
            final(self)@ == (PalletView { festivals: old(self)@.festivals.remove(id), ..old(self)@ }),
            match r {
                Some(f) => old(self)@.festivals.dom().contains(id) && old(self)@.festivals[id] == f@,
                None => !old(self)@.festivals.dom().contains(id),
            },
    {
        let ghost pv = self@;
        let r = self.festivals.remove(&id);
        assert(self@.festivals =~= pv.festivals.remove(id));
        r
    }

    /// Stores festival `f` under `id`.
    pub(crate) fn put_festival(&mut self, id: u32, f: Festival)
        ensures
            final(self)@ == (PalletView {
                festivals: old(self)@.festivals.insert(id, f@),
                ..old(self)@
            }),
    {
        let ghost pv = self@;
        let ghost fv = f@;
        self.festivals.insert(id, f);
        assert(self@.festivals =~= pv.festivals.insert(id, fv));
    }

    /// Moves `festival_id`, in the wallet data of `owner`, from the active list to the
    /// end of the finished list; `NonexistentFestival` when `owner` has no wallet data.
    pub(crate) fn do_active_to_finished_fest_ownership(&mut self, owner: u64, festival_id: u32) -> (r:
        Result<(), Error>)
        requires
            old(self)@.wallets.dom().contains(owner) ==> old(self)@.wallets[owner].finished_festivals.len()
                < old(self)@.config.max_owned_festivals,
        ensures
            final(self)@ == active_to_finished(old(self)@, owner, festival_id),
            match r {
                Ok(()) => old(self)@.wallets.dom().contains(owner),
                Err(e) => e == Error::NonexistentFestival && !old(self)@.wallets.dom().contains(
                    owner,
                ),
            },
    {
        let ghost pv = self@;
        match self.wallet_festival_data.remove(&owner) {
            None => {
                assert(self@.wallets =~= pv.wallets);
                Err(Error::NonexistentFestival)
            },
            Some(w) => {
                let mut w = w;
                w.active_festivals = without_id(&w.active_festivals, festival_id);
                w.finished_festivals.push(festival_id);
                let ghost wv = w@;
                self.wallet_festival_data.insert(owner, w);
                assert(self@.wallets =~= pv.wallets.insert(owner, wv));
                Ok(())
            },
        }
    }

    /// Records `festival_id` as won by `uploader`, the uploader of one of its winning
    /// movies, only where the movie registry still holds that movie, as an internal movie
    /// (`internal_exists`) or as an external one (`external_exists`); says whether it did.
    pub fn do_assign_win_if_movie_exists(
        &mut self,
        uploader: u64,
        festival_id: u32,
        internal_exists: bool,
        external_exists: bool,
    ) -> (awarded: bool)
        requires
            inv(old(self)@),
            internal_exists || external_exists ==> award_has_room(old(self)@, uploader),
        ensures
            inv(final(self)@),
            awarded == (internal_exists || external_exists),
            final(self)@ == if awarded {
                award_win(old(self)@, uploader, festival_id)
            } else {
                old(self)@
            },
    {
        if internal_exists || external_exists {
            self.do_assign_festival_win(uploader, festival_id);
            true
        } else {
            false
        }
    }

    /// Records `festival_id` as won by `uploader`, the uploader of one of its winning
    /// movies, creating wallet data for `uploader`, empty but for that win, where there
    /// is none.
    pub fn do_assign_festival_win(&mut self, uploader: u64, festival_id: u32)
        requires
            inv(old(self)@),
            award_has_room(old(self)@, uploader),
        ensures
            inv(final(self)@),
            final(self)@ == award_win(old(self)@, uploader, festival_id),
    {
        let ghost pv = self@;
        proof {
            lemma_award_inv(pv, uploader, festival_id);
        }
        let data = match self.wallet_festival_data.remove(&uploader) {
            Some(w) => {
                let mut w = w;
                w.won_festivals.push(festival_id);
                w
            },
            None => {
                let mut won: Vec<u32> = Vec::new();
                won.push(festival_id);
                WalletData {
                    all_festivals: Vec::new(),
                    awaiting_activation_festivals: Vec::new(),
                    awaiting_start_festivals: Vec::new(),
                    active_festivals: Vec::new(),
                    finished_festivals: Vec::new(),
                    won_festivals: won,
                }
            },
        };
        let ghost wv = data@;
        self.wallet_festival_data.insert(uploader, data);
        assert(self@.wallets =~= pv.wallets.insert(uploader, wv));
    }

    /// Gives festival `id` status `s` and moves it, in its owner's wallet data, from the
    /// list of stage `from` to the end of the list of stage `to`.
    pub(crate) fn move_festival_stage(&mut self, id: u32, s: FestivalStatus, from: Stage, to: Stage)
        requires
            old(self)@.festivals.dom().contains(id),
            from == stage_of(old(self)@.festivals[id].status),
            to == stage_of(s),
        ensures
            final(self)@ == move_stage(old(self)@, id, s),
    {
        let ghost pv = self@;
        let ghost f0 = pv.festivals[id];
        let mut owner: u64 = 0;
        if let Some(f) = self.festivals.remove(&id) {
            let mut f = f;
            owner = f.owner;
            f.status = s;
            self.festivals.insert(id, f);
        }
        assert(owner == f0.owner);
        assert(self@.festivals =~= pv.festivals.insert(id, FestivalView { status: s, ..f0 }));
        if let Some(w) = self.wallet_festival_data.remove(&owner) {
            let mut w = w;
            move_in_wallet(&mut w, id, from, to);
            self.wallet_festival_data.insert(owner, w);
            assert(self@.wallets =~= pv.wallets.insert(
                owner,
                with_stage_list(
                    with_stage_list(
                        pv.wallets[owner],
                        from,
                        without(stage_list(pv.wallets[owner], from), id),
                    ),
                    to,
                    stage_list(
                        with_stage_list(
                            pv.wallets[owner],
                            from,
                            without(stage_list(pv.wallets[owner], from), id),
                        ),
                        to,
                    ).push(id),
                ),
            ));
        } else {
            assert(self@.wallets =~= pv.wallets);
        }
    }
}

/// Takes `id` out of the list of stage `from` and pushes it onto the list of stage `to`.
fn move_in_wallet(w: &mut WalletData, id: u32, from: Stage, to: Stage)
    ensures
        final(w)@ == with_stage_list(
            with_stage_list(old(w)@, from, without(stage_list(old(w)@, from), id)),
            to,
            stage_list(with_stage_list(old(w)@, from, without(stage_list(old(w)@, from), id)), to).push(
                id,
            ),
        ),
{
    match from {
        Stage::AwaitingActivation => {
            w.awaiting_activation_festivals = without_id(&w.awaiting_activation_festivals, id);
        },
        Stage::AwaitingStart => {
            w.awaiting_start_festivals = without_id(&w.awaiting_start_festivals, id);
        },
        Stage::Active => {
            w.active_festivals = without_id(&w.active_festivals, id);
        },
        Stage::Finished => {
            w.finished_festivals = without_id(&w.finished_festivals, id);
        },
    }
    match to {
        Stage::AwaitingActivation => {
            w.awaiting_activation_festivals.push(id);
        },
        Stage::AwaitingStart => {
            w.awaiting_start_festivals.push(id);
        },
        Stage::Active => {
            w.active_festivals.push(id);
        },
        Stage::Finished => {
            w.finished_festivals.push(id);
        },
    }
}

} // verus!
