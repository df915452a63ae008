use vstd::prelude::*;

use crate::encoding::{le_bytes_u32, scale_encode_u32};
use crate::model::{
    activate_asap_check, activate_asap_result, activate_asap_underflows, activate_check,
    activate_result, bind_end_has_room,
    activate_underflows, activation_owner_check, activate_start_check, add_movies_result,
    bind_duration_has_room, bind_owner_has_room, create_festival_precheck,
    create_festival_result, festival_category, festival_ok, inv, movie_list_check,
    remove_movies_result, sum_amounts, vote_check, vote_error, vote_result, Stage,
};
use crate::pallet::Pallet;
use crate::proofs::{
    lemma_bind_duration_inv, lemma_bind_end_inv, lemma_create_inv, lemma_festival_update_inv, lemma_move_stage_inv,
};
use crate::seqs::{
    keep_movies_not_in, lemma_keep_not_in_len, lemma_push_until_full_len, list_contains,
    push_movies_until_full, unique_movies,
};
use crate::types::{
    bytes_list, tag_list, votes_view, CallError, Error, Event, EventView, FestivalStatus, TokenKind,
    TokenUpdate, Vote, VoteView,
};

verus! {

proof fn lemma_sum_amounts_push(votes: Seq<VoteView>, v: VoteView)
    ensures
        sum_amounts(votes.push(v)) == sum_amounts(votes) + v.amount,
{
    assert(votes.push(v).drop_last() =~= votes);
}

impl Pallet {
    /// The category that festivals are tagged under, as the tag registry takes it;
    /// `BadMetadata` when the registry's category names are too short for it.
    pub fn festival_category_type(&self) -> (r: Result<Vec<u8>, Error>)
        ensures
            match r {
                Ok(c) => c@ == festival_category() && festival_category().len()
                    <= self@.config.category_string_limit,
                Err(e) => e == Error::BadMetadata && self@.config.category_string_limit
                    < festival_category().len(),
            },
    {
        let mut c: Vec<u8> = Vec::new();
        c.push(70u8);
        c.push(101u8);
        c.push(115u8);
        c.push(116u8);
        c.push(105u8);
        c.push(118u8);
        c.push(97u8);
        c.push(108u8);
        assert(c@ =~= festival_category());
        if c.len() > self.config().category_string_limit as usize {
            return Err(Error::BadMetadata);
        }
        Ok(c)
    }

    /// Creates a private festival, awaiting activation by `who`, and binds it to `who`.
    ///
    /// `tag_check` is what the tag registry answered when asked whether the categories
    /// and tags are valid under the category of `festival_category_type`. On success
    /// this hands back the festival's id as SCALE encodes it, which the registry then
    /// files the tags under, and the event to announce.
    pub fn create_festival<E>(
        &mut self,
        who: u64,
        bounded_name: Vec<u8>,
        bounded_description: Vec<u8>,
        max_entry: u128,
        internal_movie_ids: Vec<Vec<u8>>,
        external_movie_ids: Vec<Vec<u8>>,
        category_tag_list: Vec<(Vec<u8>, Vec<u8>)>,
        tag_check: Result<(), E>,
    ) -> (r: Result<(Vec<u8>, Event), CallError<E>>)
        requires
            inv(old(self)@),
            create_festival_precheck(old(self)@, max_entry) is None && tag_check is Ok
                && old(self)@.next_festival_id < u32::MAX ==> bind_owner_has_room(
                old(self)@,
                who,
            ),
        ensures
            inv(final(self)@),
            match r {
                Ok((content_id, event)) => {
                    &&& create_festival_precheck(old(self)@, max_entry) is None
                    &&& tag_check is Ok
                    &&& old(self)@.next_festival_id < u32::MAX
                    &&& le_bytes_u32(old(self)@.next_festival_id).len()
                        <= old(self)@.config.content_string_limit
                    &&& final(self)@ == create_festival_result(
                        old(self)@,
                        who,
                        bounded_name@,
                        bounded_description@,
                        max_entry,
                        bytes_list(internal_movie_ids@),
                        bytes_list(external_movie_ids@),
                        tag_list(category_tag_list@),
                    )
                    &&& content_id@ == le_bytes_u32(old(self)@.next_festival_id)
                    &&& event@ == EventView::FestivalCreated(who, old(self)@.next_festival_id)
                },
                Err(CallError::Outside(e)) => {
                    &&& create_festival_precheck(old(self)@, max_entry) is None
                    &&& tag_check == Err::<(), E>(e)
                    &&& final(self)@ == old(self)@
                },
                Err(CallError::Pallet(e)) => {
                    &&& final(self)@ == old(self)@
                    &&& {
                        ||| create_festival_precheck(old(self)@, max_entry) == Some(e)
                        ||| {
                            &&& create_festival_precheck(old(self)@, max_entry) is None
                            &&& tag_check is Ok
                            &&& if old(self)@.next_festival_id == u32::MAX {
                                e == Error::Overflow
                            } else {
                                &&& le_bytes_u32(old(self)@.next_festival_id).len()
                                    > old(self)@.config.content_string_limit
                                &&& e == Error::BadMetadata
                            }
                        }
                    }
                },
            },
    {
        if max_entry == 0 {
            return Err(CallError::Pallet(Error::VoteMaxAmountCannotBeZero));
        }
        match self.festival_category_type() {
            Ok(_) => {},
            Err(e) => {
                return Err(CallError::Pallet(e));
            },
        }
        match tag_check {
            Ok(()) => {},
            Err(e) => {
                return Err(CallError::Outside(e));
            },
        }
        let next = self.next_festival_id();
        let content_id = scale_encode_u32(next);
        if next < u32::MAX && content_id.len() > self.config().content_string_limit as usize {
            return Err(CallError::Pallet(Error::BadMetadata));
        }
        let ghost pv = self@;
        let ghost name = bounded_name@;
        let ghost description = bounded_description@;
        let ghost internal = bytes_list(internal_movie_ids@);
        let ghost external = bytes_list(external_movie_ids@);
        let ghost tags = tag_list(category_tag_list@);
        let festival_id = match self.do_create_festival(
            who,
            bounded_name,
            bounded_description,
            max_entry,
            internal_movie_ids,
            external_movie_ids,
            category_tag_list,
            FestivalStatus::AwaitingActivation,
        ) {
            Ok(id) => id,
            Err(e) => {
                return Err(CallError::Pallet(e));
            },
        };
        let _bound = self.do_bind_owners_to_festival(who, festival_id);
        proof {
            lemma_create_inv(pv, who, name, description, max_entry, internal, external, tags);
        }
        Ok((content_id, Event::FestivalCreated(who, festival_id)))
    }

    /// Activates a festival awaiting activation, for its owner: it is listed to start at
    /// `start_block`, which must lie at least the safety margin after `now`, and to end
    /// at `end_block`.
    pub fn activate_festival(
        &mut self,
        who: u64,
        festival_id: u32,
        start_block: u64,
        end_block: u64,
        now: u64,
    ) -> (r: Result<Event, Error>)
        requires
            inv(old(self)@),
            !activate_underflows(old(self)@, who, festival_id, start_block, end_block, now),
            activate_check(old(self)@, who, festival_id, start_block, end_block, now) is None
                ==> bind_duration_has_room(old(self)@, festival_id, start_block, end_block),
        ensures
            inv(final(self)@),
            match r {
                Ok(event) => {
                    &&& activate_check(old(self)@, who, festival_id, start_block, end_block, now)
                        is None
                    &&& final(self)@ == activate_result(
                        old(self)@,
                        festival_id,
                        start_block,
                        end_block,
                    )
                    &&& event@ == EventView::FestivalActivated(festival_id, who)
                },
                Err(e) => {
                    &&& activate_check(old(self)@, who, festival_id, start_block, end_block, now)
                        == Some(e)
                    &&& final(self)@ == old(self)@
                },
            },
    {
        let margin = self.config().fest_block_safety_margin as u64;
        let min_duration = self.config().min_fes_block_duration as u64;
        match self.owner_check(who, festival_id) {
            Ok(()) => {},
            Err(e) => {
                return Err(e);
            },
        }
        let safe_start_time = match start_block.checked_sub(margin) {
            Some(t) => t,
            None => {
                return Err(Error::InvalidBlockPeriod);
            },
        };
        if !(now <= safe_start_time) {
            return Err(Error::PastStartDate);
        }
        assert(activate_start_check(self@, who, festival_id, start_block, now) is None);
        if end_block - safe_start_time < min_duration {
            return Err(Error::FestivalPeriodTooShort);
        }
        if self.get_wallet_festival_data(who).is_none() {
            return Err(Error::NonexistentFestival);
        }
        let ghost pv = self@;
        proof {
            lemma_move_stage_inv(pv, festival_id, FestivalStatus::AwaitingStartBlock);
        }
        self.move_festival_stage(
            festival_id,
            FestivalStatus::AwaitingStartBlock,
            Stage::AwaitingActivation,
            Stage::AwaitingStart,
        );
        assert(self@.block_assignments == pv.block_assignments);
        proof {
            lemma_bind_duration_inv(self@, festival_id, start_block, end_block);
        }
        let _bound = self.do_bind_duration_to_festival(festival_id, start_block, end_block);
        Ok(Event::FestivalActivated(festival_id, who))
    }

    /// Activates a festival awaiting activation, for its owner, at once: it is active
    /// from now on and listed to end at `end_block`.
    pub fn activate_festival_asap(&mut self, who: u64, festival_id: u32, end_block: u64, now: u64) -> (r:
        Result<Event, Error>)
        requires
            inv(old(self)@),
            !activate_asap_underflows(old(self)@, who, festival_id, end_block, now),
            activate_asap_check(old(self)@, who, festival_id, end_block, now) is None
                ==> bind_end_has_room(old(self)@, end_block),
        ensures
            inv(final(self)@),
            match r {
                Ok(event) => {
                    &&& activate_asap_check(old(self)@, who, festival_id, end_block, now) is None
                    &&& final(self)@ == activate_asap_result(old(self)@, festival_id, end_block)
                    &&& event@ == EventView::FestivalActivated(festival_id, who)
                },
                Err(e) => {
                    &&& activate_asap_check(old(self)@, who, festival_id, end_block, now) == Some(
                        e,
                    )
                    &&& final(self)@ == old(self)@
                },
            },
    {
        let min_duration = self.config().min_fes_block_duration as u64;
        match self.owner_check(who, festival_id) {
            Ok(()) => {},
            Err(e) => {
                return Err(e);
            },
        }
        if end_block - now < min_duration {
            return Err(Error::FestivalPeriodTooShort);
        }
        if self.get_wallet_festival_data(who).is_none() {
            return Err(Error::NonexistentFestival);
        }
        let ghost pv = self@;
        proof {
            lemma_move_stage_inv(pv, festival_id, FestivalStatus::Active);
        }
        self.move_festival_stage(
            festival_id,
            FestivalStatus::Active,
            Stage::AwaitingActivation,
            Stage::Active,
        );
        assert(self@.block_assignments == pv.block_assignments);
        proof {
            lemma_bind_end_inv(self@, festival_id, end_block);
        }
        self.bind_end_block(festival_id, end_block);
        Ok(Event::FestivalActivated(festival_id, who))
    }

    /// The refusal that `activate_festival` with these arguments gives, if any.
    pub fn activate_festival_check(
        &self,
        who: u64,
        festival_id: u32,
        start_block: u64,
        end_block: u64,
        now: u64,
    ) -> (r: Option<Error>)
        requires
            !activate_underflows(self@, who, festival_id, start_block, end_block, now),
        ensures
            r == activate_check(self@, who, festival_id, start_block, end_block, now),
    {
        let margin = self.config().fest_block_safety_margin as u64;
        let min_duration = self.config().min_fes_block_duration as u64;
        match self.owner_check(who, festival_id) {
            Ok(()) => {},
            Err(e) => {
                return Some(e);
            },
        }
        let safe_start_time = match start_block.checked_sub(margin) {
            Some(t) => t,
            None => {
                return Some(Error::InvalidBlockPeriod);
            },
        };
        if !(now <= safe_start_time) {
            return Some(Error::PastStartDate);
        }
        assert(activate_start_check(self@, who, festival_id, start_block, now) is None);
        if end_block - safe_start_time < min_duration {
            return Some(Error::FestivalPeriodTooShort);
        }
        if self.get_wallet_festival_data(who).is_none() {
            return Some(Error::NonexistentFestival);
        }
        None
    }

    /// Whether `activate_festival` with these arguments would reach its measurement of
    /// the festival's length with an end block before the safe start block, where the
    /// subtraction overflows.
    pub fn activation_would_underflow(
        &self,
        who: u64,
        festival_id: u32,
        start_block: u64,
        end_block: u64,
        now: u64,
    ) -> (r: bool)
        ensures
            r == activate_underflows(self@, who, festival_id, start_block, end_block, now),
    {
        if self.owner_check(who, festival_id).is_err() {
            return false;
        }
        let margin = self.config().fest_block_safety_margin as u64;
        match start_block.checked_sub(margin) {
            None => false,
            Some(safe_start_time) => now <= safe_start_time && end_block < safe_start_time,
        }
    }

    /// Whether `activate_festival_asap` with these arguments would measure the
    /// festival's length from a current block past the end block, where the subtraction
    /// overflows.
    pub fn activation_asap_would_underflow(&self, who: u64, festival_id: u32, end_block: u64, now: u64) -> (r:
        bool)
        ensures
            r == activate_asap_underflows(self@, who, festival_id, end_block, now),
    {
        self.owner_check(who, festival_id).is_ok() && end_block < now
    }

    /// Whether creating a festival for `who` with highest stake `max_entry`, where the tag
    /// registry found the tags valid as `tags_valid` says, would pass its checks and
    /// then find the lists of `who` full.
    pub fn creation_lists_full(&self, who: u64, max_entry: u128, tags_valid: bool) -> (r: bool)
        ensures
            r == (create_festival_precheck(self@, max_entry) is None && tags_valid
                && self@.next_festival_id < u32::MAX && !bind_owner_has_room(self@, who)),
    {
        assert(festival_category().len() == 8);
        max_entry != 0 && self.config().category_string_limit >= 8 && tags_valid
            && self.next_festival_id() < u32::MAX && !self.owner_lists_have_room(who)
    }

    /// Whether `activate_festival` with these arguments would pass its checks and then
    /// find the start list of `start_block` or the end list of `end_block` full.
    pub fn activation_lists_full(
        &self,
        who: u64,
        festival_id: u32,
        start_block: u64,
        end_block: u64,
        now: u64,
    ) -> (r: bool)
        ensures
            r == (!activate_underflows(self@, who, festival_id, start_block, end_block, now)
                && activate_check(self@, who, festival_id, start_block, end_block, now) is None
                && !bind_duration_has_room(self@, festival_id, start_block, end_block)),
    {
        !self.activation_would_underflow(who, festival_id, start_block, end_block, now)
            && self.activate_festival_check(who, festival_id, start_block, end_block, now).is_none()
            && !self.block_lists_have_room(festival_id, start_block, end_block)
    }

    /// Whether `activate_festival_asap` with these arguments would pass its checks and
    /// then find the end list of `end_block` full.
    pub fn asap_activation_lists_full(&self, who: u64, festival_id: u32, end_block: u64, now: u64) -> (r:
        bool)
        ensures
            r == (!activate_asap_underflows(self@, who, festival_id, end_block, now)
                && activate_asap_check(self@, who, festival_id, end_block, now) is None
                && !bind_end_has_room(self@, end_block)),
    {
        if self.activation_asap_would_underflow(who, festival_id, end_block, now) {
            return false;
        }
        if self.owner_check(who, festival_id).is_err() {
            return false;
        }
        let min_duration = self.config().min_fes_block_duration as u64;
        if end_block - now < min_duration {
            return false;
        }
        if self.get_wallet_festival_data(who).is_none() {
            return false;
        }
        !self.end_list_has_room(end_block)
    }

    /// Whether a vote with these arguments would pass its checks and then find the
    /// festival's vote list full.
    pub fn vote_list_full(&self, who: u64, festival_id: u32, movie_id: &Vec<u8>, vote_amount: u128) -> (r:
        bool)
        ensures
            r == (vote_error(self@, who, festival_id, movie_id@, vote_amount) is None
                && !(self@.festivals[festival_id].vote_list.len() < self@.config.max_votes)),
    {
        if self.check_vote(who, festival_id, movie_id, vote_amount).is_err() {
            return false;
        }
        match self.get_festival(festival_id) {
            Some(f) => f.total_lockup.checked_add(vote_amount).is_some() && f.vote_list.len()
                >= self.config().max_votes as usize,
            None => false,
        }
    }

    /// The checks that both ways of activating a festival begin with.
    fn owner_check(&self, who: u64, festival_id: u32) -> (r: Result<(), Error>)
        ensures
            match r {
                Ok(()) => activation_owner_check(self@, who, festival_id) is None,
                Err(e) => activation_owner_check(self@, who, festival_id) == Some(e),
            },
    {
        match self.get_festival(festival_id) {
            None => Err(Error::BadMetadata),
            Some(f) => {
                if f.owner != who {
                    Err(Error::NoFestivalAdminAccess)
                } else if !(f.internal_movies.len() >= 2 || f.external_movies.len() >= 2 || (
                f.internal_movies.len() == 1 && f.external_movies.len() == 1)) {
                    Err(Error::NotEnoughMoviesInFestival)
                } else if f.status != FestivalStatus::AwaitingActivation {
                    Err(Error::NotAwaitingActivation)
                } else {
                    Ok(())
                }
            },
        }
    }

    /// The checks that adding or removing movies begins with.
    fn movie_list_checks(&self, festival_id: u32, missing: Error) -> (r: Result<(), Error>)
        ensures
            match r {
                Ok(()) => movie_list_check(self@, festival_id, missing) is None,
                Err(e) => movie_list_check(self@, festival_id, missing) == Some(e),
            },
    {
        match self.get_festival(festival_id) {
            None => Err(missing),
            Some(f) => {
                if f.status != FestivalStatus::AwaitingActivation {
                    Err(Error::FestivalNotAcceptingNewMovies)
                } else {
                    Ok(())
                }
            },
        }
    }

    /// Adds to a festival awaiting activation the movies of the lists that it does not
    /// hold yet, each once, as many as fit.
    pub fn add_movies_to_fest(
        &mut self,
        who: u64,
        festival_id: u32,
        internal_movie_ids: Vec<Vec<u8>>,
        external_movie_ids: Vec<Vec<u8>>,
    ) -> (r: Result<Event, Error>)
        requires
            inv(old(self)@),
        ensures
            inv(final(self)@),
            match r {
                Ok(event) => {
                    &&& movie_list_check(old(self)@, festival_id, Error::NonexistentFestival)
                        is None
                    &&& final(self)@ == add_movies_result(
                        old(self)@,
                        festival_id,
                        bytes_list(internal_movie_ids@),
                        bytes_list(external_movie_ids@),
                    )
                    &&& event@ == EventView::MoviesAddedToFestival(festival_id, who)
                },
                Err(e) => {
                    &&& movie_list_check(old(self)@, festival_id, Error::NonexistentFestival)
                        == Some(e)
                    &&& final(self)@ == old(self)@
                },
            },
    {
        match self.movie_list_checks(festival_id, Error::NonexistentFestival) {
            Ok(()) => {},
            Err(e) => {
                return Err(e);
            },
        }
        let ghost pv = self@;
        let max = self.config().max_movies_in_fest;
        if let Some(f) = self.take_festival(festival_id) {
            let mut f = f;
            let ghost f0 = f@;
            let unique_internal = unique_movies(&internal_movie_ids);
            let unique_external = unique_movies(&external_movie_ids);
            let new_internal = keep_movies_not_in(&unique_internal, &f.internal_movies);
            let new_external = keep_movies_not_in(&unique_external, &f.external_movies);
            push_movies_until_full(&mut f.internal_movies, &new_internal, max);
            push_movies_until_full(&mut f.external_movies, &new_external, max);
            assert(f@ == add_movies_result(
                pv,
                festival_id,
                bytes_list(internal_movie_ids@),
                bytes_list(external_movie_ids@),
            ).festivals[festival_id]);
            proof {
                assert(festival_ok(pv.config, f0));
                lemma_push_until_full_len(f0.internal_movies, bytes_list(new_internal@), max as int);
                lemma_push_until_full_len(f0.external_movies, bytes_list(new_external@), max as int);
                lemma_festival_update_inv(pv, festival_id, f@);
            }
            self.put_festival(festival_id, f);
            assert(self@.festivals =~= pv.festivals.insert(
                festival_id,
                add_movies_result(
                    pv,
                    festival_id,
                    bytes_list(internal_movie_ids@),
                    bytes_list(external_movie_ids@),
                ).festivals[festival_id],
            ));
        }
        Ok(Event::MoviesAddedToFestival(festival_id, who))
    }

    /// Removes from a festival awaiting activation every movie that the lists name.
    pub fn remove_movies_from_fest(
        &mut self,
        who: u64,
        festival_id: u32,
        internal_movie_ids: Vec<Vec<u8>>,
        external_movie_ids: Vec<Vec<u8>>,
    ) -> (r: Result<Event, Error>)
        requires
            inv(old(self)@),
        ensures
            inv(final(self)@),
            match r {
                Ok(event) => {
                    &&& movie_list_check(old(self)@, festival_id, Error::BadMetadata) is None
                    &&& final(self)@ == remove_movies_result(
                        old(self)@,
                        festival_id,
                        bytes_list(internal_movie_ids@),
                        bytes_list(external_movie_ids@),
                    )
                    &&& event@ == EventView::MoviesAddedToFestival(festival_id, who)
                },
                Err(e) => {
                    &&& movie_list_check(old(self)@, festival_id, Error::BadMetadata) == Some(e)
                    &&& final(self)@ == old(self)@
                },
            },
    {
        match self.movie_list_checks(festival_id, Error::BadMetadata) {
            Ok(()) => {},
            Err(e) => {
                return Err(e);
            },
        }
        let ghost pv = self@;
        if let Some(f) = self.take_festival(festival_id) {
            let mut f = f;
            let ghost f0 = f@;
            f.internal_movies = keep_movies_not_in(&f.internal_movies, &internal_movie_ids);
            f.external_movies = keep_movies_not_in(&f.external_movies, &external_movie_ids);
            assert(f@ == remove_movies_result(
                pv,
                festival_id,
                bytes_list(internal_movie_ids@),
                bytes_list(external_movie_ids@),
            ).festivals[festival_id]);
            proof {
                assert(festival_ok(pv.config, f0));
                lemma_keep_not_in_len(f0.internal_movies, bytes_list(internal_movie_ids@));
                lemma_keep_not_in_len(f0.external_movies, bytes_list(external_movie_ids@));
                lemma_festival_update_inv(pv, festival_id, f@);
            }
            self.put_festival(festival_id, f);
            assert(self@.festivals =~= pv.festivals.insert(
                festival_id,
                remove_movies_result(
                    pv,
                    festival_id,
                    bytes_list(internal_movie_ids@),
                    bytes_list(external_movie_ids@),
                ).festivals[festival_id],
            ));
        }
        Ok(Event::MoviesAddedToFestival(festival_id, who))
    }

    /// The checks a vote passes before any tokens move; on success, the festival's
    /// highest stake, which the voter pays into the pallet's account, and the update
    /// that has the stat tracker lock the stake itself among the voter's tokens.
    pub fn check_vote(&self, who: u64, festival_id: u32, movie_id: &Vec<u8>, vote_amount: u128) -> (r:
        Result<(u128, TokenUpdate), Error>)
        ensures
            match r {
                Ok((deposit, lock)) => {
                    &&& vote_check(self@, who, festival_id, movie_id@, vote_amount) is None
                    &&& deposit == self@.festivals[festival_id].max_entry
                    &&& lock == (TokenUpdate {
                        account: who,
                        token: TokenKind::Locked,
                        amount: vote_amount,
                        decrease: false,
                    })
                },
                Err(e) => vote_check(self@, who, festival_id, movie_id@, vote_amount) == Some(e),
            },
    {
        match self.get_festival(festival_id) {
            None => Err(Error::NonexistentFestival),
            Some(f) => {
                let in_fest = list_contains(&f.internal_movies, movie_id) || list_contains(
                    &f.external_movies,
                    movie_id,
                );
                if !in_fest {
                    Err(Error::MovieNotInFestival)
                } else if f.owner == who {
                    Err(Error::CannotVoteInOwnFestival)
                } else if f.status != FestivalStatus::Active {
                    Err(Error::FestivalNotActive)
                } else if vote_amount > f.max_entry {
                    Err(Error::VoteValueTooHigh)
                } else if vote_amount == 0 {
                    Err(Error::VoteValueCannotBeZero)
                } else {
                    Ok(
                        (
                            f.max_entry,
                            TokenUpdate {
                                account: who,
                                token: TokenKind::Locked,
                                amount: vote_amount,
                                decrease: false,
                            },
                        ),
                    )
                }
            },
        }
    }

    /// Records a vote of `who` for a movie of an active festival: the stake is added to
    /// the festival's total, and the vote to its list.
    pub fn do_vote_for_movie_in_festival(
        &mut self,
        who: u64,
        festival_id: u32,
        movie_id: Vec<u8>,
        vote_amount: u128,
    ) -> (r: Result<(), Error>)
        requires
            inv(old(self)@),
            vote_error(old(self)@, who, festival_id, movie_id@, vote_amount) is None
                ==> old(self)@.festivals[festival_id].vote_list.len()
                < old(self)@.config.max_votes,
        ensures
            inv(final(self)@),
            match r {
                Ok(()) => {
                    &&& vote_error(old(self)@, who, festival_id, movie_id@, vote_amount) is None
                    &&& final(self)@ == vote_result(
                        old(self)@,
                        who,
                        festival_id,
                        movie_id@,
                        vote_amount,
                    )
                },
                Err(e) => {
                    &&& vote_error(old(self)@, who, festival_id, movie_id@, vote_amount) == Some(e)
                    &&& final(self)@ == old(self)@
                },
            },
    {
        match self.check_vote(who, festival_id, &movie_id, vote_amount) {
            Ok(_) => {},
            Err(e) => {
                return Err(e);
            },
        }
        let ghost pv = self@;
        let new_total = match self.get_festival(festival_id) {
            Some(f) => f.total_lockup.checked_add(vote_amount),
            None => None,
        };
        let new_total = match new_total {
            Some(t) => t,
            None => {
                return Err(Error::Overflow);
            },
        };
        let ghost movie = movie_id@;
        if let Some(f) = self.take_festival(festival_id) {
            let mut f = f;
            let ghost f0 = f@;
            f.total_lockup = new_total;
            f.vote_list.push(Vote { voter: who, vote_for: movie_id, amount: vote_amount });
            assert(votes_view(f.vote_list@) =~= f0.vote_list.push(
                VoteView { voter: who, vote_for: movie, amount: vote_amount },
            ));
            assert(f@ == vote_result(pv, who, festival_id, movie, vote_amount).festivals[festival_id]);
            proof {
                assert(festival_ok(pv.config, f0));
                lemma_sum_amounts_push(
                    f0.vote_list,
                    VoteView { voter: who, vote_for: movie, amount: vote_amount },
                );
                lemma_festival_update_inv(pv, festival_id, f@);
            }
            self.put_festival(festival_id, f);
            assert(self@.festivals =~= pv.festivals.insert(
                festival_id,
                vote_result(pv, who, festival_id, movie, vote_amount).festivals[festival_id],
            ));
        }
        Ok(())
    }

    /// Records a vote, as `do_vote_for_movie_in_festival` does, and hands back the event.
    pub fn vote_for_movie_in_festival(
        &mut self,
        who: u64,
        festival_id: u32,
        movie_id: Vec<u8>,
        vote_amount: u128,
    ) -> (r: Result<Event, Error>)
        requires
            inv(old(self)@),
            vote_error(old(self)@, who, festival_id, movie_id@, vote_amount) is None
                ==> old(self)@.festivals[festival_id].vote_list.len()
                < old(self)@.config.max_votes,
        ensures
            inv(final(self)@),
            match r {
                Ok(event) => {
                    &&& vote_error(old(self)@, who, festival_id, movie_id@, vote_amount) is None
                    &&& final(self)@ == vote_result(
                        old(self)@,
                        who,
                        festival_id,
                        movie_id@,
                        vote_amount,
                    )
                    &&& event@ == EventView::VotedForMovieInFestival(festival_id, movie_id@, who)
                },
                Err(e) => {
                    &&& vote_error(old(self)@, who, festival_id, movie_id@, vote_amount) == Some(e)
                    &&& final(self)@ == old(self)@
                },
            },
    {
        let event_movie = crate::seqs::copy_bytes(&movie_id);
        match self.do_vote_for_movie_in_festival(who, festival_id, movie_id, vote_amount) {
            Ok(()) => Ok(Event::VotedForMovieInFestival(festival_id, event_movie, who)),
            Err(e) => Err(e),
        }
    }

    /// What claiming festival rewards does, given the claimable festival tokens that the
    /// stat tracker holds for `who`: that amount is paid from the pallet's account to
    /// `who`, the stat tracker is asked to take nothing off the claimable tokens, and the
    /// event announces a reward of zero.
    pub fn claim_festival_rewards(who: u64, claimable_tokens_festival: u128) -> (r: (
        u128,
        TokenUpdate,
        Event,
    ))
        ensures
            r.0 == claimable_tokens_festival,
            r.1 == (TokenUpdate {
                account: who,
                token: TokenKind::Claimable,
                amount: 0,
                decrease: true,
            }),
            r.2@ == EventView::FestivalTokensClaimed(who, 0),
    {
        let reward: u128 = 0;
        (
            claimable_tokens_festival,
            TokenUpdate { account: who, token: TokenKind::Claimable, amount: 0, decrease: true },
            Event::FestivalTokensClaimed(who, reward),
        )
    }
}

} // verus!
