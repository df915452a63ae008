use festival::pallet::Pallet;
use festival::types::{
    CallError, Config, Error, Event, FestivalStatus, HookAction, TokenKind, TokenUpdate,
};

const OWNER: u64 = 1;
const ALICE: u64 = 2;
const BOB: u64 = 3;
const CAROL: u64 = 4;

fn config() -> Config {
    Config {
        max_movies_in_fest: 3,
        max_owned_festivals: 4,
        min_fes_block_duration: 5,
        max_festivals_per_block: 2,
        max_votes: 5,
        fest_block_safety_margin: 2,
        content_string_limit: 8,
        category_string_limit: 16,
    }
}

fn movie(s: &str) -> Vec<u8> {
    s.as_bytes().to_vec()
}

fn ok_tags() -> Result<(), &'static str> {
    Ok(())
}

/// Creates a festival of `OWNER` with movies m1 and m2 and a highest stake of 500.
fn created(p: &mut Pallet) -> u32 {
    let id = p.next_festival_id();
    let r = p.create_festival(
        OWNER,
        movie("fest"),
        movie("desc"),
        500,
        vec![movie("m1"), movie("m2")],
        vec![],
        vec![(movie("cat"), movie("tag"))],
        ok_tags(),
    );
    assert!(r.is_ok());
    id
}

/// Creates a festival and activates it to run from block 10 to block 20.
fn scheduled(p: &mut Pallet) -> u32 {
    let id = created(p);
    assert_eq!(p.activate_festival(OWNER, id, 10, 20, 1), Ok(Event::FestivalActivated(id, OWNER)));
    id
}

/// A festival that has begun, at block 10.
fn running(p: &mut Pallet) -> u32 {
    let id = scheduled(p);
    let (events, r) = p.hook_activate_festival(10);
    assert_eq!(r, Ok(()));
    assert_eq!(events, vec![Event::FestivalHasBegun(id)]);
    id
}

#[test]
fn new_pallet_is_empty() {
    let p = Pallet::new(config());
    assert_eq!(p.next_festival_id(), 0);
    assert!(p.get_festival(0).is_none());
    assert!(p.get_wallet_festival_data(OWNER).is_none());
    assert!(p.get_block_assignments(0).is_none());
    assert_eq!(p.config(), config());
}

#[test]
fn create_festival_stores_a_private_festival() {
    let mut p = Pallet::new(config());
    let r = p.create_festival(
        OWNER,
        movie("fest"),
        movie("desc"),
        500,
        vec![movie("m1"), movie("m2")],
        vec![movie("x1")],
        vec![],
        ok_tags(),
    );
    assert_eq!(r, Ok((vec![0, 0, 0, 0], Event::FestivalCreated(OWNER, 0))));
    assert_eq!(p.next_festival_id(), 1);
    let f = p.get_festival(0).unwrap();
    assert_eq!(f.id, 0);
    assert_eq!(f.owner, OWNER);
    assert_eq!(f.status, FestivalStatus::AwaitingActivation);
    assert_eq!(f.max_entry, 500);
    assert_eq!(f.total_lockup, 0);
    assert!(f.vote_list.is_empty());
    assert_eq!(f.internal_movies, vec![movie("m1"), movie("m2")]);
    assert_eq!(f.external_movies, vec![movie("x1")]);
    let w = p.get_wallet_festival_data(OWNER).unwrap();
    assert_eq!(w.all_festivals, vec![0]);
    assert_eq!(w.awaiting_activation_festivals, vec![0]);
    assert!(w.active_festivals.is_empty());
    // a private festival is bound to no block
    assert!(p.get_block_assignments(0).is_none());
}

#[test]
fn second_festival_gets_the_next_id_and_its_encoding() {
    let mut p = Pallet::new(config());
    created(&mut p);
    let r = p.create_festival(OWNER, movie("b"), movie("d"), 7, vec![], vec![], vec![], ok_tags());
    assert_eq!(r, Ok((vec![1, 0, 0, 0], Event::FestivalCreated(OWNER, 1))));
    assert_eq!(p.get_wallet_festival_data(OWNER).unwrap().all_festivals, vec![0, 1]);
}

#[test]
fn create_festival_keeps_only_the_movies_that_fit() {
    let mut p = Pallet::new(config());
    let many = vec![movie("a"), movie("b"), movie("c"), movie("d")];
    assert!(p.create_festival(OWNER, movie("n"), movie("d"), 1, many, vec![], vec![], ok_tags()).is_ok());
    assert_eq!(p.get_festival(0).unwrap().internal_movies, vec![movie("a"), movie("b"), movie("c")]);
}

#[test]
fn create_festival_refusals_change_nothing() {
    let mut p = Pallet::new(config());
    let r = p.create_festival(OWNER, movie("n"), movie("d"), 0, vec![], vec![], vec![], ok_tags());
    assert_eq!(r, Err(CallError::Pallet(Error::VoteMaxAmountCannotBeZero)));
    let r = p.create_festival(OWNER, movie("n"), movie("d"), 3, vec![], vec![], vec![], Err("bad tag"));
    assert_eq!(r, Err(CallError::Outside("bad tag")));
    assert_eq!(p.next_festival_id(), 0);
    assert!(p.get_wallet_festival_data(OWNER).is_none());

    let mut short = config();
    short.category_string_limit = 7;
    let mut p = Pallet::new(short);
    let r = p.create_festival(OWNER, movie("n"), movie("d"), 3, vec![], vec![], vec![], ok_tags());
    assert_eq!(r, Err(CallError::Pallet(Error::BadMetadata)));

    let mut short = config();
    short.content_string_limit = 3;
    let mut p = Pallet::new(short);
    let r = p.create_festival(OWNER, movie("n"), movie("d"), 3, vec![], vec![], vec![], ok_tags());
    assert_eq!(r, Err(CallError::Pallet(Error::BadMetadata)));
    assert_eq!(p.next_festival_id(), 0);
    assert!(p.get_festival(0).is_none());
}

#[test]
fn festival_category_type_is_festival() {
    let p = Pallet::new(config());
    assert_eq!(p.festival_category_type(), Ok(movie("Festival")));
    let mut short = config();
    short.category_string_limit = 3;
    assert_eq!(Pallet::new(short).festival_category_type(), Err(Error::BadMetadata));
}

#[test]
fn activate_festival_schedules_it() {
    let mut p = Pallet::new(config());
    let id = scheduled(&mut p);
    let f = p.get_festival(id).unwrap();
    assert_eq!(f.status, FestivalStatus::AwaitingStartBlock);
    assert_eq!(p.get_block_assignments(10).unwrap().to_start, vec![id]);
    assert!(p.get_block_assignments(10).unwrap().to_end.is_empty());
    assert_eq!(p.get_block_assignments(20).unwrap().to_end, vec![id]);
    let w = p.get_wallet_festival_data(OWNER).unwrap();
    assert!(w.awaiting_activation_festivals.is_empty());
    assert_eq!(w.awaiting_start_festivals, vec![id]);
}

#[test]
fn activate_festival_refusals() {
    let mut p = Pallet::new(config());
    let id = created(&mut p);
    assert_eq!(p.activate_festival(OWNER, 9, 10, 20, 1), Err(Error::BadMetadata));
    assert_eq!(p.activate_festival(ALICE, id, 10, 20, 1), Err(Error::NoFestivalAdminAccess));
    assert_eq!(p.activate_festival(OWNER, id, 1, 20, 1), Err(Error::InvalidBlockPeriod));
    // the safe start is 8; the current block must not lie past it
    assert_eq!(p.activate_festival(OWNER, id, 10, 20, 9), Err(Error::PastStartDate));
    // 12 - 8 = 4 blocks is shorter than 5
    assert_eq!(p.activate_festival(OWNER, id, 10, 12, 1), Err(Error::FestivalPeriodTooShort));
    assert_eq!(p.get_festival(id).unwrap().status, FestivalStatus::AwaitingActivation);
    assert!(p.get_block_assignments(10).is_none());
    assert!(p.activation_would_underflow(OWNER, id, 10, 7, 1));
    assert!(!p.activation_would_underflow(OWNER, id, 10, 8, 1));

    // one movie is not enough
    let r = p.create_festival(OWNER, movie("n"), movie("d"), 3, vec![movie("m")], vec![], vec![], ok_tags());
    assert!(r.is_ok());
    assert_eq!(p.activate_festival(OWNER, 1, 10, 20, 1), Err(Error::NotEnoughMoviesInFestival));

    assert!(p.activate_festival(OWNER, id, 10, 20, 1).is_ok());
    assert_eq!(p.activate_festival(OWNER, id, 10, 20, 1), Err(Error::NotAwaitingActivation));
}

#[test]
fn activation_accepts_a_start_exactly_the_margin_away() {
    let mut p = Pallet::new(config());
    let id = created(&mut p);
    // the margin is 2: block 8 may start a festival at block 10
    assert_eq!(p.activate_festival_check(OWNER, id, 10, 20, 8), None);
    assert_eq!(p.activate_festival(OWNER, id, 10, 20, 8), Ok(Event::FestivalActivated(id, OWNER)));
    assert_eq!(p.get_block_assignments(10).unwrap().to_start, vec![id]);
}

#[test]
fn one_internal_and_one_external_movie_are_enough() {
    let mut p = Pallet::new(config());
    let r = p.create_festival(OWNER, movie("n"), movie("d"), 3, vec![movie("m")], vec![movie("x")], vec![], ok_tags());
    assert!(r.is_ok());
    assert_eq!(p.activate_festival(OWNER, 0, 10, 20, 1), Ok(Event::FestivalActivated(0, OWNER)));
    let r = p.create_festival(OWNER, movie("n"), movie("d"), 3, vec![], vec![movie("x")], vec![], ok_tags());
    assert!(r.is_ok());
    assert_eq!(p.activate_festival_asap(OWNER, 1, 20, 1), Err(Error::NotEnoughMoviesInFestival));
}

#[test]
fn activate_festival_asap_starts_it_at_once() {
    let mut p = Pallet::new(config());
    let id = created(&mut p);
    assert_eq!(p.activate_festival_asap(OWNER, id, 5, 1), Err(Error::FestivalPeriodTooShort));
    assert!(p.activation_asap_would_underflow(OWNER, id, 0, 1));
    assert_eq!(p.activate_festival_asap(OWNER, id, 6, 1), Ok(Event::FestivalActivated(id, OWNER)));
    assert_eq!(p.get_festival(id).unwrap().status, FestivalStatus::Active);
    let w = p.get_wallet_festival_data(OWNER).unwrap();
    assert_eq!(w.active_festivals, vec![id]);
    assert!(w.awaiting_activation_festivals.is_empty());
    let b = p.get_block_assignments(6).unwrap();
    assert_eq!(b.to_end, vec![id]);
    assert!(b.to_start.is_empty());
    assert_eq!(p.activate_festival_asap(OWNER, id, 6, 1), Err(Error::NotAwaitingActivation));
}

#[test]
fn a_festival_activated_at_once_ends_at_its_end_block() {
    let mut p = Pallet::new(config());
    let id = created(&mut p);
    assert!(p.activate_festival_asap(OWNER, id, 30, 1).is_ok());
    assert!(p.vote_for_movie_in_festival(ALICE, id, movie("m1"), 10).is_ok());
    assert!(p.vote_for_movie_in_festival(BOB, id, movie("m2"), 20).is_ok());
    p.on_finalize(29);
    assert_eq!(p.get_festival(id).unwrap().status, FestivalStatus::Active);
    p.on_finalize(30);
    assert_eq!(p.get_festival(id).unwrap().status, FestivalStatus::Finished);
    let w = p.get_wallet_festival_data(OWNER).unwrap();
    assert!(w.active_festivals.is_empty());
    assert_eq!(w.finished_festivals, vec![id]);
}

#[test]
fn add_movies_to_fest_skips_the_movies_it_holds() {
    let mut p = Pallet::new(config());
    let id = created(&mut p);
    let r = p.add_movies_to_fest(ALICE, id, vec![movie("m2"), movie("m3"), movie("m4")], vec![movie("x")]);
    assert_eq!(r, Ok(Event::MoviesAddedToFestival(id, ALICE)));
    let f = p.get_festival(id).unwrap();
    // m2 is held already; m3 fits; m4 finds the list full
    assert_eq!(f.internal_movies, vec![movie("m1"), movie("m2"), movie("m3")]);
    assert_eq!(f.external_movies, vec![movie("x")]);
    assert_eq!(p.add_movies_to_fest(ALICE, 7, vec![], vec![]), Err(Error::NonexistentFestival));
}

#[test]
fn add_movies_to_fest_adds_a_repeated_movie_once() {
    let mut p = Pallet::new(config());
    let id = created(&mut p);
    assert!(p.remove_movies_from_fest(OWNER, id, vec![movie("m2")], vec![]).is_ok());
    let r = p.add_movies_to_fest(OWNER, id, vec![movie("z"), movie("y"), movie("z")], vec![movie("e"), movie("e")]);
    assert!(r.is_ok());
    let f = p.get_festival(id).unwrap();
    assert_eq!(f.internal_movies, vec![movie("m1"), movie("z"), movie("y")]);
    assert_eq!(f.external_movies, vec![movie("e")]);
}

#[test]
fn remove_movies_from_fest_drops_the_named_movies() {
    let mut p = Pallet::new(config());
    let id = created(&mut p);
    let r = p.remove_movies_from_fest(BOB, id, vec![movie("m1"), movie("q")], vec![]);
    assert_eq!(r, Ok(Event::MoviesAddedToFestival(id, BOB)));
    assert_eq!(p.get_festival(id).unwrap().internal_movies, vec![movie("m2")]);
    assert_eq!(p.remove_movies_from_fest(BOB, 5, vec![], vec![]), Err(Error::BadMetadata));
}

#[test]
fn add_then_remove_restores_the_festival() {
    let mut p = Pallet::new(config());
    let id = created(&mut p);
    let before = p.get_festival(id).unwrap().internal_movies.clone();
    assert!(p.add_movies_to_fest(OWNER, id, vec![movie("n1")], vec![movie("e1")]).is_ok());
    assert!(p.remove_movies_from_fest(OWNER, id, vec![movie("n1")], vec![movie("e1")]).is_ok());
    let f = p.get_festival(id).unwrap();
    assert_eq!(f.internal_movies, before);
    assert!(f.external_movies.is_empty());
}

#[test]
fn movie_lists_are_frozen_after_activation() {
    let mut p = Pallet::new(config());
    let id = scheduled(&mut p);
    assert_eq!(p.add_movies_to_fest(OWNER, id, vec![movie("n")], vec![]), Err(Error::FestivalNotAcceptingNewMovies));
    assert_eq!(p.remove_movies_from_fest(OWNER, id, vec![movie("m1")], vec![]), Err(Error::FestivalNotAcceptingNewMovies));
}

#[test]
fn start_hook_begins_the_scheduled_festivals() {
    let mut p = Pallet::new(config());
    let id = running(&mut p);
    assert_eq!(p.get_festival(id).unwrap().status, FestivalStatus::Active);
    let w = p.get_wallet_festival_data(OWNER).unwrap();
    assert!(w.awaiting_start_festivals.is_empty());
    assert_eq!(w.active_festivals, vec![id]);
    // a block with nothing assigned
    let (events, r) = p.hook_activate_festival(11);
    assert!(events.is_empty());
    assert_eq!(r, Err(Error::NonexistentFestival));
}

#[test]
fn vote_checks() {
    let mut p = Pallet::new(config());
    let id = created(&mut p);
    assert_eq!(p.check_vote(ALICE, id, &movie("m1"), 10), Err(Error::FestivalNotActive));
    assert_eq!(p.check_vote(ALICE, 9, &movie("m1"), 10), Err(Error::NonexistentFestival));
    assert!(p.activate_festival_asap(OWNER, id, 30, 1).is_ok());
    assert_eq!(p.check_vote(ALICE, id, &movie("zz"), 10), Err(Error::MovieNotInFestival));
    assert_eq!(p.check_vote(OWNER, id, &movie("m1"), 10), Err(Error::CannotVoteInOwnFestival));
    assert_eq!(p.check_vote(ALICE, id, &movie("m1"), 501), Err(Error::VoteValueTooHigh));
    assert_eq!(p.check_vote(ALICE, id, &movie("m1"), 0), Err(Error::VoteValueCannotBeZero));
    assert_eq!(
        p.check_vote(ALICE, id, &movie("m1"), 7),
        Ok((500, TokenUpdate { account: ALICE, token: TokenKind::Locked, amount: 7, decrease: false }))
    );
    assert_eq!(
        p.vote_for_movie_in_festival(OWNER, id, movie("m1"), 10),
        Err(Error::CannotVoteInOwnFestival)
    );
    assert_eq!(p.get_festival(id).unwrap().total_lockup, 0);
}

#[test]
fn votes_add_their_stake() {
    let mut p = Pallet::new(config());
    let id = running(&mut p);
    assert_eq!(
        p.vote_for_movie_in_festival(ALICE, id, movie("m1"), 100),
        Ok(Event::VotedForMovieInFestival(id, movie("m1"), ALICE))
    );
    assert_eq!(p.do_vote_for_movie_in_festival(BOB, id, movie("m2"), 50), Ok(()));
    let f = p.get_festival(id).unwrap();
    assert_eq!(f.total_lockup, 150);
    assert_eq!(f.vote_list.len(), 2);
    assert_eq!(f.vote_list[0].voter, ALICE);
    assert_eq!(f.vote_list[1].vote_for, movie("m2"));
    assert_eq!(f.vote_list[1].amount, 50);
}

#[test]
fn end_hook_resolves_the_market() {
    let mut p = Pallet::new(config());
    let id = running(&mut p);
    assert!(p.vote_for_movie_in_festival(ALICE, id, movie("m1"), 100).is_ok());
    assert!(p.vote_for_movie_in_festival(BOB, id, movie("m2"), 50).is_ok());
    let (events, actions, r) = p.hook_deactivate_festival(20);
    assert_eq!(r, Ok(()));
    assert_eq!(events, vec![Event::FestivalHasEnded(id, vec![ALICE])]);
    let unlock = |a: u64, x: u128| HookAction::UpdateTokens(TokenUpdate {
        account: a,
        token: TokenKind::Locked,
        amount: x,
        decrease: true,
    });
    assert_eq!(
        actions,
        vec![
            HookAction::AwardWin { festival_id: id, movie_id: movie("m1") },
            // 150 / (100 / 100)
            HookAction::UpdateTokens(TokenUpdate {
                account: ALICE,
                token: TokenKind::Claimable,
                amount: 150,
                decrease: false,
            }),
            unlock(ALICE, 100),
            unlock(BOB, 50),
        ]
    );
    assert_eq!(p.get_festival(id).unwrap().status, FestivalStatus::Finished);
    let w = p.get_wallet_festival_data(OWNER).unwrap();
    assert!(w.active_festivals.is_empty());
    assert_eq!(w.finished_festivals, vec![id]);
}

#[test]
fn tied_movies_all_win() {
    let mut p = Pallet::new(config());
    let id = running(&mut p);
    assert!(p.vote_for_movie_in_festival(ALICE, id, movie("m1"), 100).is_ok());
    assert!(p.vote_for_movie_in_festival(BOB, id, movie("m2"), 200).is_ok());
    assert!(p.vote_for_movie_in_festival(CAROL, id, movie("m1"), 100).is_ok());
    // the last of the tied movies in id order comes first
    assert_eq!(p.do_get_winning_options(id), vec![movie("m2"), movie("m1")]);
    assert_eq!(p.do_get_winners_total_lockup(id, vec![movie("m2"), movie("m1")]), Ok(400));
    let (winners, actions) = p.do_resolve_market(id);
    assert_eq!(winners, vec![ALICE, BOB, CAROL]);
    let reward = |a: u64, x: u128| HookAction::UpdateTokens(TokenUpdate {
        account: a,
        token: TokenKind::Claimable,
        amount: x,
        decrease: false,
    });
    let unlock = |a: u64, x: u128| HookAction::UpdateTokens(TokenUpdate {
        account: a,
        token: TokenKind::Locked,
        amount: x,
        decrease: true,
    });
    assert_eq!(
        actions,
        vec![
            HookAction::AwardWin { festival_id: id, movie_id: movie("m2") },
            HookAction::AwardWin { festival_id: id, movie_id: movie("m1") },
            reward(ALICE, 100),
            unlock(ALICE, 100),
            reward(BOB, 200),
            unlock(BOB, 200),
            reward(CAROL, 100),
            unlock(CAROL, 100),
        ]
    );
}

#[test]
fn winning_options_follow_the_highest_total() {
    let mut p = Pallet::new(config());
    let id = running(&mut p);
    assert!(p.vote_for_movie_in_festival(ALICE, id, movie("m2"), 30).is_ok());
    assert!(p.vote_for_movie_in_festival(BOB, id, movie("m1"), 20).is_ok());
    assert!(p.vote_for_movie_in_festival(CAROL, id, movie("m1"), 20).is_ok());
    assert_eq!(p.do_get_winning_options(id), vec![movie("m1")]);
    assert_eq!(p.do_get_winners_total_lockup(id, vec![movie("m1")]), Ok(40));
    assert_eq!(p.do_get_winners_total_lockup(id, vec![]), Ok(0));
}

#[test]
fn a_festival_with_one_vote_ends_without_a_winner() {
    let mut p = Pallet::new(config());
    let id = running(&mut p);
    assert!(p.vote_for_movie_in_festival(ALICE, id, movie("m1"), 100).is_ok());
    let (events, actions, r) = p.hook_deactivate_festival(20);
    assert_eq!(r, Ok(()));
    assert_eq!(events, vec![Event::FestivalHasEndedUnsuccessfully(id)]);
    assert!(actions.is_empty());
    assert_eq!(p.get_festival(id).unwrap().status, FestivalStatus::FinishedNotEnoughVotes);
    assert_eq!(p.get_wallet_festival_data(OWNER).unwrap().finished_festivals, vec![id]);
}

#[test]
fn end_hook_leaves_festivals_that_are_not_active() {
    let mut p = Pallet::new(config());
    let id = scheduled(&mut p);
    let (events, actions, r) = p.hook_deactivate_festival(20);
    assert_eq!(r, Ok(()));
    assert!(events.is_empty());
    assert!(actions.is_empty());
    assert_eq!(p.get_festival(id).unwrap().status, FestivalStatus::AwaitingStartBlock);
    let (_, _, r) = p.hook_deactivate_festival(21);
    assert_eq!(r, Err(Error::NonexistentFestival));
}

#[test]
fn on_finalize_ends_then_starts() {
    let mut p = Pallet::new(config());
    let first = scheduled(&mut p);
    // a second festival starts at the block where the first ends
    let second = created(&mut p);
    assert!(p.activate_festival(OWNER, second, 20, 30, 1).is_ok());
    let (events, actions) = p.on_finalize(10);
    assert_eq!(events, vec![Event::FestivalHasBegun(first)]);
    assert!(actions.is_empty());
    let (events, _) = p.on_finalize(20);
    assert_eq!(
        events,
        vec![Event::FestivalHasEndedUnsuccessfully(first), Event::FestivalHasBegun(second)]
    );
    assert_eq!(p.get_festival(second).unwrap().status, FestivalStatus::Active);
}

#[test]
fn simple_reward_formula() {
    assert_eq!(Pallet::do_calculate_simple_reward(1000, 100, 400), Ok(250));
    assert_eq!(Pallet::do_calculate_simple_reward(1000, 300, 400), Ok(1000));
    assert_eq!(Pallet::do_calculate_simple_reward(7, 2, 5), Ok(3));
    assert_eq!(Pallet::do_calculate_simple_reward(1000, 0, 400), Err(Error::Overflow));
    assert_eq!(Pallet::do_calculate_simple_reward(1000, 500, 400), Err(Error::Overflow));
}

#[test]
fn claim_festival_rewards_pays_the_claimable_tokens() {
    let (amount, update, event) = Pallet::claim_festival_rewards(ALICE, 77);
    assert_eq!(amount, 77);
    assert_eq!(
        update,
        TokenUpdate { account: ALICE, token: TokenKind::Claimable, amount: 0, decrease: true }
    );
    assert_eq!(event, Event::FestivalTokensClaimed(ALICE, 0));
}

#[test]
fn wins_are_recorded_for_uploaders() {
    let mut p = Pallet::new(config());
    let id = created(&mut p);
    p.do_assign_festival_win(CAROL, id);
    let w = p.get_wallet_festival_data(CAROL).unwrap();
    assert_eq!(w.won_festivals, vec![id]);
    assert!(w.all_festivals.is_empty());
    p.do_assign_festival_win(OWNER, id);
    assert_eq!(p.get_wallet_festival_data(OWNER).unwrap().won_festivals, vec![id]);
    assert_eq!(p.get_wallet_festival_data(OWNER).unwrap().all_festivals, vec![id]);
}

#[test]
fn helpers_bind_blocks_and_owners() {
    let mut p = Pallet::new(config());
    assert_eq!(p.do_bind_duration_to_festival(4, 50, 50), Ok(()));
    let a = p.get_block_assignments(50).unwrap();
    assert_eq!(a.to_start, vec![4]);
    assert_eq!(a.to_end, vec![4]);
    assert_eq!(p.do_bind_owners_to_festival(ALICE, 4), Ok(()));
    assert_eq!(p.do_bind_owners_to_festival(ALICE, 5), Ok(()));
    let w = p.get_wallet_festival_data(ALICE).unwrap();
    assert_eq!(w.all_festivals, vec![4, 5]);
    assert_eq!(w.awaiting_activation_festivals, vec![4, 5]);
    assert_eq!(p.do_create_empty_block_assignments(4), Ok(()));
    let r = p.do_create_festival(ALICE, movie("n"), movie("d"), 9, vec![], vec![], vec![], FestivalStatus::Active);
    assert_eq!(r, Ok(0));
    assert_eq!(p.get_festival(0).unwrap().status, FestivalStatus::Active);
}

#[test]
fn activate_festival_check_agrees_with_activation() {
    let mut p = Pallet::new(config());
    let id = created(&mut p);
    assert_eq!(p.activate_festival_check(ALICE, id, 10, 20, 1), Some(Error::NoFestivalAdminAccess));
    assert_eq!(p.activate_festival_check(OWNER, id, 10, 20, 9), Some(Error::PastStartDate));
    assert_eq!(p.activate_festival_check(OWNER, id, 10, 20, 1), None);
    assert!(p.activate_festival(OWNER, id, 10, 20, 1).is_ok());
    assert_eq!(p.activate_festival_check(OWNER, id, 10, 20, 1), Some(Error::NotAwaitingActivation));
}

#[test]
fn statuses_move_forward_through_a_festival() {
    let mut p = Pallet::new(config());
    let id = created(&mut p);
    assert_eq!(p.get_festival(id).unwrap().status, FestivalStatus::AwaitingActivation);
    assert!(p.activate_festival(OWNER, id, 10, 20, 1).is_ok());
    assert_eq!(p.get_festival(id).unwrap().status, FestivalStatus::AwaitingStartBlock);
    p.on_finalize(10);
    assert_eq!(p.get_festival(id).unwrap().status, FestivalStatus::Active);
    assert!(p.vote_for_movie_in_festival(ALICE, id, movie("m1"), 10).is_ok());
    assert!(p.vote_for_movie_in_festival(BOB, id, movie("m1"), 20).is_ok());
    p.on_finalize(20);
    assert_eq!(p.get_festival(id).unwrap().status, FestivalStatus::Finished);
    // a second pass over the same blocks changes nothing
    let (events, actions) = p.on_finalize(10);
    assert!(events.is_empty() && actions.is_empty());
    let (events, actions) = p.on_finalize(20);
    assert!(events.is_empty() && actions.is_empty());
    assert_eq!(p.get_festival(id).unwrap().status, FestivalStatus::Finished);
}

#[test]
fn content_ids_are_little_endian() {
    let mut p = Pallet::new(config());
    for i in 0..258u64 {
        let r = p.create_festival(100 + i, movie("n"), movie("d"), 1, vec![], vec![], vec![], ok_tags());
        assert!(r.is_ok());
    }
    let r = p.create_festival(OWNER, movie("n"), movie("d"), 1, vec![], vec![], vec![], ok_tags());
    assert_eq!(r, Ok((vec![2, 1, 0, 0], Event::FestivalCreated(OWNER, 258))));
}

#[test]
fn room_checks_report_full_lists() {
    let mut tight = config();
    tight.max_festivals_per_block = 1;
    tight.max_owned_festivals = 1;
    tight.max_votes = 1;
    let mut p = Pallet::new(tight);
    assert!(p.owner_lists_have_room(OWNER));
    assert!(!p.creation_lists_full(OWNER, 500, true));
    let id = created(&mut p);
    assert!(!p.owner_lists_have_room(OWNER));
    assert!(p.creation_lists_full(OWNER, 500, true));
    assert!(!p.creation_lists_full(OWNER, 0, true));
    assert!(!p.creation_lists_full(OWNER, 500, false));
    assert!(p.block_lists_have_room(id, 10, 20));
    assert!(p.block_lists_have_room(id, 10, 10));
    assert!(!p.activation_lists_full(OWNER, id, 10, 20, 1));
    assert!(p.activate_festival(OWNER, id, 10, 20, 1).is_ok());
    assert!(!p.block_lists_have_room(id, 10, 30));
    assert!(!p.end_list_has_room(20));
    assert!(p.end_list_has_room(10));

    let mut r = Pallet::new(config());
    let a = created(&mut r);
    let b = created(&mut r);
    let c = created(&mut r);
    assert!(r.activate_festival_asap(OWNER, a, 20, 1).is_ok());
    assert!(r.activate_festival_asap(OWNER, b, 20, 1).is_ok());
    assert!(r.asap_activation_lists_full(OWNER, c, 20, 1));
    assert!(!r.asap_activation_lists_full(OWNER, c, 21, 1));
    assert!(!r.asap_activation_lists_full(ALICE, c, 20, 1));

    assert!(r.win_list_has_room(ALICE));
    let mut s = Pallet::new(tight);
    let f = created(&mut s);
    assert!(s.activate_festival_asap(OWNER, f, 20, 1).is_ok());
    assert!(!s.vote_list_full(ALICE, f, &movie("m1"), 5));
    assert!(s.vote_for_movie_in_festival(ALICE, f, movie("m1"), 5).is_ok());
    assert!(s.vote_list_full(BOB, f, &movie("m1"), 5));
    assert!(!s.vote_list_full(OWNER, f, &movie("m1"), 5));
    s.do_assign_festival_win(CAROL, f);
    assert!(!s.win_list_has_room(CAROL));
}

#[test]
fn a_win_goes_only_to_a_movie_that_still_exists() {
    let mut p = Pallet::new(config());
    let id = created(&mut p);
    assert!(!p.do_assign_win_if_movie_exists(CAROL, id, false, false));
    assert!(p.get_wallet_festival_data(CAROL).is_none());
    assert!(p.do_assign_win_if_movie_exists(CAROL, id, false, true));
    assert_eq!(p.get_wallet_festival_data(CAROL).unwrap().won_festivals, vec![id]);
    assert!(p.do_assign_win_if_movie_exists(CAROL, id, true, false));
    assert_eq!(p.get_wallet_festival_data(CAROL).unwrap().won_festivals, vec![id, id]);
}

#[test]
fn adding_the_same_movies_twice_changes_nothing() {
    let mut p = Pallet::new(config());
    let id = created(&mut p);
    let request = vec![movie("m3"), movie("m4"), movie("m3")];
    assert!(p.add_movies_to_fest(OWNER, id, request.clone(), vec![movie("e")]).is_ok());
    let once = p.get_festival(id).unwrap().clone();
    assert_eq!(once.internal_movies, vec![movie("m1"), movie("m2"), movie("m3")]);
    assert!(p.add_movies_to_fest(OWNER, id, request, vec![movie("e")]).is_ok());
    assert_eq!(p.get_festival(id).unwrap(), &once);
}

#[test]
fn a_vote_keeps_the_total_equal_to_the_sum_of_votes() {
    let mut p = Pallet::new(config());
    let id = created(&mut p);
    assert!(p.activate_festival_asap(OWNER, id, 30, 1).is_ok());
    assert!(p.vote_for_movie_in_festival(ALICE, id, movie("m1"), 10).is_ok());
    assert!(p.vote_for_movie_in_festival(BOB, id, movie("m2"), 25).is_ok());
    assert_eq!(p.vote_for_movie_in_festival(BOB, id, movie("m2"), 0), Err(Error::VoteValueCannotBeZero));
    let f = p.get_festival(id).unwrap();
    let sum: u128 = f.vote_list.iter().map(|v| v.amount).sum();
    assert_eq!(f.total_lockup, 35);
    assert_eq!(sum, 35);
}
