use vstd::prelude::*;

verus! {

/// Identifies a festival; festivals are numbered from zero in creation order.
pub type FestivalId = u32;

/// Identifies an account.
pub type AccountId = u64;

/// A block height.
pub type BlockNumber = u64;

/// An amount of tokens.
pub type Balance = u128;

/// The bytes that identify a movie.
pub type MovieId = Vec<u8>;

/// The lifecycle of a festival.
///
/// `AwaitingActivation`: created, private, must be activated by its owner.
/// `AwaitingStartBlock`: activated, waiting for its start block.
/// `Active`: open for votes.
/// `Finished`: ended with enough votes to pick a winner.
/// `FinishedNotEnoughVotes`: ended without enough votes to pick a winner.
#[derive(Clone, Copy, PartialEq, Eq, Structural, Debug)]
pub enum FestivalStatus {
    AwaitingActivation,
    AwaitingStartBlock,
    Active,
    Finished,
    FinishedNotEnoughVotes,
}

/// A stake placed on a movie of a festival.
#[derive(Clone, Debug, PartialEq, Eq)]
pub struct Vote {
    pub voter: AccountId,
    pub vote_for: MovieId,
    pub amount: Balance,
}

/// A festival and everything it holds.
#[derive(Clone, Debug, PartialEq, Eq)]
pub struct Festival {
    pub id: FestivalId,
    pub owner: AccountId,
    pub name: Vec<u8>,
    pub description: Vec<u8>,
    pub status: FestivalStatus,
    pub max_entry: Balance,
    pub total_lockup: Balance,
    pub vote_list: Vec<Vote>,
    pub categories_and_tags: Vec<(Vec<u8>, Vec<u8>)>,
    pub internal_movies: Vec<MovieId>,
    pub external_movies: Vec<MovieId>,
}

/// The festivals that start and the festivals that end at one block.
#[derive(Clone, Debug, PartialEq, Eq)]
pub struct BlockAssignment {
    pub to_start: Vec<FestivalId>,
    pub to_end: Vec<FestivalId>,
}

/// The festivals that an account owns, by stage, and the festivals it has won.
#[derive(Clone, Debug, PartialEq, Eq)]
pub struct WalletData {
    pub all_festivals: Vec<FestivalId>,
    pub awaiting_activation_festivals: Vec<FestivalId>,
    pub awaiting_start_festivals: Vec<FestivalId>,
    pub active_festivals: Vec<FestivalId>,
    pub finished_festivals: Vec<FestivalId>,
    pub won_festivals: Vec<FestivalId>,
}

/// What the pallet announces.
#[derive(Clone, Debug, PartialEq, Eq)]
pub enum Event {
    FestivalCreated(AccountId, FestivalId),
    MovieAddedToFestival(FestivalId, MovieId, AccountId),
    MoviesAddedToFestival(FestivalId, AccountId),
    VotedForMovieInFestival(FestivalId, MovieId, AccountId),
    FestivalHasBegun(FestivalId),
    FestivalHasEnded(FestivalId, Vec<AccountId>),
    FestivalHasEndedUnsuccessfully(FestivalId),
    FestivalActivated(FestivalId, AccountId),
    FestivalTokensClaimed(AccountId, Balance),
}

/// Why a call is refused.
#[derive(Clone, Copy, PartialEq, Eq, Structural, Debug)]
pub enum Error {
    Overflow,
    Underflow,
    BadMetadata,
    InsufficientBalance,
    WalletStatsRegistryRequired,
    NotEnoughBalance,
    PastStartDate,
    FestivalPeriodTooShort,
    NoFestivalAdminAccess,
    NotEnoughMoviesInFestival,
    NotAwaitingActivation,
    MovieAlreadyInFestival,
    MovieNotInFestival,
    InvalidFestival,
    NonexistentFestival,
    NonexistentMovie,
    FestivalNotActive,
    FestivalNotAcceptingNewMovies,
    CannotVoteInOwnFestival,
    VoteMaxAmountCannotBeZero,
    VoteValueTooHigh,
    VoteValueCannotBeZero,
    InvalidBlockPeriod,
}

/// A refusal: either the pallet's own, or one handed back by another pallet.
#[derive(Debug, PartialEq, Eq)]
pub enum CallError<E> {
    Pallet(Error),
    Outside(E),
}

/// The constants the pallet is configured with.
#[derive(Clone, Copy, PartialEq, Eq, Structural, Debug)]
pub struct Config {
    pub max_movies_in_fest: u32,
    pub max_owned_festivals: u32,
    pub min_fes_block_duration: u32,
    pub max_festivals_per_block: u32,
    pub max_votes: u32,
    pub fest_block_safety_margin: u32,
    /// The longest content id that the tag registry accepts.
    pub content_string_limit: u32,
    /// The longest category name that the tag registry accepts.
    pub category_string_limit: u32,
}

/// The two token balances of an account that festivals move.
#[derive(Clone, Copy, PartialEq, Eq, Structural, Debug)]
pub enum TokenKind {
    Locked,
    Claimable,
}

/// A change of an account's festival tokens that the stat tracker is asked to make:
/// `amount` is taken off when `decrease` holds, added otherwise.
#[derive(Clone, Copy, PartialEq, Eq, Structural, Debug)]
pub struct TokenUpdate {
    pub account: AccountId,
    pub token: TokenKind,
    pub amount: Balance,
    pub decrease: bool,
}

/// Outside work that ending a festival asks for, in the order it is due.
#[derive(Clone, Debug, PartialEq, Eq)]
pub enum HookAction {
    /// Ask the movie registry whether `movie_id` still exists and who uploaded it, and
    /// record `festival_id` as won by the uploader where the movie still exists.
    AwardWin { festival_id: FestivalId, movie_id: MovieId },
    /// Apply a token update.
    UpdateTokens(TokenUpdate),
}

//  Views
pub struct VoteView {
    pub voter: AccountId,
    pub vote_for: Seq<u8>,
    pub amount: Balance,
}

pub struct FestivalView {
    pub id: FestivalId,
    pub owner: AccountId,
    pub name: Seq<u8>,
    pub description: Seq<u8>,
    pub status: FestivalStatus,
    pub max_entry: Balance,
    pub total_lockup: Balance,
    pub vote_list: Seq<VoteView>,
    pub categories_and_tags: Seq<(Seq<u8>, Seq<u8>)>,
    pub internal_movies: Seq<Seq<u8>>,
    pub external_movies: Seq<Seq<u8>>,
}

pub struct BlockAssignmentView {
    pub to_start: Seq<FestivalId>,
    pub to_end: Seq<FestivalId>,
}

pub struct WalletDataView {
    pub all_festivals: Seq<FestivalId>,
    pub awaiting_activation_festivals: Seq<FestivalId>,
    pub awaiting_start_festivals: Seq<FestivalId>,
    pub active_festivals: Seq<FestivalId>,
    pub finished_festivals: Seq<FestivalId>,
    pub won_festivals: Seq<FestivalId>,
}

pub enum EventView {
    FestivalCreated(AccountId, FestivalId),
    MovieAddedToFestival(FestivalId, Seq<u8>, AccountId),
    MoviesAddedToFestival(FestivalId, AccountId),
    VotedForMovieInFestival(FestivalId, Seq<u8>, AccountId),
    FestivalHasBegun(FestivalId),
    FestivalHasEnded(FestivalId, Seq<AccountId>),
    FestivalHasEndedUnsuccessfully(FestivalId),
    FestivalActivated(FestivalId, AccountId),
    FestivalTokensClaimed(AccountId, Balance),
}

pub enum HookActionView {
    AwardWin { festival_id: FestivalId, movie_id: Seq<u8> },
    UpdateTokens(TokenUpdate),
}

/// The byte strings of a list of byte vectors.
pub open spec fn bytes_list(v: Seq<Vec<u8>>) -> Seq<Seq<u8>> {
    v.map_values(|b: Vec<u8>| b@)
}

pub open spec fn tag_list(v: Seq<(Vec<u8>, Vec<u8>)>) -> Seq<(Seq<u8>, Seq<u8>)> {
    v.map_values(|p: (Vec<u8>, Vec<u8>)| (p.0@, p.1@))
}

impl View for Vote {
    type V = VoteView;

    open spec fn view(&self) -> VoteView {
        VoteView { voter: self.voter, vote_for: self.vote_for@, amount: self.amount }
    }
}

pub open spec fn votes_view(v: Seq<Vote>) -> Seq<VoteView> {
    v.map_values(|x: Vote| x@)
}

impl View for Festival {
    type V = FestivalView;

    open spec fn view(&self) -> FestivalView {
        FestivalView {
            id: self.id,
            owner: self.owner,
            name: self.name@,
            description: self.description@,
            status: self.status,
            max_entry: self.max_entry,
            total_lockup: self.total_lockup,
            vote_list: votes_view(self.vote_list@),
            categories_and_tags: tag_list(self.categories_and_tags@),
            internal_movies: bytes_list(self.internal_movies@),
            external_movies: bytes_list(self.external_movies@),
        }
    }
}

impl View for BlockAssignment {
    type V = BlockAssignmentView;

    open spec fn view(&self) -> BlockAssignmentView {
        BlockAssignmentView { to_start: self.to_start@, to_end: self.to_end@ }
    }
}

impl View for WalletData {
    type V = WalletDataView;

    open spec fn view(&self) -> WalletDataView {
        WalletDataView {
            all_festivals: self.all_festivals@,
            awaiting_activation_festivals: self.awaiting_activation_festivals@,
            awaiting_start_festivals: self.awaiting_start_festivals@,
            active_festivals: self.active_festivals@,
            finished_festivals: self.finished_festivals@,
            won_festivals: self.won_festivals@,
        }
    }
}

impl View for Event {
    type V = EventView;

    open spec fn view(&self) -> EventView {
        match self {
            Event::FestivalCreated(a, f) => EventView::FestivalCreated(*a, *f),
            Event::MovieAddedToFestival(f, m, a) => EventView::MovieAddedToFestival(*f, m@, *a),
            Event::MoviesAddedToFestival(f, a) => EventView::MoviesAddedToFestival(*f, *a),
            Event::VotedForMovieInFestival(f, m, a) => EventView::VotedForMovieInFestival(
                *f,
                m@,
                *a,
            ),
            Event::FestivalHasBegun(f) => EventView::FestivalHasBegun(*f),
            Event::FestivalHasEnded(f, w) => EventView::FestivalHasEnded(*f, w@),
            Event::FestivalHasEndedUnsuccessfully(f) => EventView::FestivalHasEndedUnsuccessfully(
                *f,
            ),
            Event::FestivalActivated(f, a) => EventView::FestivalActivated(*f, *a),
            Event::FestivalTokensClaimed(a, b) => EventView::FestivalTokensClaimed(*a, *b),
        }
    }
}

pub open spec fn events_view(v: Seq<Event>) -> Seq<EventView> {
    v.map_values(|e: Event| e@)
}

impl View for HookAction {
    type V = HookActionView;

    open spec fn view(&self) -> HookActionView {
        match self {
            HookAction::AwardWin { festival_id, movie_id } => HookActionView::AwardWin {
                festival_id: *festival_id,
                movie_id: movie_id@,
            },
            HookAction::UpdateTokens(u) => HookActionView::UpdateTokens(*u),
        }
    }
}

pub open spec fn actions_view(v: Seq<HookAction>) -> Seq<HookActionView> {
    v.map_values(|a: HookAction| a@)
}

} // verus!
