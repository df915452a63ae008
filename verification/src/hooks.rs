use vstd::prelude::*;

use crate::market::resolve_market;
use crate::model::{
    festival_ok, inv, move_stage, stage_list, vote_fits, with_stage_list, PalletView, Stage,
};
use crate::pallet::Pallet;
use crate::proofs::{lemma_move_stage_inv, lemma_move_stage_room};
use crate::seqs::{copy_ids, without};
use crate::types::{
    actions_view, events_view, Error, Event, EventView, FestivalStatus, HookAction, HookActionView,
};

verus! {

/// What a hook, or one step of it, leaves behind: the storage, the events announced,
/// the outside work due, and the refusal that stopped it, if any.
pub struct HookOutcome {
    pub state: PalletView,
    pub events: Seq<EventView>,
    pub actions: Seq<HookActionView>,
    pub error: Option<Error>,
}

pub open spec fn quiet(pv: PalletView, error: Option<Error>) -> HookOutcome {
    HookOutcome { state: pv, events: seq![], actions: seq![], error }
}

/// Starting festival `id`: one awaiting its start block becomes active and moves to its
/// owner's active list; any other is left alone. A missing festival, or a missing
/// owner's wallet data, stops the hook.
pub open spec fn activate_step(pv: PalletView, id: u32) -> HookOutcome {
    if !pv.festivals.dom().contains(id) {
        quiet(pv, Some(Error::NonexistentFestival))
    } else if pv.festivals[id].status != FestivalStatus::AwaitingStartBlock {
        quiet(pv, None)
    } else if !pv.wallets.dom().contains(pv.festivals[id].owner) {
        quiet(pv, Some(Error::NonexistentFestival))
    } else {
        HookOutcome {
            state: move_stage(pv, id, FestivalStatus::Active),
            events: seq![EventView::FestivalHasBegun(id)],
            actions: seq![],
            error: None,
        }
    }
}

/// Ending festival `id`: an active festival finishes, and moves to its owner's finished
/// list; with more than one vote its market is resolved, otherwise it finishes without
/// enough votes. Any other festival is left alone; a missing one stops the hook.
pub open spec fn deactivate_step(pv: PalletView, id: u32) -> HookOutcome {
    if !pv.festivals.dom().contains(id) {
        quiet(pv, Some(Error::NonexistentFestival))
    } else if pv.festivals[id].status != FestivalStatus::Active {
        quiet(pv, None)
    } else if pv.festivals[id].vote_list.len() > 1 {
        let resolved = resolve_market(id, pv.festivals[id]);
        HookOutcome {
            state: move_stage(pv, id, FestivalStatus::Finished),
            events: seq![EventView::FestivalHasEnded(id, resolved.0)],
            actions: resolved.1,
            error: None,
        }
    } else {
        HookOutcome {
            state: move_stage(pv, id, FestivalStatus::FinishedNotEnoughVotes),
            events: seq![EventView::FestivalHasEndedUnsuccessfully(id)],
            actions: seq![],
            error: None,
        }
    }
}

/// Runs the steps of a hook over `ids` in order, stopping at the first refusal.
pub open spec fn run_steps(pv: PalletView, ids: Seq<u32>, starting: bool) -> HookOutcome
    decreases ids.len(),
{
    if ids.len() == 0 {
        quiet(pv, None)
    } else {
        let p = run_steps(pv, ids.drop_last(), starting);
        if p.error is Some {
            p
        } else {
            let s = if starting {
                activate_step(p.state, ids.last())
            } else {
                deactivate_step(p.state, ids.last())
            };
            HookOutcome {
                state: s.state,
                events: p.events + s.events,
                actions: p.actions + s.actions,
                error: s.error,
            }
        }
    }
}

/// The hook that starts the festivals listed to start at block `now`.
pub open spec fn hook_activate(pv: PalletView, now: u64) -> HookOutcome {
    if !pv.block_assignments.dom().contains(now) {
        quiet(pv, Some(Error::NonexistentFestival))
    } else {
        run_steps(pv, pv.block_assignments[now].to_start, true)
    }
}

/// The hook that ends the festivals listed to end at block `now`.
pub open spec fn hook_deactivate(pv: PalletView, now: u64) -> HookOutcome {
    if !pv.block_assignments.dom().contains(now) {
        quiet(pv, Some(Error::NonexistentFestival))
    } else {
        run_steps(pv, pv.block_assignments[now].to_end, false)
    }
}

/// The end of block `now`: festivals end, then festivals start; refusals are dropped.
pub open spec fn finalize(pv: PalletView, now: u64) -> (PalletView, Seq<EventView>, Seq<
    HookActionView,
>) {
    let d = hook_deactivate(pv, now);
    let a = hook_activate(d.state, now);
    (a.state, d.events + a.events, d.actions + a.actions)
}

pub open spec fn opt_events(e: Option<Event>) -> Seq<EventView> {
    match e {
        Some(x) => seq![x@],
        None => seq![],
    }
}

pub open spec fn result_error(r: Result<(), Error>) -> Option<Error> {
    match r {
        Ok(()) => None,
        Err(e) => Some(e),
    }
}

/// Once a run has stopped, further ids change nothing.
pub proof fn lemma_run_steps_stopped(pv: PalletView, ids: Seq<u32>, k: int, starting: bool)
    requires
        0 <= k <= ids.len(),
        run_steps(pv, ids.take(k), starting).error is Some,
    ensures
        run_steps(pv, ids, starting) == run_steps(pv, ids.take(k), starting),
    decreases ids.len() - k,
{
    if k == ids.len() {
        assert(ids.take(k) =~= ids);
    } else {
        assert(ids.drop_last().take(k) =~= ids.take(k));
        lemma_run_steps_stopped(pv, ids.drop_last(), k, starting);
    }
}

pub proof fn lemma_run_steps_step(pv: PalletView, ids: Seq<u32>, i: int, starting: bool)
    requires
        0 <= i < ids.len(),
    ensures
        run_steps(pv, ids.take(i + 1), starting) == ({
            let p = run_steps(pv, ids.take(i), starting);
            if p.error is Some {
                p
            } else {
                let s = if starting {
                    activate_step(p.state, ids[i])
                } else {
                    deactivate_step(p.state, ids[i])
                };
                HookOutcome {
                    state: s.state,
                    events: p.events + s.events,
                    actions: p.actions + s.actions,
                    error: s.error,
                }
            }
        }),
{
    assert(ids.take(i + 1).drop_last() =~= ids.take(i));
    assert(ids.take(i + 1).last() == ids[i]);
}

/// Starting festivals asks for no outside work.
pub proof fn lemma_activation_no_actions(pv: PalletView, now: u64)
    ensures
        hook_activate(pv, now).actions == Seq::<HookActionView>::empty(),
{
    if pv.block_assignments.dom().contains(now) {
        lemma_run_activation_no_actions(pv, pv.block_assignments[now].to_start);
    }
}

pub proof fn lemma_run_activation_no_actions(pv: PalletView, ids: Seq<u32>)
    ensures
        run_steps(pv, ids, true).actions == Seq::<HookActionView>::empty(),
    decreases ids.len(),
{
    if ids.len() > 0 {
        lemma_run_activation_no_actions(pv, ids.drop_last());
        let p = run_steps(pv, ids.drop_last(), true);
        if p.error is None {
            assert(p.actions + activate_step(p.state, ids.last()).actions =~= Seq::<
                HookActionView,
            >::empty());
        }
    }
}

impl Pallet {
    /// One step of the start hook, for festival `festival_id`.
    fn activate_one(&mut self, festival_id: u32) -> (r: (Option<Event>, Result<(), Error>))
        requires
            inv(old(self)@),
        ensures
            inv(final(self)@),
            final(self)@ == activate_step(old(self)@, festival_id).state,
            opt_events(r.0) == activate_step(old(self)@, festival_id).events,
            result_error(r.1) == activate_step(old(self)@, festival_id).error,
    {
        let owner = match self.get_festival(festival_id) {
            None => {
                return (None, Err(Error::NonexistentFestival));
            },
            Some(f) => {
                if f.status != FestivalStatus::AwaitingStartBlock {
                    return (None, Ok(()));
                }
                f.owner
            },
        };
        if self.get_wallet_festival_data(owner).is_none() {
            return (None, Err(Error::NonexistentFestival));
        }
        proof {
            lemma_move_stage_inv(self@, festival_id, FestivalStatus::Active);
        }
        self.move_festival_stage(
            festival_id,
            FestivalStatus::Active,
            Stage::AwaitingStart,
            Stage::Active,
        );
        (Some(Event::FestivalHasBegun(festival_id)), Ok(()))
    }

    /// One step of the end hook, for festival `festival_id`.
    fn deactivate_one(&mut self, festival_id: u32) -> (r: (Option<Event>, Vec<HookAction>, Result<
        (),
        Error,
    >))
        requires
            inv(old(self)@),
        ensures
            inv(final(self)@),
            final(self)@ == deactivate_step(old(self)@, festival_id).state,
            opt_events(r.0) == deactivate_step(old(self)@, festival_id).events,
            actions_view(r.1@) == deactivate_step(old(self)@, festival_id).actions,
            result_error(r.2) == deactivate_step(old(self)@, festival_id).error,
    {
        let ghost pv = self@;
        let (status, votes, owner) = match self.get_festival(festival_id) {
            None => {
                assert(actions_view(Seq::<HookAction>::empty()) =~= Seq::<HookActionView>::empty());
                return (None, Vec::new(), Err(Error::NonexistentFestival));
            },
            Some(f) => (f.status, f.vote_list.len(), f.owner),
        };
        if status != FestivalStatus::Active {
            assert(actions_view(Seq::<HookAction>::empty()) =~= Seq::<HookActionView>::empty());
            return (None, Vec::new(), Ok(()));
        }
        let new_status = if votes > 1 {
            FestivalStatus::Finished
        } else {
            FestivalStatus::FinishedNotEnoughVotes
        };
        proof {
            lemma_move_stage_room(pv, festival_id, new_status);
            lemma_move_stage_inv(pv, festival_id, new_status);
            assert(stage_list(pv.wallets[owner], Stage::Finished) == pv.wallets[owner].finished_festivals);
        }
        let _moved = self.do_active_to_finished_fest_ownership(owner, festival_id);
        let ghost f0 = pv.festivals[festival_id];
        assert(self@.festivals == pv.festivals);
        let (event, actions) = if votes > 1 {
            assert(festival_ok(pv.config, f0));
            assert forall|i: int| 0 <= i < f0.vote_list.len() implies #[trigger] f0.vote_list[i].amount
                > 0 by {
                assert(vote_fits(f0, f0.vote_list[i]));
            }
            let (winner_list, actions) = self.do_resolve_market(festival_id);
            (Event::FestivalHasEnded(festival_id, winner_list), actions)
        } else {
            assert(actions_view(Seq::<HookAction>::empty()) =~= Seq::<HookActionView>::empty());
            (Event::FestivalHasEndedUnsuccessfully(festival_id), Vec::new())
        };
        let ghost mid = self@;
        if let Some(f) = self.take_festival(festival_id) {
            let mut f = f;
            f.status = new_status;
            self.put_festival(festival_id, f);
        }
        proof {
            let w = pv.wallets[owner];
            let w1 = with_stage_list(w, Stage::Active, without(stage_list(w, Stage::Active), festival_id));
            let w2 = with_stage_list(
                w1,
                Stage::Finished,
                stage_list(w1, Stage::Finished).push(festival_id),
            );
            assert(mid.wallets[owner] == w2);
            assert(self@.festivals =~= move_stage(pv, festival_id, new_status).festivals);
            assert(self@.wallets =~= move_stage(pv, festival_id, new_status).wallets);
        }
        (Some(event), actions, Ok(()))
    }

    /// The start hook of block `now`: each festival listed to start at `now` and
    /// awaiting its start block becomes active. Hands back the events and the refusal
    /// that stopped the hook, if any.
    pub fn hook_activate_festival(&mut self, now: u64) -> (r: (Vec<Event>, Result<(), Error>))
        requires
            inv(old(self)@),
        ensures
            inv(final(self)@),
            final(self)@ == hook_activate(old(self)@, now).state,
            events_view(r.0@) == hook_activate(old(self)@, now).events,
            result_error(r.1) == hook_activate(old(self)@, now).error,
    {
        let ghost pv = self@;
        let ids = match self.get_block_assignments(now) {
            None => {
                assert(events_view(Seq::<Event>::empty()) =~= Seq::<EventView>::empty());
                return (Vec::new(), Err(Error::NonexistentFestival));
            },
            Some(a) => copy_ids(&a.to_start),
        };
        let mut events: Vec<Event> = Vec::new();
        let mut i: usize = 0;
        assert(ids@.take(0) =~= Seq::<u32>::empty());
        assert(events_view(events@) =~= Seq::<EventView>::empty());
        while i < ids.len()
            invariant
                i <= ids@.len(),
                pv == old(self)@,
                ids@ == pv.block_assignments[now].to_start,
                pv.block_assignments.dom().contains(now),
                inv(self@),
                self@ == run_steps(pv, ids@.take(i as int), true).state,
                run_steps(pv, ids@.take(i as int), true).error is None,
                events_view(events@) == run_steps(pv, ids@.take(i as int), true).events,
            decreases ids@.len() - i,
        {
            proof {
                lemma_run_steps_step(pv, ids@, i as int, true);
            }
            let ghost before = events_view(events@);
            let (event, result) = self.activate_one(ids[i]);
            if let Some(e) = event {
                events.push(e);
            }
            assert(events_view(events@) =~= before + opt_events(event));
            i = i + 1;
            if let Err(e) = result {
                proof {
                    lemma_run_steps_stopped(pv, ids@, i as int, true);
                }
                return (events, Err(e));
            }
        }
        assert(ids@.take(ids@.len() as int) =~= ids@);
        (events, Ok(()))
    }

    /// The end hook of block `now`: each active festival listed to end at `now`
    /// finishes, and those with more than one vote have their market resolved. Hands
    /// back the events, the outside work due, and the refusal that stopped the hook, if
    /// any.
    pub fn hook_deactivate_festival(&mut self, now: u64) -> (r: (
        Vec<Event>,
        Vec<HookAction>,
        Result<(), Error>,
    ))
        requires
            inv(old(self)@),
        ensures
            inv(final(self)@),
            final(self)@ == hook_deactivate(old(self)@, now).state,
            events_view(r.0@) == hook_deactivate(old(self)@, now).events,
            actions_view(r.1@) == hook_deactivate(old(self)@, now).actions,
            result_error(r.2) == hook_deactivate(old(self)@, now).error,
    {
        let ghost pv = self@;
        let ids = match self.get_block_assignments(now) {
            None => {
                assert(events_view(Seq::<Event>::empty()) =~= Seq::<EventView>::empty());
                assert(actions_view(Seq::<HookAction>::empty()) =~= Seq::<HookActionView>::empty());
                return (Vec::new(), Vec::new(), Err(Error::NonexistentFestival));
            },
            Some(a) => copy_ids(&a.to_end),
        };
        let mut events: Vec<Event> = Vec::new();
        let mut actions: Vec<HookAction> = Vec::new();
        let mut i: usize = 0;
        assert(ids@.take(0) =~= Seq::<u32>::empty());
        assert(events_view(events@) =~= Seq::<EventView>::empty());
        assert(actions_view(actions@) =~= Seq::<HookActionView>::empty());
        while i < ids.len()
            invariant
                i <= ids@.len(),
                pv == old(self)@,
                ids@ == pv.block_assignments[now].to_end,
                pv.block_assignments.dom().contains(now),
                inv(self@),
                self@ == run_steps(pv, ids@.take(i as int), false).state,
                run_steps(pv, ids@.take(i as int), false).error is None,
                events_view(events@) == run_steps(pv, ids@.take(i as int), false).events,
                actions_view(actions@) == run_steps(pv, ids@.take(i as int), false).actions,
            decreases ids@.len() - i,
        {
            proof {
                lemma_run_steps_step(pv, ids@, i as int, false);
            }
            let ghost before = events_view(events@);
            let ghost before_actions = actions_view(actions@);
            let (event, step_actions, result) = self.deactivate_one(ids[i]);
            if let Some(e) = event {
                events.push(e);
            }
            assert(events_view(events@) =~= before + opt_events(event));
            let mut step_actions = step_actions;
            let ghost sa = actions_view(step_actions@);
            actions.append(&mut step_actions);
            assert(actions_view(actions@) =~= before_actions + sa);
            i = i + 1;
            if let Err(e) = result {
                proof {
                    lemma_run_steps_stopped(pv, ids@, i as int, false);
                }
                return (events, actions, Err(e));
            }
        }
        assert(ids@.take(ids@.len() as int) =~= ids@);
        (events, actions, Ok(()))
    }

    /// The end of block `now`: the festivals listed to end at `now` end, then those
    /// listed to start at `now` start; the hooks' refusals are dropped. Hands back the
    /// events and the outside work due.
    pub fn on_finalize(&mut self, now: u64) -> (r: (Vec<Event>, Vec<HookAction>))
        requires
            inv(old(self)@),
        ensures
            inv(final(self)@),
            (final(self)@, events_view(r.0@), actions_view(r.1@)) == finalize(old(self)@, now),
    {
        let ghost pv = self@;
        let (events, actions, _ended) = self.hook_deactivate_festival(now);
        let ghost d = hook_deactivate(pv, now);
        let (started, _begun) = self.hook_activate_festival(now);
        let ghost a = hook_activate(d.state, now);
        let mut events = events;
        let mut started = started;
        let ghost e1 = events_view(events@);
        let ghost e2 = events_view(started@);
        events.append(&mut started);
        assert(events_view(events@) =~= e1 + e2);
        assert(events_view(events@) == d.events + a.events);
        assert(actions_view(actions@) == d.actions + a.actions) by {
            assert(a.actions =~= Seq::<HookActionView>::empty()) by {
                lemma_activation_no_actions(d.state, now);
            }
            assert(d.actions + a.actions =~= d.actions);
        }
        (events, actions)
    }
}

} // verus!
