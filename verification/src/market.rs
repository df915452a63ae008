use vstd::prelude::*;

use crate::model::sum_amounts;
use crate::pallet::Pallet;
use crate::seqs::{bytes_eq, copy_bytes, list_contains};
use crate::types::{
    actions_view, bytes_list, votes_view, Error, FestivalView, HookAction, HookActionView,
    TokenKind, TokenUpdate, Vote, VoteView,
};

verus! {

broadcast use vstd::seq_lib::group_seq_properties;

//  Ordering movie ids
/// `a` comes before `b` in lexicographic byte order, the order of `Vec<u8>`.
pub open spec fn lex_lt(a: Seq<u8>, b: Seq<u8>) -> bool
    decreases a.len(),
{
    if a.len() == 0 {
        b.len() > 0
    } else if b.len() == 0 {
        false
    } else if a[0] < b[0] {
        true
    } else if a[0] > b[0] {
        false
    } else {
        lex_lt(a.drop_first(), b.drop_first())
    }
}

pub proof fn lemma_lex_irreflexive(a: Seq<u8>)
    ensures
        !lex_lt(a, a),
    decreases a.len(),
{
    if a.len() > 0 {
        lemma_lex_irreflexive(a.drop_first());
    }
}

pub proof fn lemma_lex_asymmetric(a: Seq<u8>, b: Seq<u8>)
    requires
        lex_lt(a, b),
    ensures
        !lex_lt(b, a),
    decreases a.len(),
{
    if a.len() > 0 && b.len() > 0 && a[0] == b[0] {
        lemma_lex_asymmetric(a.drop_first(), b.drop_first());
    }
}

pub proof fn lemma_lex_total(a: Seq<u8>, b: Seq<u8>)
    requires
        a != b,
    ensures
        lex_lt(a, b) || lex_lt(b, a),
    decreases a.len(),
{
    if a.len() > 0 && b.len() > 0 && a[0] == b[0] {
        if a.drop_first() == b.drop_first() {
            assert(a =~= seq![a[0]] + a.drop_first());
            assert(b =~= seq![b[0]] + b.drop_first());
        }
        lemma_lex_total(a.drop_first(), b.drop_first());
    } else if a.len() == 0 && b.len() == 0 {
        assert(a =~= b);
    }
}

/// Whether `a` comes before `b` in lexicographic byte order.
pub fn bytes_lt(a: &Vec<u8>, b: &Vec<u8>) -> (r: bool)
    ensures
        r == lex_lt(a@, b@),
{
    let mut i: usize = 0;
    assert(a@.skip(0) =~= a@);
    assert(b@.skip(0) =~= b@);
    loop
        invariant
            i <= a@.len(),
            i <= b@.len(),
            lex_lt(a@, b@) == lex_lt(a@.skip(i as int), b@.skip(i as int)),
        decreases a@.len() - i,
    {
        assert(a@.skip(i as int).len() == a@.len() - i);
        if i == a.len() {
            return i < b.len();
        }
        if i == b.len() {
            return false;
        }
        assert(a@.skip(i as int)[0] == a@[i as int]);
        assert(b@.skip(i as int)[0] == b@[i as int]);
        if a[i] < b[i] {
            return true;
        }
        if a[i] > b[i] {
            return false;
        }
        assert(a@.skip(i as int).drop_first() =~= a@.skip(i + 1));
        assert(b@.skip(i as int).drop_first() =~= b@.skip(i + 1));
        i = i + 1;
    }
}

//  The tally of stakes per movie
/// Adds a stake of `a` on movie `m` to a tally: the entry of `m` grows, or a new entry
/// goes in before the first key that `m` comes before.
pub open spec fn tally_add(t: Seq<(Seq<u8>, nat)>, m: Seq<u8>, a: nat) -> Seq<(Seq<u8>, nat)>
    decreases t.len(),
{
    if t.len() == 0 {
        seq![(m, a)]
    } else if t[0].0 == m {
        seq![(m, t[0].1 + a)] + t.drop_first()
    } else if lex_lt(m, t[0].0) {
        seq![(m, a)] + t
    } else {
        seq![t[0]] + tally_add(t.drop_first(), m, a)
    }
}

/// The total staked on each movie that `votes` name, ordered by movie id as a
/// `BTreeMap` orders its keys.
pub open spec fn tally(votes: Seq<VoteView>) -> Seq<(Seq<u8>, nat)>
    decreases votes.len(),
{
    if votes.len() == 0 {
        seq![]
    } else {
        tally_add(tally(votes.drop_last()), votes.last().vote_for, votes.last().amount as nat)
    }
}

pub open spec fn sum_vals(t: Seq<(Seq<u8>, nat)>) -> nat
    decreases t.len(),
{
    if t.len() == 0 {
        0
    } else {
        t[0].1 + sum_vals(t.drop_first())
    }
}

/// The highest total of a tally.
pub open spec fn max_total(t: Seq<(Seq<u8>, nat)>) -> nat
    decreases t.len(),
{
    if t.len() == 0 {
        0
    } else if t.last().1 >= max_total(t.drop_last()) {
        t.last().1
    } else {
        max_total(t.drop_last())
    }
}

/// The key of the last entry whose total is `mx`.
pub open spec fn last_max_key(t: Seq<(Seq<u8>, nat)>, mx: nat) -> Seq<u8>
    decreases t.len(),
{
    if t.len() == 0 {
        seq![]
    } else if t.last().1 == mx {
        t.last().0
    } else {
        last_max_key(t.drop_last(), mx)
    }
}

/// The keys, in order, of the entries other than `first` whose total is `mx`.
pub open spec fn ties(t: Seq<(Seq<u8>, nat)>, mx: nat, first: Seq<u8>) -> Seq<Seq<u8>>
    decreases t.len(),
{
    if t.len() == 0 {
        seq![]
    } else if t.last().1 == mx && t.last().0 != first {
        ties(t.drop_last(), mx, first).push(t.last().0)
    } else {
        ties(t.drop_last(), mx, first)
    }
}

/// The movies with the highest total stake: the last of them in movie-id order first,
/// then the others in movie-id order.
pub open spec fn winning_movies(votes: Seq<VoteView>) -> Seq<Seq<u8>> {
    let t = tally(votes);
    let mx = max_total(t);
    let first = last_max_key(t, mx);
    seq![first] + ties(t, mx, first)
}

/// The stake placed on the movies of `winners`.
pub open spec fn winners_lockup(votes: Seq<VoteView>, winners: Seq<Seq<u8>>) -> int
    decreases votes.len(),
{
    if votes.len() == 0 {
        0
    } else {
        winners_lockup(votes.drop_last(), winners) + if winners.contains(votes.last().vote_for) {
            votes.last().amount as int
        } else {
            0
        }
    }
}

/// A winner's reward: the total stake divided by the winners' stake per unit of the
/// winner's own stake, both divisions rounding down; none where a divisor is zero.
pub open spec fn simple_reward(total: u128, user: u128, winner: u128) -> Option<u128> {
    if user == 0 {
        None
    } else if winner / user == 0 {
        None
    } else {
        Some(total / (winner / user))
    }
}

pub open spec fn unlock_action(v: VoteView) -> HookActionView {
    HookActionView::UpdateTokens(
        TokenUpdate { account: v.voter, token: TokenKind::Locked, amount: v.amount, decrease: true },
    )
}

pub open spec fn reward_action(v: VoteView, reward: u128) -> HookActionView {
    HookActionView::UpdateTokens(
        TokenUpdate { account: v.voter, token: TokenKind::Claimable, amount: reward, decrease: false },
    )
}

/// Settles `votes` in order: a vote for a winning movie earns its voter a reward and a
/// place in the list of winners; every vote's stake is unlocked.
pub open spec fn settle(votes: Seq<VoteView>, winners: Seq<Seq<u8>>, total: u128, wl: u128) -> (
    Seq<u64>,
    Seq<HookActionView>,
)
    decreases votes.len(),
{
    if votes.len() == 0 {
        (seq![], seq![])
    } else {
        let prev = settle(votes.drop_last(), winners, total, wl);
        let v = votes.last();
        if winners.contains(v.vote_for) {
            let reward = simple_reward(total, v.amount, wl)->0;
            (prev.0.push(v.voter), prev.1.push(reward_action(v, reward)).push(unlock_action(v)))
        } else {
            (prev.0, prev.1.push(unlock_action(v)))
        }
    }
}

/// Resolving the market of festival `id`: the voters who backed a winning movie, and
/// the outside work due, namely the awards of the winning movies, then the settlement
/// of each vote.
pub open spec fn resolve_market(id: u32, f: FestivalView) -> (Seq<u64>, Seq<HookActionView>) {
    let winners = winning_movies(f.vote_list);
    let wl = winners_lockup(f.vote_list, winners) as u128;
    let awards = winners.map_values(
        |m: Seq<u8>| HookActionView::AwardWin { festival_id: id, movie_id: m },
    );
    let s = settle(f.vote_list, winners, f.total_lockup, wl);
    (s.0, awards + s.1)
}

//  Lemmas
pub proof fn lemma_tally_add_prefix(t: Seq<(Seq<u8>, nat)>, m: Seq<u8>, a: nat, i: int)
    requires
        0 <= i <= t.len(),
        forall|j: int| 0 <= j < i ==> lex_lt(#[trigger] t[j].0, m),
    ensures
        tally_add(t, m, a) == t.take(i) + tally_add(t.skip(i), m, a),
    decreases i,
{
    if i == 0 {
        assert(t.skip(0) =~= t);
        assert(t.take(0) + tally_add(t, m, a) =~= tally_add(t, m, a));
    } else {
        assert(lex_lt(t[0].0, m));
        lemma_lex_irreflexive(m);
        lemma_lex_asymmetric(t[0].0, m);
        let d = t.drop_first();
        assert forall|j: int| 0 <= j < i - 1 implies lex_lt(#[trigger] d[j].0, m) by {
            assert(d[j] == t[j + 1]);
        }
        lemma_tally_add_prefix(d, m, a, i - 1);
        assert(d.skip(i - 1) =~= t.skip(i));
        assert(seq![t[0]] + d.take(i - 1) =~= t.take(i));
    }
}

pub proof fn lemma_tally_add_sum(t: Seq<(Seq<u8>, nat)>, m: Seq<u8>, a: nat)
    ensures
        sum_vals(tally_add(t, m, a)) == sum_vals(t) + a,
    decreases t.len(),
{
    if t.len() == 0 {
        assert(sum_vals(seq![(m, a)]) == a + sum_vals(seq![(m, a)].drop_first()));
        assert(seq![(m, a)].drop_first() =~= Seq::<(Seq<u8>, nat)>::empty());
    } else if t[0].0 == m {
        let r = seq![(m, t[0].1 + a)] + t.drop_first();
        assert(r.drop_first() =~= t.drop_first());
    } else if lex_lt(m, t[0].0) {
        let r = seq![(m, a)] + t;
        assert(r.drop_first() =~= t);
    } else {
        lemma_tally_add_sum(t.drop_first(), m, a);
        let r = seq![t[0]] + tally_add(t.drop_first(), m, a);
        assert(r.drop_first() =~= tally_add(t.drop_first(), m, a));
    }
}

pub proof fn lemma_val_le_sum(t: Seq<(Seq<u8>, nat)>, j: int)
    requires
        0 <= j < t.len(),
    ensures
        t[j].1 <= sum_vals(t),
    decreases t.len(),
{
    if j > 0 {
        lemma_val_le_sum(t.drop_first(), j - 1);
    }
}

pub proof fn lemma_tally_sum(votes: Seq<VoteView>)
    ensures
        sum_vals(tally(votes)) == sum_amounts(votes),
    decreases votes.len(),
{
    if votes.len() > 0 {
        lemma_tally_sum(votes.drop_last());
        lemma_tally_add_sum(
            tally(votes.drop_last()),
            votes.last().vote_for,
            votes.last().amount as nat,
        );
    }
}

pub proof fn lemma_sum_amounts_prefix(votes: Seq<VoteView>, i: int)
    requires
        0 <= i <= votes.len(),
    ensures
        0 <= sum_amounts(votes.take(i)) <= sum_amounts(votes),
    decreases votes.len(),
{
    if votes.len() > 0 {
        if i == votes.len() {
            assert(votes.take(i) =~= votes);
            lemma_sum_amounts_prefix(votes.drop_last(), i - 1);
            assert(votes.drop_last().take(i - 1) =~= votes.drop_last());
        } else {
            lemma_sum_amounts_prefix(votes.drop_last(), i);
            assert(votes.drop_last().take(i) =~= votes.take(i));
        }
    } else {
        assert(votes.take(i) =~= votes);
    }
}

pub proof fn lemma_winners_lockup_bounds(votes: Seq<VoteView>, winners: Seq<Seq<u8>>, i: int)
    requires
        0 <= i <= votes.len(),
    ensures
        0 <= winners_lockup(votes.take(i), winners) <= winners_lockup(votes, winners),
        winners_lockup(votes, winners) <= sum_amounts(votes),
    decreases votes.len(),
{
    if votes.len() > 0 {
        if i == votes.len() {
            assert(votes.take(i) =~= votes);
            lemma_winners_lockup_bounds(votes.drop_last(), winners, i - 1);
            assert(votes.drop_last().take(i - 1) =~= votes.drop_last());
        } else {
            lemma_winners_lockup_bounds(votes.drop_last(), winners, i);
            assert(votes.drop_last().take(i) =~= votes.take(i));
        }
    } else {
        assert(votes.take(i) =~= votes);
    }
}

pub proof fn lemma_winners_lockup_step(votes: Seq<VoteView>, winners: Seq<Seq<u8>>, i: int)
    requires
        0 <= i < votes.len(),
    ensures
        winners_lockup(votes.take(i + 1), winners) == winners_lockup(votes.take(i), winners)
            + if winners.contains(votes[i].vote_for) {
            votes[i].amount as int
        } else {
            0
        },
{
    let p = votes.take(i + 1);
    assert(p.drop_last() =~= votes.take(i));
    assert(p.last() == votes[i]);
}

/// A vote for a winning movie stakes no more than all winners together.
pub proof fn lemma_vote_le_winners_lockup(votes: Seq<VoteView>, winners: Seq<Seq<u8>>, i: int)
    requires
        0 <= i < votes.len(),
        winners.contains(votes[i].vote_for),
    ensures
        votes[i].amount <= winners_lockup(votes, winners),
    decreases votes.len(),
{
    lemma_winners_lockup_bounds(votes.drop_last(), winners, 0);
    if i < votes.len() - 1 {
        lemma_vote_le_winners_lockup(votes.drop_last(), winners, i);
    }
}

/// Under the invariant, a winning vote's reward is defined.
pub proof fn lemma_reward_defined(votes: Seq<VoteView>, winners: Seq<Seq<u8>>, i: int, total: u128)
    requires
        0 <= i < votes.len(),
        winners.contains(votes[i].vote_for),
        votes[i].amount > 0,
        winners_lockup(votes, winners) <= u128::MAX,
    ensures
        simple_reward(total, votes[i].amount, winners_lockup(votes, winners) as u128) is Some,
{
    lemma_vote_le_winners_lockup(votes, winners, i);
    let user = votes[i].amount;
    let wl = winners_lockup(votes, winners) as u128;
    assert(wl / user >= 1) by (nonlinear_arith)
        requires
            wl >= user,
            user > 0,
    ;
}

//  The winners are the movies with the highest total stake
/// The stake placed on movie `m` by `votes`.
pub open spec fn movie_total(votes: Seq<VoteView>, m: Seq<u8>) -> nat
    decreases votes.len(),
{
    if votes.len() == 0 {
        0
    } else {
        movie_total(votes.drop_last(), m) + if votes.last().vote_for == m {
            votes.last().amount as nat
        } else {
            0
        }
    }
}

/// Some vote backs movie `m`.
pub open spec fn voted(votes: Seq<VoteView>, m: Seq<u8>) -> bool {
    exists|i: int| 0 <= i < votes.len() && #[trigger] votes[i].vote_for == m
}

/// The totals of the entries of `t` with key `k`.
pub open spec fn key_total(t: Seq<(Seq<u8>, nat)>, k: Seq<u8>) -> nat
    decreases t.len(),
{
    if t.len() == 0 {
        0
    } else {
        (if t[0].0 == k {
            t[0].1
        } else {
            0
        }) + key_total(t.drop_first(), k)
    }
}

pub open spec fn has_key(t: Seq<(Seq<u8>, nat)>, k: Seq<u8>) -> bool {
    exists|i: int| 0 <= i < t.len() && #[trigger] t[i].0 == k
}

/// The keys of `t` are strictly increasing.
pub open spec fn sorted_keys(t: Seq<(Seq<u8>, nat)>) -> bool {
    forall|i: int, j: int| 0 <= i < j < t.len() ==> lex_lt(#[trigger] t[i].0, #[trigger] t[j].0)
}

pub proof fn lemma_lex_transitive(a: Seq<u8>, b: Seq<u8>, c: Seq<u8>)
    requires
        lex_lt(a, b),
        lex_lt(b, c),
    ensures
        lex_lt(a, c),
    decreases a.len(),
{
    if a.len() > 0 && b.len() > 0 && c.len() > 0 && a[0] == b[0] && b[0] == c[0] {
        lemma_lex_transitive(a.drop_first(), b.drop_first(), c.drop_first());
    }
}

proof fn lemma_prepend_index(x: (Seq<u8>, nat), t: Seq<(Seq<u8>, nat)>)
    ensures
        (seq![x] + t).len() == t.len() + 1,
        (seq![x] + t)[0] == x,
        (seq![x] + t).drop_first() =~= t,
        forall|i: int| 0 <= i < t.len() ==> (seq![x] + t)[i + 1] == #[trigger] t[i],
{
}

pub proof fn lemma_tally_add_key_total(t: Seq<(Seq<u8>, nat)>, m: Seq<u8>, a: nat, k: Seq<u8>)
    ensures
        key_total(tally_add(t, m, a), k) == key_total(t, k) + if k == m {
            a
        } else {
            0
        },
    decreases t.len(),
{
    if t.len() == 0 {
        lemma_prepend_index((m, a), t);
    } else if t[0].0 == m {
        lemma_prepend_index((m, (t[0].1 + a) as nat), t.drop_first());
    } else if lex_lt(m, t[0].0) {
        lemma_prepend_index((m, a), t);
    } else {
        lemma_tally_add_key_total(t.drop_first(), m, a, k);
        lemma_prepend_index(t[0], tally_add(t.drop_first(), m, a));
    }
}

pub proof fn lemma_tally_add_has_key(t: Seq<(Seq<u8>, nat)>, m: Seq<u8>, a: nat, k: Seq<u8>)
    ensures
        has_key(tally_add(t, m, a), k) <==> (has_key(t, k) || k == m),
    decreases t.len(),
{
    let r = tally_add(t, m, a);
    if t.len() == 0 {
        lemma_prepend_index((m, a), t);
        if has_key(r, k) {
            let i = choose|i: int| 0 <= i < r.len() && #[trigger] r[i].0 == k;
        }
        if k == m {
            assert(r[0].0 == k);
        }
    } else {
        let d = t.drop_first();
        if t[0].0 == m {
            lemma_prepend_index((m, (t[0].1 + a) as nat), d);
        } else if lex_lt(m, t[0].0) {
            lemma_prepend_index((m, a), t);
        } else {
            lemma_tally_add_has_key(d, m, a, k);
            lemma_prepend_index(t[0], tally_add(d, m, a));
        }
        if has_key(t, k) {
            let i = choose|i: int| 0 <= i < t.len() && #[trigger] t[i].0 == k;
            if i > 0 {
                assert(d[i - 1].0 == k);
            }
        }
        if has_key(d, k) {
            let i = choose|i: int| 0 <= i < d.len() && #[trigger] d[i].0 == k;
            assert(t[i + 1].0 == k);
        }
        if has_key(r, k) {
            let i = choose|i: int| 0 <= i < r.len() && #[trigger] r[i].0 == k;
            if i > 0 {
                if t[0].0 == m {
                    assert(d[i - 1].0 == k);
                } else if lex_lt(m, t[0].0) {
                    assert(t[i - 1].0 == k);
                } else {
                    assert(tally_add(d, m, a)[i - 1].0 == k);
                }
            }
        }
        if k == m || has_key(t, k) {
            if t[0].0 == m {
                if k == m {
                    assert(r[0].0 == k);
                } else {
                    let i = choose|i: int| 0 <= i < t.len() && #[trigger] t[i].0 == k;
                    assert(i > 0);
                    assert(r[i].0 == k);
                }
            } else if lex_lt(m, t[0].0) {
                if k == m {
                    assert(r[0].0 == k);
                } else {
                    let i = choose|i: int| 0 <= i < t.len() && #[trigger] t[i].0 == k;
                    assert(r[i + 1].0 == k);
                }
            } else if k == t[0].0 {
                assert(r[0].0 == k);
            } else if has_key(tally_add(d, m, a), k) {
                let i = choose|i: int|
                    0 <= i < tally_add(d, m, a).len() && #[trigger] tally_add(d, m, a)[i].0 == k;
                assert(r[i + 1].0 == k);
            }
        }
    }
}

pub proof fn lemma_tally_add_sorted(t: Seq<(Seq<u8>, nat)>, m: Seq<u8>, a: nat)
    requires
        sorted_keys(t),
    ensures
        sorted_keys(tally_add(t, m, a)),
        forall|k: Seq<u8>| has_key(tally_add(t, m, a), k) ==> k == m || has_key(t, k),
        tally_add(t, m, a).len() > 0,
        tally_add(t, m, a)[0].0 == m || (t.len() > 0 && tally_add(t, m, a)[0].0 == t[0].0),
    decreases t.len(),
{
    let r = tally_add(t, m, a);
    assert forall|k: Seq<u8>| has_key(r, k) implies k == m || has_key(t, k) by {
        lemma_tally_add_has_key(t, m, a, k);
    }
    if t.len() == 0 {
        lemma_prepend_index((m, a), t);
    } else {
        let d = t.drop_first();
        assert(sorted_keys(d)) by {
            assert forall|i: int, j: int| 0 <= i < j < d.len() implies lex_lt(
                #[trigger] d[i].0,
                #[trigger] d[j].0,
            ) by {
                assert(lex_lt(t[i + 1].0, t[j + 1].0));
            }
        }
        if t[0].0 == m {
            lemma_prepend_index((m, (t[0].1 + a) as nat), d);
            assert forall|i: int, j: int| 0 <= i < j < r.len() implies lex_lt(
                #[trigger] r[i].0,
                #[trigger] r[j].0,
            ) by {
                assert(lex_lt(t[i].0, t[j].0));
            }
        } else if lex_lt(m, t[0].0) {
            lemma_prepend_index((m, a), t);
            assert forall|i: int, j: int| 0 <= i < j < r.len() implies lex_lt(
                #[trigger] r[i].0,
                #[trigger] r[j].0,
            ) by {
                if i == 0 {
                    if j > 1 {
                        assert(lex_lt(t[0].0, t[j - 1].0));
                        lemma_lex_transitive(m, t[0].0, t[j - 1].0);
                    }
                } else {
                    assert(lex_lt(t[i - 1].0, t[j - 1].0));
                }
            }
        } else {
            lemma_lex_total(m, t[0].0);
            lemma_tally_add_sorted(d, m, a);
            let rd = tally_add(d, m, a);
            lemma_prepend_index(t[0], rd);
            assert forall|i: int, j: int| 0 <= i < j < r.len() implies lex_lt(
                #[trigger] r[i].0,
                #[trigger] r[j].0,
            ) by {
                if i == 0 {
                    // every key of rd is m or a key of d, and t[0] precedes both
                    let x = rd[j - 1].0;
                    assert(r[j] == rd[j - 1]);
                    assert(has_key(rd, x));
                    if x != m {
                        assert(has_key(d, x));
                        let k = choose|k: int| 0 <= k < d.len() && #[trigger] d[k].0 == x;
                        assert(d[k] == t[k + 1]);
                        assert(lex_lt(t[0].0, t[k + 1].0));
                    }
                } else {
                    assert(lex_lt(rd[i - 1].0, rd[j - 1].0));
                }
            }
        }
    }
}

pub proof fn lemma_tally_facts(votes: Seq<VoteView>)
    ensures
        sorted_keys(tally(votes)),
        forall|k: Seq<u8>| #[trigger] has_key(tally(votes), k) <==> voted(votes, k),
        forall|k: Seq<u8>| #[trigger] key_total(tally(votes), k) == movie_total(votes, k),
    decreases votes.len(),
{
    if votes.len() > 0 {
        let d = votes.drop_last();
        let v = votes.last();
        lemma_tally_facts(d);
        lemma_tally_add_sorted(tally(d), v.vote_for, v.amount as nat);
        assert forall|k: Seq<u8>| #[trigger] has_key(tally(votes), k) <==> voted(votes, k) by {
            lemma_tally_add_has_key(tally(d), v.vote_for, v.amount as nat, k);
            if voted(d, k) {
                let i = choose|i: int| 0 <= i < d.len() && #[trigger] d[i].vote_for == k;
                assert(votes[i].vote_for == k);
            }
            if voted(votes, k) {
                let i = choose|i: int| 0 <= i < votes.len() && #[trigger] votes[i].vote_for == k;
                if i < votes.len() - 1 {
                    assert(d[i].vote_for == k);
                }
            }
            if k == v.vote_for {
                assert(votes[votes.len() - 1].vote_for == k);
            }
        }
        assert forall|k: Seq<u8>| #[trigger] key_total(tally(votes), k) == movie_total(votes, k) by {
            lemma_tally_add_key_total(tally(d), v.vote_for, v.amount as nat, k);
        }
    }
}

/// With strictly increasing keys, an entry's total is the total of its key.
pub proof fn lemma_entry_is_key_total(t: Seq<(Seq<u8>, nat)>, i: int)
    requires
        sorted_keys(t),
        0 <= i < t.len(),
    ensures
        t[i].1 == key_total(t, t[i].0),
    decreases t.len(),
{
    let d = t.drop_first();
    assert(sorted_keys(d)) by {
        assert forall|x: int, y: int| 0 <= x < y < d.len() implies lex_lt(
            #[trigger] d[x].0,
            #[trigger] d[y].0,
        ) by {
            assert(lex_lt(t[x + 1].0, t[y + 1].0));
        }
    }
    if i == 0 {
        lemma_key_total_absent(d, t[0].0, t);
    } else {
        lemma_entry_is_key_total(d, i - 1);
        lemma_lex_irreflexive(t[i].0);
        assert(lex_lt(t[0].0, t[i].0));
    }
}

/// A key that precedes every key of `d` has no total in `d`.
proof fn lemma_key_total_absent(d: Seq<(Seq<u8>, nat)>, k: Seq<u8>, t: Seq<(Seq<u8>, nat)>)
    requires
        t.len() > 0,
        d == t.drop_first(),
        k == t[0].0,
        sorted_keys(t),
    ensures
        key_total(d, k) == 0,
    decreases d.len(),
{
    if d.len() > 0 {
        assert(lex_lt(t[0].0, t[1].0));
        lemma_lex_irreflexive(k);
        let t2 = seq![t[0]] + d.drop_first();
        assert(t2.drop_first() =~= d.drop_first());
        assert(sorted_keys(t2)) by {
            assert forall|x: int, y: int| 0 <= x < y < t2.len() implies lex_lt(
                #[trigger] t2[x].0,
                #[trigger] t2[y].0,
            ) by {
                if x == 0 {
                    assert(lex_lt(t[0].0, t[y + 1].0));
                } else {
                    assert(lex_lt(t[x + 1].0, t[y + 1].0));
                }
            }
        }
        lemma_key_total_absent(d.drop_first(), k, t2);
    }
}

pub proof fn lemma_max_total(t: Seq<(Seq<u8>, nat)>)
    ensures
        forall|i: int| 0 <= i < t.len() ==> #[trigger] t[i].1 <= max_total(t),
        t.len() > 0 ==> exists|i: int| 0 <= i < t.len() && #[trigger] t[i].1 == max_total(t),
    decreases t.len(),
{
    if t.len() > 0 {
        lemma_max_total(t.drop_last());
        assert forall|i: int| 0 <= i < t.len() implies #[trigger] t[i].1 <= max_total(t) by {
            if i < t.len() - 1 {
                assert(t.drop_last()[i] == t[i]);
            }
        }
        if t.last().1 >= max_total(t.drop_last()) {
            assert(t[t.len() - 1].1 == max_total(t));
        } else {
            let i = choose|i: int|
                0 <= i < t.drop_last().len() && #[trigger] t.drop_last()[i].1 == max_total(
                    t.drop_last(),
                );
            assert(t[i].1 == max_total(t));
        }
    }
}

pub proof fn lemma_last_max_key(t: Seq<(Seq<u8>, nat)>, mx: nat)
    requires
        exists|i: int| 0 <= i < t.len() && #[trigger] t[i].1 == mx,
    ensures
        exists|i: int|
            0 <= i < t.len() && #[trigger] t[i].1 == mx && t[i].0 == last_max_key(t, mx) && forall|
                k: int,
            | i < k < t.len() ==> #[trigger] t[k].1 != mx,
    decreases t.len(),
{
    if t.last().1 == mx {
        assert(t[t.len() - 1].1 == mx);
    } else {
        let i = choose|i: int| 0 <= i < t.len() && #[trigger] t[i].1 == mx;
        assert(t.drop_last()[i].1 == mx);
        lemma_last_max_key(t.drop_last(), mx);
        let j = choose|j: int|
            0 <= j < t.drop_last().len() && #[trigger] t.drop_last()[j].1 == mx
                && t.drop_last()[j].0 == last_max_key(t.drop_last(), mx) && forall|k: int|
                j < k < t.drop_last().len() ==> #[trigger] t.drop_last()[k].1 != mx;
        assert(t[j].1 == mx);
        assert forall|k: int| j < k < t.len() implies #[trigger] t[k].1 != mx by {
            if k < t.len() - 1 {
                assert(t.drop_last()[k] == t[k]);
            }
        }
    }
}

/// The ties come in increasing key order.
pub proof fn lemma_ties_sorted(t: Seq<(Seq<u8>, nat)>, mx: nat, first: Seq<u8>)
    requires
        sorted_keys(t),
    ensures
        forall|a: int, b: int|
            0 <= a < b < ties(t, mx, first).len() ==> lex_lt(
                #[trigger] ties(t, mx, first)[a],
                #[trigger] ties(t, mx, first)[b],
            ),
    decreases t.len(),
{
    if t.len() > 0 {
        let d = t.drop_last();
        assert(sorted_keys(d)) by {
            assert forall|x: int, y: int| 0 <= x < y < d.len() implies lex_lt(
                #[trigger] d[x].0,
                #[trigger] d[y].0,
            ) by {
                assert(lex_lt(t[x].0, t[y].0));
            }
        }
        lemma_ties_sorted(d, mx, first);
        let rd = ties(d, mx, first);
        let r = ties(t, mx, first);
        if t.last().1 == mx && t.last().0 != first {
            assert forall|a: int, b: int| 0 <= a < b < r.len() implies lex_lt(
                #[trigger] r[a],
                #[trigger] r[b],
            ) by {
                if b == rd.len() {
                    assert(r[a] == rd[a]);
                    lemma_ties(d, mx, first, rd[a]);
                    assert(rd.contains(rd[a]));
                    let i = choose|i: int| 0 <= i < d.len() && #[trigger] d[i].0 == rd[a];
                    assert(lex_lt(t[i].0, t[t.len() - 1].0));
                } else {
                    assert(r[a] == rd[a] && r[b] == rd[b]);
                }
            }
        }
    }
}

pub proof fn lemma_ties(t: Seq<(Seq<u8>, nat)>, mx: nat, first: Seq<u8>, k: Seq<u8>)
    requires
        sorted_keys(t),
    ensures
        ties(t, mx, first).contains(k) <==> (k != first && exists|i: int|
            0 <= i < t.len() && #[trigger] t[i].0 == k && t[i].1 == mx),
        no_dup_keys(ties(t, mx, first)),
        forall|x: Seq<u8>| #[trigger] ties(t, mx, first).contains(x) ==> has_key(t, x),
    decreases t.len(),
{
    let r = ties(t, mx, first);
    if t.len() > 0 {
        let d = t.drop_last();
        assert(sorted_keys(d)) by {
            assert forall|x: int, y: int| 0 <= x < y < d.len() implies lex_lt(
                #[trigger] d[x].0,
                #[trigger] d[y].0,
            ) by {
                assert(lex_lt(t[x].0, t[y].0));
            }
        }
        lemma_ties(d, mx, first, k);
        lemma_ties(d, mx, first, t.last().0);
        let rd = ties(d, mx, first);
        if exists|i: int| 0 <= i < t.len() && #[trigger] t[i].0 == k && t[i].1 == mx {
            let i = choose|i: int| 0 <= i < t.len() && #[trigger] t[i].0 == k && t[i].1 == mx;
            if i < t.len() - 1 {
                assert(d[i].0 == k && d[i].1 == mx);
            }
        }
        if exists|i: int| 0 <= i < d.len() && #[trigger] d[i].0 == k && d[i].1 == mx {
            let i = choose|i: int| 0 <= i < d.len() && #[trigger] d[i].0 == k && d[i].1 == mx;
            assert(t[i].0 == k && t[i].1 == mx);
        }
        assert forall|x: Seq<u8>| #[trigger] r.contains(x) implies has_key(t, x) by {
            if rd.contains(x) {
                lemma_ties(d, mx, first, x);
                let i = choose|i: int| 0 <= i < d.len() && #[trigger] d[i].0 == x;
                assert(t[i].0 == x);
            } else {
                assert(t[t.len() - 1].0 == x);
            }
        }
        if t.last().1 == mx && t.last().0 != first {
            // the last key is new: every key of d precedes it
            assert(!rd.contains(t.last().0)) by {
                if rd.contains(t.last().0) {
                    let i = choose|i: int| 0 <= i < d.len() && #[trigger] d[i].0 == t.last().0;
                    assert(lex_lt(t[i].0, t[t.len() - 1].0));
                    lemma_lex_irreflexive(t.last().0);
                }
            }
            lemma_push_no_dup_keys(rd, t.last().0);
        }
    }
}

pub open spec fn no_dup_keys(s: Seq<Seq<u8>>) -> bool {
    forall|i: int, j: int| 0 <= i < j < s.len() ==> s[i] != s[j]
}

proof fn lemma_push_no_dup_keys(s: Seq<Seq<u8>>, x: Seq<u8>)
    requires
        no_dup_keys(s),
        !s.contains(x),
    ensures
        no_dup_keys(s.push(x)),
{
    assert forall|i: int, j: int| 0 <= i < j < s.push(x).len() implies s.push(x)[i] != s.push(
        x,
    )[j] by {
        if j == s.len() {
            assert(s[i] == s.push(x)[i]);
        }
    }
}

/// The winning movies of a festival with votes are exactly the movies that some vote
/// backs and that no other movie outdoes in total stake; none is listed twice. The
/// first of them comes last in movie-id order, and the others follow in movie-id order.
pub proof fn law_winners_have_highest_stake(votes: Seq<VoteView>)
    requires
        votes.len() > 0,
    ensures
        no_dup_keys(winning_movies(votes)),
        forall|a: int|
            1 <= a < winning_movies(votes).len() ==> lex_lt(
                #[trigger] winning_movies(votes)[a],
                winning_movies(votes)[0],
            ),
        forall|a: int, b: int|
            1 <= a < b < winning_movies(votes).len() ==> lex_lt(
                #[trigger] winning_movies(votes)[a],
                #[trigger] winning_movies(votes)[b],
            ),
        forall|m: Seq<u8>| #[trigger]
            winning_movies(votes).contains(m) <==> (voted(votes, m) && forall|m2: Seq<u8>|
                voted(votes, m2) ==> #[trigger] movie_total(votes, m2) <= movie_total(votes, m)),
{
    let t = tally(votes);
    let mx = max_total(t);
    let first = last_max_key(t, mx);
    let w = winning_movies(votes);
    lemma_tally_facts(votes);
    assert(voted(votes, votes[0].vote_for));
    assert(has_key(t, votes[0].vote_for));
    lemma_max_total(t);
    lemma_last_max_key(t, mx);
    let fi = choose|i: int|
        0 <= i < t.len() && #[trigger] t[i].1 == mx && t[i].0 == first && forall|k: int|
            i < k < t.len() ==> #[trigger] t[k].1 != mx;
    assert(w =~= seq![first] + ties(t, mx, first));
    // each entry's total is the total of its movie
    assert forall|i: int| 0 <= i < t.len() implies #[trigger] t[i].1 == movie_total(votes, t[i].0) by {
        lemma_entry_is_key_total(t, i);
    }
    assert forall|m: Seq<u8>| #[trigger]
        w.contains(m) <==> (voted(votes, m) && forall|m2: Seq<u8>|
            voted(votes, m2) ==> #[trigger] movie_total(votes, m2) <= movie_total(votes, m)) by {
        lemma_ties(t, mx, first, m);
        if w.contains(m) {
            let j = choose|j: int| 0 <= j < w.len() && w[j] == m;
            let i = if j == 0 {
                fi
            } else {
                assert(ties(t, mx, first)[j - 1] == m);
                choose|i: int| 0 <= i < t.len() && #[trigger] t[i].0 == m && t[i].1 == mx
            };
            assert(t[i].0 == m && t[i].1 == mx);
            assert(has_key(t, m));
            assert forall|m2: Seq<u8>| voted(votes, m2) implies #[trigger] movie_total(votes, m2)
                <= movie_total(votes, m) by {
                assert(has_key(t, m2));
                let i2 = choose|i2: int| 0 <= i2 < t.len() && #[trigger] t[i2].0 == m2;
                assert(t[i2].1 <= mx);
            }
        }
        if voted(votes, m) && forall|m2: Seq<u8>|
            voted(votes, m2) ==> #[trigger] movie_total(votes, m2) <= movie_total(votes, m) {
            assert(has_key(t, m));
            let i = choose|i: int| 0 <= i < t.len() && #[trigger] t[i].0 == m;
            assert(voted(votes, first)) by {
                assert(has_key(t, first));
            }
            assert(movie_total(votes, first) <= movie_total(votes, m));
            assert(t[i].1 >= mx);
            assert(t[i].1 <= mx);
            if m == first {
                assert(w[0] == m);
            } else {
                assert(ties(t, mx, first).contains(m));
                let j = choose|j: int|
                    0 <= j < ties(t, mx, first).len() && ties(t, mx, first)[j] == m;
                assert(w[j + 1] == m);
            }
        }
    }
    lemma_ties(t, mx, first, first);
    lemma_ties_sorted(t, mx, first);
    let ts = ties(t, mx, first);
    assert forall|a: int| 1 <= a < w.len() implies lex_lt(#[trigger] w[a], w[0]) by {
        assert(w[a] == ts[a - 1]);
        lemma_ties(t, mx, first, w[a]);
        assert(ts.contains(w[a]));
        let i = choose|i: int| 0 <= i < t.len() && #[trigger] t[i].0 == w[a] && t[i].1 == mx;
        assert(i < fi) by {
            if i > fi {
                assert(t[i].1 != mx);
            }
        }
        assert(lex_lt(t[i].0, t[fi].0));
    }
    assert forall|a: int, b: int| 1 <= a < b < w.len() implies lex_lt(
        #[trigger] w[a],
        #[trigger] w[b],
    ) by {
        assert(w[a] == ts[a - 1] && w[b] == ts[b - 1]);
    }
    assert forall|i: int, j: int| 0 <= i < j < w.len() implies w[i] != w[j] by {
        let ts = ties(t, mx, first);
        if i == 0 {
            assert(ts[j - 1] == w[j]);
            if w[j] == first {
                assert(ts.contains(first));
            }
        } else {
            assert(ts[i - 1] == w[i]);
            assert(ts[j - 1] == w[j]);
        }
    }
}

//  Executable
pub open spec fn tally_view(t: Seq<(Vec<u8>, u128)>) -> Seq<(Seq<u8>, nat)> {
    t.map_values(|p: (Vec<u8>, u128)| (p.0@, p.1 as nat))
}

/// Adds a stake of `a` on movie `m` to the tally `t`.
fn tally_add_exec(t: &mut Vec<(Vec<u8>, u128)>, m: &Vec<u8>, a: u128)
    requires
        sum_vals(tally_view(old(t)@)) + a <= u128::MAX,
    ensures
        tally_view(final(t)@) == tally_add(tally_view(old(t)@), m@, a as nat),
{
    let ghost tv = tally_view(t@);
    let mut i: usize = 0;
    while i < t.len() && bytes_lt(&t[i].0, m)
        invariant
            i <= t@.len(),
            tv == tally_view(t@),
            forall|j: int| 0 <= j < i ==> lex_lt(#[trigger] tv[j].0, m@),
        decreases t@.len() - i,
    {
        i = i + 1;
    }
    proof {
        lemma_tally_add_prefix(tv, m@, a as nat, i as int);
    }
    let ghost s = tv.skip(i as int);
    if i < t.len() && bytes_eq(&t[i].0, m) {
        assert(s[0] == tv[i as int]);
        proof {
            lemma_val_le_sum(tv, i as int);
        }
        let v = t[i].1 + a;
        let key = copy_bytes(m);
        t.set(i, (key, v));
        assert(tally_view(t@) =~= tv.take(i as int) + (seq![(m@, s[0].1 + a as nat)]
            + s.drop_first()));
    } else {
        let key = copy_bytes(m);
        t.insert(i, (key, a));
        proof {
            if (i as int) < tv.len() {
                assert(s[0] == tv[i as int]);
                if s[0].0 != m@ {
                    lemma_lex_total(m@, s[0].0);
                }
            }
        }
        assert(tally_view(t@) =~= tv.take(i as int) + (seq![(m@, a as nat)] + s));
    }
}

/// The tally of `votes`.
fn tally_votes(votes: &Vec<Vote>) -> (t: Vec<(Vec<u8>, u128)>)
    requires
        sum_amounts(votes_view(votes@)) <= u128::MAX,
    ensures
        tally_view(t@) == tally(votes_view(votes@)),
{
    let ghost vs = votes_view(votes@);
    let mut t: Vec<(Vec<u8>, u128)> = Vec::new();
    let mut i: usize = 0;
    assert(tally_view(t@) =~= tally(vs.take(0)));
    while i < votes.len()
        invariant
            vs == votes_view(votes@),
            i <= vs.len(),
            tally_view(t@) == tally(vs.take(i as int)),
            sum_amounts(vs) <= u128::MAX,
        decreases vs.len() - i,
    {
        assert(vs.take(i + 1).drop_last() =~= vs.take(i as int));
        proof {
            lemma_tally_sum(vs.take(i as int));
            lemma_sum_amounts_prefix(vs, i + 1);
        }
        let vote = &votes[i];
        assert(vote@ == vs[i as int]);
        tally_add_exec(&mut t, &vote.vote_for, vote.amount);
        i = i + 1;
    }
    assert(vs.take(vs.len() as int) =~= vs);
    t
}

/// The highest total of a tally.
fn tally_max(t: &Vec<(Vec<u8>, u128)>) -> (mx: u128)
    ensures
        mx == max_total(tally_view(t@)),
{
    let ghost tv = tally_view(t@);
    let mut mx: u128 = 0;
    let mut j: usize = 0;
    while j < t.len()
        invariant
            tv == tally_view(t@),
            j <= t@.len(),
            mx == max_total(tv.take(j as int)),
        decreases t@.len() - j,
    {
        assert(tv.take(j + 1).drop_last() =~= tv.take(j as int));
        if t[j].1 >= mx {
            mx = t[j].1;
        }
        j = j + 1;
    }
    assert(tv.take(tv.len() as int) =~= tv);
    mx
}

/// The key of the last entry of a tally whose total is `mx`.
fn tally_last_with(t: &Vec<(Vec<u8>, u128)>, mx: u128) -> (k: Vec<u8>)
    ensures
        k@ == last_max_key(tally_view(t@), mx as nat),
{
    let ghost tv = tally_view(t@);
    let mut idx: usize = 0;
    let mut found = false;
    let mut j: usize = 0;
    while j < t.len()
        invariant
            tv == tally_view(t@),
            j <= t@.len(),
            found ==> idx < j && last_max_key(tv.take(j as int), mx as nat) == tv[idx as int].0,
            !found ==> last_max_key(tv.take(j as int), mx as nat) == Seq::<u8>::empty(),
        decreases t@.len() - j,
    {
        assert(tv.take(j + 1).drop_last() =~= tv.take(j as int));
        if t[j].1 == mx {
            idx = j;
            found = true;
        }
        j = j + 1;
    }
    assert(tv.take(tv.len() as int) =~= tv);
    if found {
        copy_bytes(&t[idx].0)
    } else {
        Vec::new()
    }
}

/// `first`, then the keys of the other entries of a tally whose total is `mx`.
fn tally_winners(t: &Vec<(Vec<u8>, u128)>, mx: u128, first: Vec<u8>) -> (w: Vec<Vec<u8>>)
    ensures
        bytes_list(w@) == seq![first@] + ties(tally_view(t@), mx as nat, first@),
{
    let ghost tv = tally_view(t@);
    let ghost fk = first@;
    let mut winners: Vec<Vec<u8>> = Vec::new();
    winners.push(first);
    assert(bytes_list(winners@) =~= seq![fk] + ties(tv.take(0), mx as nat, fk));
    let mut j: usize = 0;
    while j < t.len()
        invariant
            tv == tally_view(t@),
            j <= t@.len(),
            bytes_list(winners@) == seq![fk] + ties(tv.take(j as int), mx as nat, fk),
            winners@.len() > 0,
            winners@[0]@ == fk,
        decreases t@.len() - j,
    {
        assert(tv.take(j + 1).drop_last() =~= tv.take(j as int));
        let first_ref = &winners[0];
        assert(tv[j as int] == (t@[j as int].0@, t@[j as int].1 as nat));
        assert(tv.take(j + 1).last() == tv[j as int]);
        if t[j].1 == mx && !bytes_eq(&t[j].0, first_ref) {
            let ghost before = bytes_list(winners@);
            let k = copy_bytes(&t[j].0);
            winners.push(k);
            assert(bytes_list(winners@) =~= before.push(tv[j as int].0));
        }
        j = j + 1;
    }
    assert(tv.take(tv.len() as int) =~= tv);
    winners
}

impl Pallet {
    /// The movies of festival `festival_id` with the highest total stake, in the order
    /// the pallet picks them: the last of them in movie-id order first, then the others
    /// in movie-id order.
    pub fn do_get_winning_options(&self, festival_id: u32) -> (r: Vec<Vec<u8>>)
        requires
            self@.festivals.dom().contains(festival_id),
            self@.festivals[festival_id].vote_list.len() > 0,
            sum_amounts(self@.festivals[festival_id].vote_list) <= u128::MAX,
        ensures
            bytes_list(r@) == winning_movies(self@.festivals[festival_id].vote_list),
    {
        let t = match self.get_festival(festival_id) {
            Some(fest) => tally_votes(&fest.vote_list),
            None => Vec::new(),
        };
        let mx = tally_max(&t);
        let first = tally_last_with(&t, mx);
        tally_winners(&t, mx, first)
    }

    /// The stake placed on the movies of `winning_movies` in festival `festival_id`;
    /// `Overflow` when it exceeds the largest balance.
    pub fn do_get_winners_total_lockup(&self, festival_id: u32, winning_movies: Vec<Vec<u8>>) -> (r:
        Result<u128, Error>)
        requires
            self@.festivals.dom().contains(festival_id),
        ensures
            match r {
                Ok(s) => s == winners_lockup(
                    self@.festivals[festival_id].vote_list,
                    bytes_list(winning_movies@),
                ),
                Err(e) => e == Error::Overflow && winners_lockup(
                    self@.festivals[festival_id].vote_list,
                    bytes_list(winning_movies@),
                ) > u128::MAX,
            },
    {
        let ghost votes = self@.festivals[festival_id].vote_list;
        let ghost w = bytes_list(winning_movies@);
        let mut total: u128 = 0;
        if let Some(fest) = self.get_festival(festival_id) {
            let mut i: usize = 0;
            while i < fest.vote_list.len()
                invariant
                    votes == votes_view(fest.vote_list@),
                    votes == self@.festivals[festival_id].vote_list,
                    w == bytes_list(winning_movies@),
                    i <= votes.len(),
                    total == winners_lockup(votes.take(i as int), w),
                decreases votes.len() - i,
            {
                assert(votes.take(i + 1).drop_last() =~= votes.take(i as int));
                let vote = &fest.vote_list[i];
                assert(vote@ == votes[i as int]);
                assert(votes.take(i + 1).last() == votes[i as int]);
                let ghost prefix = votes.take(i + 1);
                proof {
                    lemma_winners_lockup_step(votes, w, i as int);
                }
                if list_contains(&winning_movies, &vote.vote_for) {
                    assert(winners_lockup(prefix, w) == winners_lockup(votes.take(i as int), w)
                        + vote.amount);
                    match total.checked_add(vote.amount) {
                        Some(t) => {
                            total = t;
                        },
                        None => {
                            proof {
                                lemma_winners_lockup_bounds(votes, w, i + 1);
                            }
                            return Err(Error::Overflow);
                        },
                    }
                } else {
                    assert(winners_lockup(prefix, w) == winners_lockup(votes.take(i as int), w));
                }
                i = i + 1;
            }
            assert(votes.take(votes.len() as int) =~= votes);
        }
        Ok(total)
    }

    /// A winner's reward: `total_lockup` divided by `winner_lockup / user_lockup`;
    /// `Overflow` when a divisor is zero.
    pub fn do_calculate_simple_reward(total_lockup: u128, user_lockup: u128, winner_lockup: u128) -> (r:
        Result<u128, Error>)
        ensures
            match simple_reward(total_lockup, user_lockup, winner_lockup) {
                Some(x) => r == Ok::<u128, Error>(x),
                None => r == Err::<u128, Error>(Error::Overflow),
            },
    {
        let user_share = match winner_lockup.checked_div(user_lockup) {
            Some(s) => s,
            None => {
                return Err(Error::Overflow);
            },
        };
        match total_lockup.checked_div(user_share) {
            Some(x) => Ok(x),
            None => Err(Error::Overflow),
        }
    }

    /// Resolves the market of festival `festival_id`: hands back the voters who backed a
    /// winning movie, and the outside work due, namely an award for each winning movie,
    /// then for each vote in order a reward where it backed a winner and the unlocking
    /// of its stake.
    pub fn do_resolve_market(&self, festival_id: u32) -> (r: (Vec<u64>, Vec<HookAction>))
        requires
            self@.festivals.dom().contains(festival_id),
            self@.festivals[festival_id].vote_list.len() > 0,
            sum_amounts(self@.festivals[festival_id].vote_list) <= u128::MAX,
            forall|i: int|
                0 <= i < self@.festivals[festival_id].vote_list.len() && winning_movies(
                    self@.festivals[festival_id].vote_list,
                ).contains(#[trigger] self@.festivals[festival_id].vote_list[i].vote_for)
                    ==> self@.festivals[festival_id].vote_list[i].amount > 0,
        ensures
            (r.0@, actions_view(r.1@)) == resolve_market(
                festival_id,
                self@.festivals[festival_id],
            ),
    {
        let ghost f = self@.festivals[festival_id];
        let ghost votes = f.vote_list;
        let winning_opts = self.do_get_winning_options(festival_id);
        let ghost w = bytes_list(winning_opts@);
        let mut actions: Vec<HookAction> = Vec::new();
        let mut j: usize = 0;
        while j < winning_opts.len()
            invariant
                w == bytes_list(winning_opts@),
                j <= w.len(),
                actions_view(actions@) == w.take(j as int).map_values(
                    |m: Seq<u8>| HookActionView::AwardWin { festival_id, movie_id: m },
                ),
            decreases w.len() - j,
        {
            let ghost before = actions_view(actions@);
            let m = copy_bytes(&winning_opts[j]);
            assert(m@ == w[j as int]);
            actions.push(HookAction::AwardWin { festival_id, movie_id: m });
            assert(actions_view(actions@) =~= before.push(
                HookActionView::AwardWin { festival_id, movie_id: w[j as int] },
            ));
            assert(w.take(j + 1) =~= w.take(j as int).push(w[j as int]));
            assert(w.take(j + 1).map_values(
                |m: Seq<u8>| HookActionView::AwardWin { festival_id, movie_id: m },
            ) =~= w.take(j as int).map_values(
                |m: Seq<u8>| HookActionView::AwardWin { festival_id, movie_id: m },
            ).push(HookActionView::AwardWin { festival_id, movie_id: w[j as int] }));
            j = j + 1;
        }
        assert(w.take(w.len() as int) =~= w);
        let ghost awards = actions_view(actions@);
        proof {
            lemma_winners_lockup_bounds(votes, w, 0);
        }
        let copy_opts = crate::seqs::copy_list(&winning_opts);
        let winners_lockup_amount = match self.do_get_winners_total_lockup(festival_id, copy_opts) {
            Ok(x) => x,
            Err(_) => {
                assert(false);
                0
            },
        };
        let mut winner_list: Vec<u64> = Vec::new();
        if let Some(fest) = self.get_festival(festival_id) {
            let total = fest.total_lockup;
            let mut i: usize = 0;
            assert(actions_view(actions@) =~= awards + settle(
                votes.take(0),
                w,
                total,
                winners_lockup_amount,
            ).1);
            while i < fest.vote_list.len()
                invariant
                    fest@ == f,
                    votes == votes_view(fest.vote_list@),
                    total == f.total_lockup,
                    sum_amounts(votes) <= u128::MAX,
                    forall|k: int|
                        0 <= k < votes.len() && w.contains(#[trigger] votes[k].vote_for)
                            ==> votes[k].amount > 0,
                    w == bytes_list(winning_opts@),
                    winners_lockup_amount == winners_lockup(votes, w),
                    i <= votes.len(),
                    winner_list@ == settle(votes.take(i as int), w, total, winners_lockup_amount).0,
                    actions_view(actions@) == awards + settle(
                        votes.take(i as int),
                        w,
                        total,
                        winners_lockup_amount,
                    ).1,
                decreases votes.len() - i,
            {
                assert(votes.take(i + 1).drop_last() =~= votes.take(i as int));
                let vote = &fest.vote_list[i];
                assert(vote@ == votes[i as int]);
                let ghost prev = settle(votes.take(i as int), w, total, winners_lockup_amount);
                let ghost before = actions_view(actions@);
                assert(votes.take(i + 1).last() == votes[i as int]);
                assert(vote.vote_for@ == votes[i as int].vote_for);
                if list_contains(&winning_opts, &vote.vote_for) {
                    proof {
                        lemma_reward_defined(votes, w, i as int, total);
                    }
                    let reward = match Self::do_calculate_simple_reward(
                        total,
                        vote.amount,
                        winners_lockup_amount,
                    ) {
                        Ok(x) => x,
                        Err(_) => {
                            assert(false);
                            0
                        },
                    };
                    actions.push(
                        HookAction::UpdateTokens(
                            TokenUpdate {
                                account: vote.voter,
                                token: TokenKind::Claimable,
                                amount: reward,
                                decrease: false,
                            },
                        ),
                    );
                    winner_list.push(vote.voter);
                    actions.push(
                        HookAction::UpdateTokens(
                            TokenUpdate {
                                account: vote.voter,
                                token: TokenKind::Locked,
                                amount: vote.amount,
                                decrease: true,
                            },
                        ),
                    );
                    assert(actions_view(actions@) =~= before.push(
                        reward_action(votes[i as int], reward),
                    ).push(unlock_action(votes[i as int])));
                    assert(actions_view(actions@) =~= awards + prev.1.push(
                        reward_action(votes[i as int], reward),
                    ).push(unlock_action(votes[i as int])));
                } else {
                    actions.push(
                        HookAction::UpdateTokens(
                            TokenUpdate {
                                account: vote.voter,
                                token: TokenKind::Locked,
                                amount: vote.amount,
                                decrease: true,
                            },
                        ),
                    );
                    assert(actions_view(actions@) =~= before.push(unlock_action(votes[i as int])));
                    assert(actions_view(actions@) =~= awards + prev.1.push(
                        unlock_action(votes[i as int]),
                    ));
                }
                i = i + 1;
            }
            assert(votes.take(votes.len() as int) =~= votes);
        }
        (winner_list, actions)
    }
}

} // verus!
