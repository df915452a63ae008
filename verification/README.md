# festival

A verified library for film festivals whose audiences stake tokens on movies.

An owner creates a private festival with a list of movies, edits the list while the
festival awaits activation, and activates it either for a later start block or at
once. Active festivals take votes: a vote stakes tokens on one movie. When its end
block comes, a festival with more than one vote resolves its market: the movies with
the highest total stake win, each voter who backed one of them is credited the total
stake divided by (the winners' total stake divided by that voter's stake), both
divisions rounding down, and every stake is unlocked. Those credits are computed for
each winning voter on its own and are not capped by the total stake.

## Layout

- `src/types.rs`: the festival, vote, block assignment and wallet records, events,
  errors, the configuration, and their views.
- `src/model.rs`: the storage as values (`PalletView`), its invariant, and what each
  call does to it.
- `src/pallet.rs`: the storage itself and the operations that touch it directly.
- `src/calls.rs`: the calls: creating, activating, editing and voting.
- `src/market.rs`: tallying stakes, picking the winning movies, and settling votes.
- `src/hooks.rs`: what happens at the end of a block: festivals end, then start.
- `src/laws.rs`, `src/proofs.rs`: properties that hold across calls, and the proofs
  that the calls keep the invariant.
- `src/encoding.rs`, `src/seqs.rs`: SCALE encoding of festival ids, and list helpers.
- `app/lib.rs`: drives the calls and hooks against a host runtime, which provides the
  signer, the current block, the tag and movie registries, the stat tracker,
  transfers and event deposits.
- `tests/`: scenarios over the whole flow.

Everything under `src/` is checked by Verus. The one outside call it makes is SCALE
encoding a festival id through `parity-scale-codec`, behind a wrapper whose contract
states the encoding. Where a call needs other outside work, it takes the outside answer
as an argument, or hands back the work to be done (`HookAction`, `TokenUpdate`, the content id of a new
festival) for the host to perform.
