# EffectFence

A causal fence around the side effects of tool calls. When more than one agent,
or a retry, or a re-dispatch can end up running the same side-effecting operation
(charge a card, send a payout, provision a resource), the fence admits one attempt
and tells every other attempt what came of it. Every effect that runs gets a
content-addressed certificate that is chained to what it was built on.

The library is written in Verus: what each function does is stated in its
contract and proved.

## How an attempt passes

```
              ┌ intent gate ──────── already done? → Replay(recorded cert)   [do NOT run]
              │                      in flight / failed? → rejected          [do NOT run]
 EffectRequest┤
              ├ read-set check ───── dependency moved? → ReadSetStale        [do NOT run]
              │
              └ reservation ──────── lost the race? → DomainRace             [do NOT run]
                     │
                     └ Fresh(ticket) → run the effect → commit_effect_cert → EffectCert
                                                      ↘ abort_effect (fenced until reconciled)
```

```rust
use effectfence::fence::{commit_effect_cert, prepare_effect_fence, Admission, EffectFence};

let mut fence = EffectFence::new();
match prepare_effect_fence(&mut fence, request)? {
    Admission::Fresh(ticket) => {
        // This attempt won: run the effect, then record its result.
        let cert = commit_effect_cert(&mut fence, ticket, result)?;
        assert!(cert.verify());
    }
    Admission::Replay(cert) => {
        // This action already ran: use cert.result and run nothing.
    }
}
```

A fence is plain data. A program that shares one between threads or tasks keeps
it under a lock, held for one call at a time and not while an effect runs
(`app/shared.rs`). Times are nanoseconds since the fence was made; every function
that reads the clock has a sibling that takes the time as an argument
(`prepare_effect_fence_at` and so on), and the contract of that one is exact.
Sequence numbers and clocks are 64 bits wide. `prepare_effect_fence` asks its
caller to know that they can still advance; `try_prepare_effect_fence` finds out
by itself.

`prepare_effect_fence` passes all gates in one call, so attempts at different
actions in one domain never get in each other's way. A program that does not want
to hold its lock that long passes them in two: `claim_effect` for the ledger and
the read set, `reserve_effect` for the reservation, which is then where a race for
the domain is won or lost.

## What is proved

Besides the contract of each function, the `*_laws` modules prove what holds of
several together:

- `fence_laws`: whatever is done to a fence, with the gates of different attempts
  interleaved in any way and for however long, an intent is admitted at most once
  as long as what is recorded of it is not forgotten: by a lease or an outcome
  that has run out, or by clearing it. While its outcome is remembered, a committed
  intent is replayed and an aborted or rejected one refused, whatever else goes on
  in between. The sequence numbers of a domain are handed out one after the other,
  each once; a refused attempt and a sweep change no later answer; what is replayed
  is a valid certificate of the intent that was asked for, and the one that its
  commit was answered with.
- `cert_laws`, `pqc`: the hash of a certificate does not depend on the order in
  which members are written, and a valid certificate of which anything else is
  changed is no longer valid, and no signature attests to it, unless SHA-256
  collides.
- `clock_laws`: happened-before is a partial order, joining is its least upper
  bound, a digest identifies its clock unless SHA-256 collides.
- `json_laws`: a text has one reading, a canonical text identifies its value up to
  the order of members, values that differ in that order are equal, and a compact
  text stays on one line.
- `wrap_laws`: identical calls share an intent and reach the server at most once,
  a recorded result is served to every later duplicate and a broken call stays
  fenced, calls of different tools never share an intent, a tool that reports an
  error does not block the retry.
- `probe_laws`, `demo_laws`: a double fire is reported exactly if two successful
  calls returned different payloads; the built-in server answers every line of
  its input by one line or passes it over, and which of the two is stated.

## What is trusted

Calls into `sha2`, `fips204`, `serde_json` and the standard library's clock and
`Arc` stand behind small functions marked `external_body`, each with a comment
that says what is taken for granted.

## Layout

- `src/`: the verified library.
- `tests/`: tests of the library, with the outside crates linked.
- `app/`: the `effectfence` program (MCP over stdio): `effectfence` serves the
  fence as tools, `effectfence wrap -- <command>` fences another server,
  `effectfence probe --tool <name> -- <command>` finds out whether a server fires
  twice, `effectfence demo` shows both.
