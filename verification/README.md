# carpool

Deduplicate and batch concurrent requests, with the rules proved in Verus.
Concurrent requests within a collection window are merged into a single downstream batch,
and duplicate inputs share one result. No cache; built on `tokio`.

## Layout

`src/` is the verified library. Its types are plain state that one caller at a time advances.

- `queue`: pending requests in arrival order; batches are sliced by count or by threshold,
  and entries whose caller left are buried on the way.
- `transit`: rides that seats board, move between and leave; a seat's guard finds the seat
  wherever it is by then.
- `deduplicator`, `flight`: one flight per input; a flight lives while at least one caller is
  still waiting.
- `window`: the collection window, closed by distinct inputs or by its timer.
- `dispatch`: one closed window becomes one downstream call, and every waiter gets its reply.
- `limiter`: slots for parallel batches.
- `loader`, `pipe`: the channels between these parts, and the dispatcher that drains them.
- `liveness`: which callers still wait.
- `ledger`, `receipt`, `signal`, `gate`: the calls into channels and semaphores, each with the
  record of what was asked, sent or read.
- `source`: flights' access to their fetcher, with the record of what they asked for.
- `config`, `error`, `collector`, `fetcher`, `lock`: what the others share.

Each public function states what it returns and changes. What holds across functions is stated
by the public proof functions named `law_*`.

Reading a reply channel, counting listeners and reading an announced outcome depend on other
tasks. Nothing is promised of such a reading; it goes on record, the contract of the function
that made it speaks of the record, and where it helps a second function (`*_observed`,
`*_counted`) takes the reading as an argument.

`app/` shares that state between tasks: behind locks, on channels and timers, and awaited.

`tests/` runs the library.
