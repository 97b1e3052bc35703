# croncat

Scheduling and rule evaluation for recurring tasks on a CosmWasm chain,
written in Verus.

- `src/` is the verified library:
  - `types`, `slots`: when a task with a given interval (`Once`, `Immediate`,
    `Block(n)`, `Cron(expr)`) is next due within a window of block heights or
    times, with the laws of that computation;
  - `cron`: the calls into the `cron_schedule` parser, and the checks that
    keep them off the inputs on which the parser or its search panics;
  - `balance`: whether a balance meets a required one;
  - `json`, `rules`: parsing a contract's JSON answer, reading a value out
    of it along a path, comparing it, and checking a list of rules in order;
  - `contract`: the responses of the rules contract.
- `app/` holds the contract's entry points: the chain queries, storage and
  serialisation around the library.
- `tests/` runs the library on concrete inputs.
