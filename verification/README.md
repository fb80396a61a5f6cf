# Zerker Reason

A deterministic reasoning kernel for governed evidence, written in Verus.
It checks a query against typed facts and rules with four-state truth
(proved, disproved, inconsistent, unknown), admits facts only by an explicit
authority policy and a temporal snapshot, emits proof DAGs that an
independent verifier replays, authorizes exact tool calls against a mission,
compiles release evidence into such authorizations, and locks organization
policy sources into digest-committed bundles.

## Layout

- `src/` is the verified library. Every function carries a contract that
  Verus proves; calls into outside crates (SHA-256, UTC time, Unicode
  normalization, JSON number rendering) sit behind small trusted wrappers
  whose contracts are documented beside them.
  - `json`, `text`, `collections`, `digest`, `timestamp`: values, strings,
    ordered maps and sets, digests, canonical timestamps.
  - `model`, `validate`, `program`: programs, atoms, and their validation.
  - `temporal`, `report`, `engine`, `reasoning`: authority and temporal
    admission, matching, forward chaining, and `check`.
  - `certificate`, `checker`, `compare`: proof DAGs and their independent
    verification.
  - `action`, `release`, `policy`, `policy_bundle`, `sources`: action
    authorization, release authorization, policy sources, policy bundles,
    and the decisions taken on what reading a source observed.
  - `render`, `result_json`, `input`: text and JSON renderings and bounded
    input decoding.
  - `laws`: properties that relate several functions (soundness and
    completeness of proof verification, what an authorization binds, what
    an authorized release rests on).
  - `determinism`: a valid program has one check result; `check` states
    which proof, disproof, missing premises and counts it returns as spec
    functions of the program, and two such results serialize alike.
- `tests/` exercises the library on concrete values.
- `app/` is the command-line program: argument parsing, files, strict JSON
  decoding, and output; it also reads policy sources beneath a root
  directory without following links and hands what it saw to `sources`.
