# experiment_buckets

The rules by which experiments share traffic, written in Verus.

An experiment group has a row of 100 buckets. A request is hashed into one of
them and is served the variant that the bucket belongs to. The crate proves how
buckets move when an experiment is ramped, who may be a member of a group, and
which variants a request is served.

- `src/` is the library.
  - `model`, `error`, `text`, `json`, `lists`, `slots`: data, refusals, and the
    vocabulary of the contracts.
  - `allocation`: the buckets that variants are to hold, and how a row is brought
    there. `allocation_laws` and `target_laws` state what holds of it.
  - `members`, `groups`: who joins and leaves a group, and groups that belong to a
    single experiment. `member_laws` states what holds of members.
  - `experiment`: which variants a request is served. `serving_laws` states what
    holds of them.
  - `ramp`, `cache`: what the ramp form shows and what is cached.
- `tests/` runs the library on concrete values.
- `app/` is the service around it: database, cache, client and form. It builds
  inside the platform's workspace, next to `superposition_types`, `service_utils`,
  `superposition_macros`, `experimentation_platform` and `frontend`.

What the library takes from `serde_json`, `chrono` and the standard library
without proof stands in `json::object_is_empty`, `json::clone_object`,
`cache::rfc2822_text` and `experiment::hash_pair`.
