# Stripe Subscriber Role

Discord roles for Stripe subscribers. A member is found by the Discord id that
their Stripe records carry, their records are put together to facts, and a rule
over the facts decides who has the role.

The library in `src/` is verified with Verus. It holds what is decided and
computed; what reads and writes stands in `app/`.

| Module | What it is about |
|---|---|
| `models` | conditions, rules, facts, and the stored form of a rule |
| `services::condition_eval` | whether a rule admits a member |
| `services::rule_sql`, `services::parameters` | the same rule as the WHERE clause of a query, and its parameters |
| `services::ingest` | which member a Stripe record belongs to |
| `services::stripe_wire`, `services::stripe` | Stripe's objects, lists, charges and signed webhooks |
| `services::member_facts` | a member's records as facts |
| `services::sync` | who gets and who loses a role |
| `services::crypto`, `services::session` | encryption at rest and the session cookie |
| `tasks::reconcile` | the import of an account |
| `tasks::import`, `tasks::columns` | what an import leaves behind |
| `routes` | what the routes decide and answer |

The remaining modules are what these are built on: strings, numerals, bytes,
digests, points in time, JSON, ordered lists and maps with strings as keys.

## What is proved

Every function of the library states what it returns, and when it fails. Beyond
single functions, among others:

* the clause of a rule whose literals are of the right type, and that has no
  regular expression, selects the members that the rule admits, and its
  parameters are numbered in order;
* carried out, a plan of role changes leaves a member with exactly the roles that
  they have earned;
* a webhook with Stripe's signature is accepted within the tolerance, and nothing
  comes of one without;
* what was encrypted is decrypted, what was stored as a rule is read as that
  rule, and a minted session speaks of the person it was minted for;
* the records that link a member are believed in their order;
* to import an account again, with the same answers from Stripe, changes neither
  its records nor the facts of its members.

## What is trusted

A function marked `#[verifier::external_body]` calls another crate or the
standard library, and its contract says what is believed of the call: the
ciphers and digests, regular expressions, the JSON parser, percent-encoding,
hexadecimal, the clock, and a few functions on strings. Where a result takes
pages to state it only has a name.

## Layout

* `src/`: the library
* `tests/`: its tests
* `app/`: the database, the routes, the calls to Stripe and the background work.
  The services of the platform (its gateway, role service, dashboard and job
  queue) come in through the trait `Platform`, the page templates and the
  migrations as texts.
