# neutron

A folding scheme for constraint systems, verified with Verus. A running pair of a nested
sum-check relation and a fresh constraint system fold into one pair; a power check of the weights
folds along with it. There is a verifier of the fold outside a circuit and one inside. They are two
verifiers, not one: the one inside absorbs both round polynomials, where the one outside absorbs
their combination under a challenge of its own, so that each draws a folding challenge of its own,
and inside the commitments of the folded instances are passed through. SHA-256 circuits of
arkworks can be replayed as steps.

- `src/`: the library, over a scalar field and a commitment group; `bn254` gives both.
  - `nifs`, `zerofold_nifs`: the provers and the verifiers, for the main relation alone and
    together with the power check.
  - `sumcheck`, `relation`, `power_check_relation`, `weight_table`, `nested_sumcheck`,
    `nsc_conversion`: one round of sum-check, the two relations, and how fresh instances become
    instances of them.
  - `circuit`, `frontend`, `num`, `gadgets`, `ro_circuit`: the verifier inside a circuit, as
    constraints.
  - `arkworks`: circuits of arkworks, compiled and replayed.
  - `fold_laws`, `power_check_laws`, `zerofold_laws`, `round_laws`, `soundness_laws`,
    `root_laws`, `circuit::laws`: what holds of every fold. `primality` and `scalar_prime` show
    that the scalar field is a field.
- `app/`: serialized forms, and circuits that implement the traits of arkworks.
- `tests/`: tests on values, which also run the outside crates.

Functions of other crates stand behind small wrappers whose contracts are trusted; each names the
function that it calls.
