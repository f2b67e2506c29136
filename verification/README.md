# fleet-crdt

Constraint-native merge of replicated fleet state, verified with Verus.

Each agent holds a vector of `i64` values and a list of pairwise bounds
`|values[a] - values[b]| <= max_diff`. Where two agents disagree on an index, a merge

1. counts how many local constraints each candidate keeps when it alone is put into the
   local values as they were before the merge,
2. takes the candidate that keeps more,
3. takes the mean, rounded half away from zero, where both keep equally many and at least one,
4. keeps the local value where neither keeps any.

Indices that only one side has carry over, and the constraints of both sides are united.

## Layout

| Module | Contents |
|---|---|
| `constraint` | `Constraint`, when it holds, how many hold |
| `average` | the rounded mean, exact over all of `i64` |
| `text` | decimal text for messages and the display form |
| `state` | `ConstraintState`, `MergeResult`, `MergeLog` and their views |
| `model` | what every operation means, over mathematical values |
| `node` | `CrdtNode`, the executable node, verified against `model` |
| `settlement` | laws of settling one disagreement |
| `laws` | laws of nodes, logs, constraints and merges |
| `convergence` | what survives a merge, and when agents agree |

## What to expect of a merge

- Settling index by index does not solve constraints that span several conflicting
  indices. From a state that keeps all its constraints, no local bound is exceeded by more
  than one; with a single conflict, none is exceeded at all.
- A tie between candidates that keep *different* constraints goes to the mean, which may
  keep neither.
- The log grows with every merge.
