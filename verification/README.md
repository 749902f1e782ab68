# rumoca

Verified core of a Modelica compiler, written in Verus.

- `src/ir`: qualified names, component paths, modification environments and
  instance data.
- `src/instantiate`: from a tree of classes to the instances of one model, with
  modifications, records, arrays of components, the sections of each class,
  `inner`/`outer` and depth and cycle checks.
- `src/expr`, `src/dae`: expressions, the flat DAE, array shapes, canonical
  conditions, relation memory and the lowering of `pre`, `edge`, `change`,
  `previous` and `sample`.
- `src/solve`: register and input checks of solve rows, their evaluation step by
  step, blocks, events, trajectories and training runs.
- `src/codegen`: MLIR, C, JAX and CasADi text for matrix products and linear
  solves, slot assignments and template rendering.
- `src/session`: documents, source sets, revisions, snapshots, summary queries and
  semantic tokens.

Numbers stay bit patterns in the library. Whatever needs floating-point
arithmetic is handed out as a request, and `app/` computes it and hands the
result back; `app/` also holds the JSON form of the DAE and the bindings to the
template engine.

Each public function states its result exactly. The functions named `law_..`
state what holds across functions, for instance that no `pre` is left in a lowered
model, that an outer modification wins over an inner one, that root modifications
decide values, attributes, dimensions and conditions whether or not inner components
are made up, or that a row with valid register flow runs the same with and without
register checks.

What instantiation evaluates, and what it is given:

- Conditions, dimensions, declared values of parameters, what a component says of
  what is inside it, and the conditions, ranges and subscripts of connections are
  evaluated in each instance, under the modifications that hold there. The evaluator
  knows integers and truth values: literals, operators, `if`, and references. A
  reference is the index of a loop, else what a modification says of it, else what the
  class declares of it, else, in a connection, the value of a parameter that is
  already instantiated. What it does not know stays as it is written; a component
  with such a condition is there, an array with such a dimension has the dimensions
  that are given beside it, and a connection that depends on it is refused.
- A class comes with what it inherits: its components and sections hold those of its
  bases, and the bases are named for the sake of subtypes and of the attributes that
  types give. A replaced class comes as its definition and that of its replacement.
- The sections of a class are plain equations, assignments and connections, the
  latter under conditions and in loops as they are written.

Templates are rendered where their tags hold names, filters without arguments and
comparisons, and all tags together no more than 1024 characters; others are refused,
because the engine panics on some of them and runs out of stack on others. `app/` runs
whole templates.
