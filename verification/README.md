# cardamon

The decisions of a monitor for the energy use and carbon emissions of running applications,
written in Verus and proved against their contracts.

- `graph`, `ordering`: the start order of processes that depend on each other. `ordering` holds the
  mathematics, with the laws of the order.
- `runner`, `execution_plan`, `config`: the run of a plan, from its first process to its mode.
- `execution_modes`: the end of a run; `execution_modes::live_monitor` and
  `execution_modes::daemon`: two of the modes.
- `database`: how a connection to the database is made.
- `capture`: the removal of output captured by earlier runs.
- `records`: the rows of the database. `text`, `console`: what the user reads. `clock`: the time.

What takes turns with the outside world is a state machine: a `step` takes the outcome of the last
action and returns the next one. The contract of each `step` is a spec function from state and event
to state and action, and the laws are stated over it. Quantities that are only carried along, such
as a carbon intensity, are type parameters.

Three functions are trusted, in `clock` and `console`: they call `chrono` for the time and `colored`
for colours.

`app/` does what the library decides, with `sea_orm`, `axum` and `tokio`. A program that embeds it
brings its processes, metrics and models as an implementation of `Services`.
