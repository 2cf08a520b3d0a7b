# taxi

The taxi problem of reinforcement learning: a taxi on a walled grid picks up a
passenger at one named location and drops it off at another. The crate reads
worlds from their box-drawn text, draws worlds and states, applies actions, numbers
states, and holds the discrete parts of several learners (the condition, effect and
reward learners of DOORMax, the task hierarchy of MaxQ, the model layout of factored
R-max).

Layout:

- `src/` is the library, verified with Verus. Its contracts state what each function
  returns over spec functions of the text format (`world.rs`, `text.rs`), of states
  (`state.rs`), of the state numbering (`state_indexer.rs`) and of the learners
  (`doormax/`, `maxq/`, `factoredrmax.rs`). Laws that relate several functions are
  public proof functions, such as `drawing::lemma_display_reads_back` (a drawn world
  reads back as itself) or `state_indexer::lemma_state_of_index` (a state's number
  gives the state back).
- Conditions and hypotheses of DOORMax are arrays of seven entries indexed by
  `Term::index`. A map keyed by `Term` from the `enum_map` crate would need that
  crate's `Enum` derive on `Term`, which verified code cannot carry, and no other
  crate may implement `enum_map`'s trait for the library's `Term`.
- A training session can be run with a record of its trials
  (`runner::run_recorded_training_session`): its result is stated as a function of
  what each trial's learning reported and whether the probes were solved.
- `tests/` runs the library on concrete worlds.
- `app/` is the command-line program: it reads a TOML configuration, trains the
  learners whose values are floating-point numbers (Q-learning, R-max, factored
  R-max, MaxQ, DOORMax) in parallel sessions and replays an attempt in the terminal.
