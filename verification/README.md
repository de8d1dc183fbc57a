# bevy_utility_ai

A utility-AI decision engine for Bevy. An AI is a set of decisions; each
decision is scored from the considerations (inputs) it names, and the best
scoring decision becomes the entity's current action.

- `src/` is the verified library: decisions, considerations and their
  filters, the definition of an AI and the inputs it needs, the choice of the
  best decision and the change of action, the plan that applies a change to an
  entity, and the reading of input-function signatures for the attribute
  macros. Scores are held as the bit patterns of their `f32` values and ranked
  as `f32::total_cmp` ranks them.
- `app/` is the Bevy side: components, resources, systems, the plugin, the
  response curves (floating point), and the code generation of the macros.
- `tests/` runs the library on concrete values.
