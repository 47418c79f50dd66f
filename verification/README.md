# kbism

The deterministic core of a nation-building kabaddi simulation: the player
develops the nation's daily life so that more people can practise, the
national team grows stronger, and the yearly world cup decides which
districts change hands.

## Layout

- `src/` is the verified library (Verus). It holds the parts of the game
  that are integer, string and sequence logic, each with a contract:
  - `calendar`, `clock`: the 360-day calendar, the annual budget and cup
    days, and how far a run of pending days goes before it stops.
  - `ids`, `world`, `defs`: identifiers and the vocabulary of the world and
    of the data files; the consistency check of the definitions.
  - `text`: string comparison, replacement, decimal numbers, and the
    sorted table of display strings with its templates.
  - `news`, `events`: the news log with its threads, searches and
    highlights; the log of issues with cooldowns and the rule for when an
    event may fire.
  - `policy`: the schedule of a project (procedure, construction that can
    stall, lead time, operation).
  - `order`, `cup`: the deterministic ranking used everywhere; the squad,
    stakes, final ranking and territory transfer of the cup.
  - `targets`: which targets an event is judged on.
  - `rng`, `hash`, `save`: the seeded random streams, the state hash and
    the save-format check.
- `tests/` exercises the library on concrete values.
- `app/` is ordinary Rust around the library: the headless runner and the
  simulation proper, whose quantities (money, minutes, ability, chance) are
  floating point. It loads the data files from an `assets/` directory.
