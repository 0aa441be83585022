# argus

A voice-driven assistant for developers: it listens for its name, routes
spoken commands ("kill port eighty eighty", "open site github", "close
slack", ...) to actions on the machine, and shows a terminal dashboard of
listening development servers and the command log.

- `src/` is the verified library: text primitives (`text`), spoken ports
  and bookmarks (`mappers`, `config`), command routing (`router`), the
  recognizer's word list (`grammar`), the wake/endpointing state machine
  (`listener`), the dashboard's state and port table (`dashboard`) and
  memory arithmetic (`telemetry`).
- `app/` is the program around it: microphone capture and speech
  recognition, running the actions, reading files, and drawing the
  dashboard. `argus` starts both parts; `argus voice` and `argus tui` start
  one each.
- `tests/` runs the library on concrete inputs.
