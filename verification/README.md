# ja_2026

Control core for a SparkFun Pro Mini (ATmega328P) driving an Eletechsup
IO22D08 board: eight relays that can be Off, On or blinking at a per-relay
speed, eight external inputs mapped to relay actions, four built-in buttons
that page a diagnostic display, and a four-digit seven-segment display.

The library in `src/` is written in Verus; every function with a body
carries a contract that Verus proves. The board trait `Io22d08Api` states
what a board does, as a record of the calls made on it and their effect;
the controller and the engine are proved against it, down to which board
calls a tick makes and in what order. `board::Io22d08Board`, which drives
the real board through a small pin trait, is verified to keep that record.
A board written in plain Rust (the tests' fakes) cannot keep it: the
record has defaults for such boards, and the proofs about the record say
nothing of them.

- `config` — counts, the speed table, the debounce threshold, Shift policy.
- `relay` — relay modes and the per-relay blink engine.
- `action` — semantic actions and their effect on the relay bank.
- `input` — debouncing, press edges, Shift and the input-to-action table.
- `debug` — diagnostic view navigation, modal speed and rendering.
- `board_api`, `board` — the board interface, its register-level logic
  (display buffer, relay port, shift-register frames) and the board that
  drives them through its pins.
- `wrapper` — the controller that runs one tick against a board.
- `engine`, `scene`, `scenes` — a tick engine with input modes and a
  scene framework (idle and rotating-relay scenes).

`app/` holds the firmware around the library: `main`, the pin wiring, the
refresh timer and the pins themselves.
