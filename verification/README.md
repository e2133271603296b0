# day-piece-lottie

A Day piece that plays bundled Lottie animations, with its headless half verified in Verus.

- `src/` is the verified library. `model` reads a Lottie document (through serde_json) into its
  top-level facts, layers, assets and markers, keeping every number as the shortest decimal of
  the float serde_json reads it as, and `verify` lists what a player would refuse. `number` holds those
  decimals exactly,
  `report` the sentences that name layer types, read errors and issues, `summary` the one-line
  layer count, and `web` the query string and JavaScript calls that the web-view player's page is
  handed, and when to stop waiting for the page. `laws` states what holds across functions.
- `app/` is the piece itself: the `lottie()` builder, the native renderers on iOS and Android,
  the web-view arm that reads the animation file and talks to the page, and the frame counts and
  durations in floating point.
- `tests/` runs the library on concrete documents and texts.
