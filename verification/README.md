# flashback

The decision and data logic of Flashback, a game-clip recorder for Windows
(Instant Replay and manual recording, a local clip library, game detection and game
artwork), written as a Verus library: each public function states its contract
(what it needs and what it gives back), and Verus proves it.

## Layout

- `src/` — the verified library:
  - `detect`, `artwork`, `image`: which game is played, its artwork and `data:` URLs;
  - `media`, `h264`, `replay`, `session`, `recording`: the capture pipeline's rules,
    the Instant Replay ring buffer and the timelines of a saved clip;
  - `pump`: what the replay encoder's pump feeds each round (slots, times, credits);
  - `audio`, `devices`: audio formats, the mixer's clock, and the choice of encoder,
    window and monitor;
  - `library`: MP4 durations (a box scan driven one read at a time), the clip order
    and file names;
  - `text`: the string operations the rest is specified with.
- `tests/` — tests of the library on concrete values.
- `app/` — ordinary Rust around the library: downloads (`reqwest`), files, JSON
  (`serde`), and the floating-point audio paths.

Outside crates the library calls (`base64`, `urlencoding`) and the parts of `std` it
uses without a Verus specification are reached through small trusted wrappers whose
contracts state what those functions document.
