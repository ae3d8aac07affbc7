# sakura_core

The core of a Japanese input method, written in Rust and verified with Verus. It turns
keys into kana, looks words up in a compiled dictionary, offers other ways to write a
word, and keeps what the user has set. Every function states in its contract what it
returns for every input, and Verus proves it.

## Layout

- `src/` is the verified library. Its modules hold the executable code beside the
  models that the contracts speak of. What holds of several functions together is
  stated in the public proof functions of the `laws` modules.
- `tests/` runs the library on concrete values.
- `app/` is ordinary Rust around the library: the detection of vector instructions,
  and the faults of the library as errors of the standard library.

## Trust

The library calls five functions of the standard library that Verus has no
specification for. Each stands behind one function of `src/strings.rs`, with the
contract that is believed of it: `String::push`, `String::pop`, `core::str::from_utf8`,
`char::from_u32`, and the `Debug` form of a text.
