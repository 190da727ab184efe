# oxidesfu_media

The media logic of a selective forwarding unit, written in Verus: what is read of session
descriptions, which packets go to which subscriber and under which numbers, what is sent once
more, which layers are selected and when they are switched, what is told of streams and
connections.

- `src/` is the library. Every function states in its contract what it does, over mathematical
  views of its types, and every public proof function named `law_...` states what holds of several
  functions together.
- `tests/` runs the library on concrete values.
- `app/` is ordinary Rust around the library: shared stores and channels, conversions from and to
  the types of the transport and of the protocol, and what is computed with floating-point
  numbers.

Time is passed in as a number; the library reads no clock. Methods that cause something to be told
return it, or keep it until it is taken, so that the caller decides whom to tell.
