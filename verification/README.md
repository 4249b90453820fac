# audioserve

The rules of an audio streaming server as a verified library, and the program around it.

- `src/` is the library. It holds plain values and decisions over them: the folders of a
  collection and the positions in them, what changes of the file system mean for them, which
  request gets which answer, which part of a file is sent, and what devices tell each other. Every
  function states what it returns, and Verus proves it.
- `app/` is the program: it lists directories, keeps rows on disk, listens for requests and
  carries out what the library decides.
- `tests/` runs the library on examples.

Where the library calls another crate, the call stands in a small function whose doc comment says
what is taken for granted of it.
