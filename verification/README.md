# tauri-plugin-localhost

Serves an application's assets through a server on localhost.

- `src/` decides what each request is answered with. It is verified with Verus and performs
  no input or output.
- `app/` is the Tauri plugin: the accept loop, the disk, the embedded assets, the threads.
- `tests/` runs the library.

`exchange` is the place to start: an exchange asks for one action after the other until it has
its answer, and `exchange_ends_with_the_answer` states what that answer is.

A local HTTP server is open to every program on the machine. Only use it when you understand
the implications.
