# canweeb

A multi-path mesh communication daemon for robotics boards (Raspberry Pi,
microcontrollers, Ubuntu servers), together with its board-control library
(GPIO, PWM, analog I/O, serial, an Arduino-style API) and a small program
daemon (`cmdlibd`).

The library is written in Verus, which proves each function in `src/`
against its contract and free of overflow and panics.

- `src/` — the library: the wire protocol and delivery targets, the message
  store and its de-duplication window, the mesh decisions (which link carries
  a message, what is forwarded, kept or dropped, link quality), the status
  report, the Wi-Fi decisions, the simulated and the real board backends, the
  Arduino-style API, child programs, the program daemon's request handling and
  the terminal panels' key handling.
- `app/` — the program around it: sockets, files, child processes, terminals,
  the HTTP server, timers, and the serde formats of the library's types.
- `tests/` — tests of the library.
