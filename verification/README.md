# pixel_walker

A host program steers a walker on a small board with a 128 x 80 grey-level
display. The host reads commands typed by the user (`walk N`, `step`,
`switch`, `reset`, `exit`), encodes them as packages and sends them over a
serial line in CRC-8 checked frames; the board receives the frames byte by
byte, handles the packages, draws the walker's path or its step counter,
and answers with a line of text.

`src/` is the verified library, checked by Verus:

- `crc` — CRC-8 (polynomial 0x07) and the proof that it detects every
  single corrupted byte;
- `frame` — frame encoding and the receiving state machine, with the
  proofs that a frame is delivered as sent, and that a corrupted or a
  dropped payload byte is reported instead;
- `uart_buffer` — the interrupt receive ring buffer, a FIFO queue of at
  most 127 bytes;
- `protocol` — directions, commands and packages;
- `cli` — reading a typed command line into a request;
- `screen` — the frame buffer model and the bus operations that put it on
  the panel;
- `command` — the walker's state and what each package does to it and to
  the display;
- `bounded` — the fixed-capacity vectors of `heapless` that the walker's log
  and digit lists live in.

`app/` holds what Verus does not see: the host's main loop and terminal
output, the postcard encoding of packages, and the board's drivers for the
serial port and the display, its interrupt-safe mutex and its main loop.

`tests/` runs the library on concrete inputs.
