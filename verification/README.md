# storage

Buffers for a network stack, verified with Verus.

- `ring_buffer_sync`: a ring buffer over owned or borrowed slots, with a continuous, a discrete and
  a random access interface. `ring_state` holds its mathematical model, `ring_laws` what holds of
  every ring buffer, `managed_storage` the slots, and `bundled_counters` the two counters that
  decide which slots belong to the writer and which to the reader.
  `formatting` holds what is needed to write text about it.
- `socket_buffer_receiver`: the receiving end of a socket's receive buffer.
- `fixed_buffer`: a byte buffer of fixed size.
- `channel_buffer`: the two ends of a channel that carries packet buffers.

`app/` shares a ring buffer between a writer thread and a reader thread without a lock, and puts a
socket's receiving end over it. It goes by `bundled_counters` and `ReceiveHalf`;
`ring_laws::law_writer_and_reader_apart` is why the two threads never meet in a slot.
