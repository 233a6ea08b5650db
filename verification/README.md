# rustdds

The transport core of a DDS participant over UDP, verified with Verus.

* `src/structure` - identifiers, sequence numbers, times, locators, a sorted map, and what
  is taken on trust of the `bytes` and `bit_vec` crates.
* `src/rtps` - the writer and what it tracks of its readers, the send buffer with its flow
  control, fragmentation and reassembly, choice of routes, and the decisions of the event
  loop.
* `src/network` - interfaces, addresses, and the queues in front of the sockets.
* `src/dds` - policies, participants, publishers, subscribers and data writers.
* `app` - sockets, threads, timers and futures around the library.

Nothing in `src` waits, reads a clock or touches a socket. Functions take what happened and
return what is to be done; `app` does it.

The functions named `law_...` state what holds across several operations: that a sample
that is cut into fragments is put together again as it was, that no waiter is forgotten,
that a repair comes to an end, and the like.
