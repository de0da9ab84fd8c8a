# medea_rtc

A client that measures how many packets per second a media server passes on,
with the transport parts that the measurement exercises.

`src/` is the verified library. It holds no I/O: what a task would await comes
in as an event and leaves as an action.

| Module | What it holds |
| --- | --- |
| `buffer`, `buffer_laws` | packet buffer over a growing ring, and what a row of writes and reads does to it |
| `nack`, `nack_laws` | register of received packets, the NACK pairs that it asks for, and how often |
| `rtx_timer`, `rtx_laws` | retransmission timeouts and the runs of a retransmission timer |
| `signal` | messages between a member and the media server, and their JSON texts |
| `sfu_member`, `sfu_laws` | what a member does on each message, and how it answers an offer |
| `control` | what is asked of the media server to set up rooms and members |
| `marshal` | the payload and the header extension of a test packet |
| `pace` | how fast test packets are sent, and how the speed is reported |
| `error` | errors of the buffer |

`app/` runs the library: sockets, tasks, timers and the command line. The
round-trip time variation is floating point and is kept there as well.
Generating the control API of the media server needs `protoc`.
