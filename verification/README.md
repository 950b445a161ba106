# h753zi_telemetry

Telemetry for an ST Nucleo-H753ZI that carries a u-blox ZOE-M8Q GNSS receiver
and a BNO08x IMU, written in [Verus](https://github.com/verus-lang/verus): what
each part does is stated in contracts and proved.

The board reads both sensors over I2C, keeps the latest readings, and sends
them over NNG as a fixed 69-byte frame: on request (REP0, port 5555) and as a
stream (PUB0, port 5556). A host polls the one or subscribes to the other.

| Module | Purpose |
|---|---|
| `wire` | the frame format, shared by board and host |
| `gnss`, `nmea`, `stream` | NMEA sentences, the polling of the receiver, and its stream as a whole |
| `shtp`, `imu`, `imu_task` | the IMU's transport, its reports, and its bring-up |
| `telemetry` | the store of latest readings, and its summary line |
| `nng_net`, `message` | frames of the store, requests, and the publisher |
| `net` | addresses, link monitor, TCP echo server, outbound probes |
| `host` | the host's side of polling and streaming |
| `clock`, `le`, `text` | ticks, little-endian numbers, text |

The library does no I/O and no floating point. Where the program has to wait
for something, the library is a state and what to do in it; `app/` does it and
reports back. Physical quantities stay what the sensors sent (decimal and
fixed-point numbers) and reach a frame as bit patterns made in
`app/quantities.rs`.

Proof functions named `law_*` state what holds across functions: that a frame
decodes to what was encoded, that a changed byte in a sentence is caught, that
a bring-up comes to an end, and the like.
