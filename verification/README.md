# dronekit

A ground station's side of a MAVLink connection to a vehicle, and a reader for the XML files that
MAVLink messages are defined in. The library is written in Verus: what each function does is stated in
its contract and proved.

* `src/` is the library. It does no input or output. `packet` frames messages and checks their
  checksums, `handler` reads messages out of a stream of bytes and tells watchers of them,
  `connection` numbers and sends commands, `parameters` and `vehicle` keep what is known of a vehicle
  and answer it. `definitions` and `reader` turn a definition file into enumerations and messages.
  Proof functions whose names begin with `law_` state what holds across functions.
* `app/` runs the library over a TCP socket and over files.
* `tests/` runs it on concrete values, together with the crates that it calls.

Parameter values are IEEE 754 singles; the library holds them by their bits.

What is taken on trust is marked `Trusted:` in the source: calls into `bit-vec`, `byteorder`, `crc16`,
`mavlink` and `xml-rs`, and `String::push`.
