# RS-LinkFusion

A tunnel over several network interfaces that are bonded into one logical
connection. Payloads are compressed, encrypted and framed. `serve` and
`connect` forward one TCP port; `gateway-serve` and `gateway-connect` carry all
IP traffic through a virtual network device, with an optional rate limit for
chosen services.

## Layout

- `src/` is the library, verified with Verus.
  - `accel`: compression and encryption of payloads
  - `framed`: length-prefixed frames and the reader of a byte stream
  - `relay`: the port relay and the client that connects again
  - `tun_gateway`: what becomes of an IP packet in the gateway
  - `qos`, `limiter`, `packet`, `dns`, `text`: which traffic is limited, and how
  - `hex`: keys as text
  - `speedtest`, `gui`: what the user is shown of speed measurements
- `tests/` runs the library on concrete values.
- `app/` is the program around it: command line, sockets, devices, files and
  the window.

## What is trusted

The library calls `flate2`, `chacha20poly1305`, `rand` and `simple_dns` through
small functions marked `external_body`, and `str::to_lowercase` and
`String::push` of std through assumed specifications. The comment above each
says what is claimed of it. Everything else is proved. The window, the sockets
and the devices are those of `eframe`, `tokio`, `aggligator` and `tun-rs`, in
`app/` only.

Times are nanoseconds on a monotonic clock and rates are whole bits per second,
so that the token bucket is exact integer arithmetic.
