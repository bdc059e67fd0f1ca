# rs_proxy

A SOCKS5 proxy in two halves: a local client that accepts SOCKS5
connections, and a remote server that opens the targets they name. Traffic
between the two goes either as one RC4-encrypted tunnel per connection
(`tcp`) or as channels multiplexed over a few RC4-encrypted connections
(`tcpmux`).

## Layout

- `src/` is the verified library (Verus). It holds the wire formats and
  their round-trip laws (`wire`, `commons::tcpmux_comm`, `commons::tcp_mux`,
  `message`), the RC4 framing of a multiplexed stream (`cipher`, `MsgWriter`,
  `MsgReader`), the SOCKS5 request parser and replies (`client::socks5`,
  `socks5`), the tunnel handshake (`client::tcp_client`), and the
  bookkeeping of channels and of the connection pool
  (`client::tcpmux_client`, `server`).
- `app/` is the program around it: configuration, logging, sockets, tasks and
  the loops that move bytes. It calls the library for every decision.
- `tests/` runs the library on concrete values.

## Usage

```shell script
./rs-proxy server server-config.yaml
./rs-proxy client client-config.yaml
```
