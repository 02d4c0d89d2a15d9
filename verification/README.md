# jupyter_transport

The transport and session logic of a Jupyter kernel, written in Verus: ZMTP 3.1 framing and
handshake for the side that binds, the three kinds of sockets that a kernel has (REP for the
heartbeat, ROUTER for shell, control and stdin, PUB for iopub), the detection of interrupt
requests, and the bridge between scripts and the session that runs user code.

- `src/` is the library. It does no input or output: callers feed it bytes and events, and
  carry out what it returns. Every function states what it returns; functions whose names
  begin with `law_` state what holds across several of them.
- `app/` runs the library over TCP with tokio. The script engine and the graphics device
  are behind traits there.
- `tests/` runs the library on concrete values.

What is taken on trust from other crates stands in `octets.rs` (`bytes`), `json.rs`
(`serde_json`), `text.rs` (lossy UTF-8 decoding), `router.rs` (`rand`) and `texture.rs`
(`image`, `base64-simd`), each item with what is claimed of it.
