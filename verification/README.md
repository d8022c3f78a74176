# see_k

Typed message lanes over one QUIC connection. `seek!(Command, Reply)` gives an
application a server and a client kernel and, for each connection, a handle with
one mailbox in and one out for each message type.

`src/` is the verified library. It performs no I/O: every part of the protocol
that waits is a state machine that says what to wait for and what to do next.

| module | what it holds |
| --- | --- |
| `wire` | the frame format and the bounded frame reader |
| `manifest` | the protocol header and the ordered list of type names |
| `handshake` | the setup of a connection, on both ends |
| `codec` | the limits on message bodies |
| `lane` | the receiving and the sending direction of a lane |
| `connection` | public status, connection guard, supervision of a session |
| `kernel` | the server and the client loop |
| `plan` | the lanes and names that a `seek!` call expands to |
| `error`, `text` | errors and their texts |

What the library promises as a whole stands beside the code as public proof
functions whose names begin with `law_`.

`app/` is ordinary Rust: the expansion of `seek!`, and the runtime on `tokio`,
`quinn` and `bincode` that drives the state machines.
