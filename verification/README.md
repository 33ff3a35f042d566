# last-tftp

A TFTP client and server, verified with Verus.

- `src/` is the library: packets and their encoding, option negotiation, the
  state machines of clients and servers, the choice of files and addresses, and
  what the desktop window shows. It holds no sockets, files or clocks.
- `app/` is the program around it: the command line, the network, the file
  system and the window.
- `tests/` runs the library.

## Modules

| Module | Content |
|--------|---------|
| `packet`, `opcode`, `wire` | packets, and what they are as bytes |
| `options` | transfer options and the parameters that they settle |
| `error` | error codes and errors |
| `session` | client configuration and the account of a transfer |
| `transfer` | receiving, retrying, `HOST:FILE` targets |
| `peer` | addresses of the other side |
| `client` | requests, negotiation, reading and writing a file |
| `server` | plans, answers, serving and taking a file |
| `blocks` | how a file is cut into blocks, numbered, and put into windows |
| `sender` | sending blocks in windows, and again until they are acknowledged |
| `exchange` | what holds when a client and a server of this crate talk |
| `path` | which file a request may name |
| `commands`, `gui` | what the command line means and what the window shows |
| `text` | numbers in text, and the order of strings |

## What is proved

Every function has a contract that says what it returns. Beyond that, among
others:

- a packet whose texts hold no NUL reads back from its bytes as itself;
- client and server settle on the same parameters, all within their ranges;
- whatever is lost, repeated or reordered on the way, a file that was received
  as complete is the file that was sent (in a file of 65536 blocks or more, where
  numbers recur, as long as each block that comes is fewer than 65536 blocks away
  from the one that is due);
- over a channel that loses nothing, a file of any length arrives whole, and
  neither side ever waits for the other in vain;
- whatever was lost, when the blocks that are not acknowledged are sent again
  and come, the other side has them all, and its answer frees them;
- a server to which nothing comes back sends again, waits twice as long each
  time, and gives up after six attempts;
- a path outside the served directory is denied.

The `bytes` crate and parts of the standard library are relied on through the
declarations in `src/wire.rs`.
