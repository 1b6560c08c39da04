# passhrs

An SSH automation client with the command line of OpenSSH, built around a
verified library.

- `src/` is the library. Everything in it is verified with Verus: each function
  states in its contract what it returns or changes, and the laws at the end of
  the modules state what holds across functions.
- `app/` is the program: argument handling, files, sockets and the SSH
  connection itself. It asks the library what to do and does it.
- `tests/` runs the library on concrete values.

| Module | What it holds |
|:--|:--|
| `text`, `number`, `address` | searching, splitting and trimming text; decimal numbers; IP addresses |
| `cli`, `paths` | the command line, destinations, forwarding specs, options, paths |
| `config`, `includes` | configuration files, the files they name, and how both join the command line |
| `globs` | whether glob patterns compile, and what they match |
| `plan` | what a run consists of: target, options, forwards, transfers, session |
| `exec` | the command line for the remote shell |
| `ssh`, `escape` | host keys, authentication, exit codes, escape sequences |
| `relay`, `proxy` | carrying bytes; SOCKS5 and HTTP CONNECT |
| `control` | sharing a connection over a control socket |
| `sync`, `walk`, `delta` | synchronizing directories, going through them, sending only what changed |
| `trees` | what listing and copying whole trees comes to |
| `query`, `report` | listing algorithms; errors in one line |

What the library takes from outside crates stands behind a few trusted
functions, each with a comment that says what is claimed of the outside
function and what is not.
