# aivpn_client

The local side of a VPN client, verified with Verus: the recording commands and
the network device of the proxy.

- `src/` is the library. `addr` holds socket addresses and their text form,
  `admin` the admin socket (which addresses are tried, how it is bound, how a
  command finds it), `token` the token that commands are authenticated with,
  `files` the places of files and how private ones are made, `status` the status
  of a recording and what is printed of it, `device` the queues between tunnel and
  IP stack, and `text` what the others need of text and numbers.
- `app/` is ordinary Rust around it: sockets, files, JSON, the terminal, the log
  and the traits of the IP stack.
- `tests/` runs the library.

The library does no input or output. What is to be done to the file system is a
list of actions, what is to be printed a list of lines, and binding the admin
socket a sequence of steps that is told what came of each attempt.
