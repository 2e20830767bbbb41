# dufs

The decisions of a file server, with contracts that Verus proves: who may do what with which path,
which file or part of a file is sent, how directories are listed, searched and packed, what WebDAV
clients are told, and how the passwords of directories are given, checked, moved and forgotten.

- `src/` is the library. `handle.rs` takes a request from event to event to what is done with it;
  `transfer.rs` does the same for copies and moves. `send_file.rs`, `listing.rs`, `sorting.rs`,
  `pages.rs`, `clipboard.rs` and `webdav.rs` make the replies. `directory_auth.rs` and
  `directory_search.rs` keep the passwords of directories. `outside.rs` holds every call into another
  crate, with what is believed of it.
- Proof functions whose names begin with `law_` state what holds of all requests and all states.
- `app/` reads requests, files and directories, asks the library, and sends what it decides. What the
  surrounding program provides (accounts, addresses, patterns, its pages) is the trait in `host.rs`.
- `tests/` runs the library on concrete values.
