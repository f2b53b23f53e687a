# asimov-ftp-module

Catalogs and fetches files from FTP servers, with the logic verified by Verus.

- `src/` is the library. It groups URLs by the host that they name, reads the replies to `MLST`,
  `MLSD` and `LIST`, decides which command comes next, and makes metadata of what was read.
- `app/` is the program: it takes the command line, talks to the servers and prints. Called as
  `asimov-ftp-fetcher` it writes files out, otherwise it catalogs them.
- `tests/` runs the library on concrete values, with the outside crates linked.

A listing is a sequence of steps. `list` begins it; `Listing::on_mlst` takes the reply to `MLST`
and gives the result or a listing that waits for the next reply, which `DirectoryListing::on_mlsd`
or `PlainListing::on_list` takes.

What is believed without proof stands behind functions marked `external_body` and behind
`assume_specification` items, each with a comment that says what is claimed:

- `iri.rs`: the grammar and the resolution of IRIs, by the crate `iri-string`;
- `list_line.rs`: the lines of `LIST` replies, by the crate `suppaftp`;
- `error.rs`: the status in a failed command's response, by the crate `suppaftp`;
- `time.rs`: times, by the crate `jiff`;
- `text.rs`: trimming, lower case, numbers and growing a text, by the standard library.

`Cargo.toml` names `asimov-env`, which no code here uses, only to hold this dependency of
`asimov-module` at the release that goes with it.
