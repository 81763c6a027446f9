# ipp-duplexd

A virtual IPP printer that turns any simplex printer into a manual duplex
printer. Print to it; it prints the odd pages on the real printer, stops until
the stack is flipped, and then prints the even pages in reverse order on the
backs. `ipp-duplexd-setup` sets it up as a user service and a CUPS queue.

## Layout

- `src/` is the library: messages and their bytes, HTTP heads and bodies, the
  table of jobs and what is answered about it, the attributes that the virtual
  printer shows, the way of a job from its document to the printed stack, and the
  decisions of the setup. Every function states in a contract what it computes,
  and Verus proves it. `src/duplex.rs`, `src/exchange.rs` and `src/wire.rs`, and
  the end of most other modules, state and prove what holds of the library as a
  whole.
- `app/` is the daemon and the setup program: connections, threads, files, qpdf
  and the other programs. It carries out what the library decides.
- `tests/` runs the library on concrete values, and whole jobs from a client to
  a mock printer.

## What is proved

- Messages survive encoding and decoding, unknown attributes included; requests
  and responses are read as they were written.
- The odd pass holds the odd pages, the even pass the even pages from the back;
  with the blank page leading, every sheet gets the right back side.
- Jobs are listed by ascending ids, whatever happened to them.
- The even pass waits for the flip; a job never goes back; a canceled job stays
  canceled; a failure aborts the job; a printer that is out of reach is waited
  for.
- The virtual printer shows its own identity and the real printer's state and
  everything else; only a job that waits for the flip, or a printer that is out
  of reach, changes the state that is shown.

What the proofs rest on besides Verus: four functions of the standard library,
named in `src/text.rs`, and that qpdf does what `src/pages.rs` says of its page
ranges.
