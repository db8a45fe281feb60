# netlabs

A collection of small networking tools whose logic is written in Verus and
proved against its contracts, with thin command-line front ends around it.

- `src/` is the verified library. Each module holds the data, parsers and
  decisions of one tool, with contracts stated over mathematical views
  (`Seq`, `Map`, spec functions), and the laws that relate its operations as
  public proof functions:
  - `products`, `shop`: the product catalogue and image store, and the
    requests of the catalogue service;
  - `pool`, `http`: the connection limit, request line and answer head of a
    file server, and where its client finds the body;
  - `proxy`: blacklist, request rewriting and the cache table of a proxy;
  - `mail`, `letter`: mailboxes, headers, SMTP commands, attachments, the
    multipart framing and streaming base64 lines of a mail;
  - `shell`, `ftp`: command lines of a remote shell, settings of an FTP client;
  - `ping_stats`, `clients`: ping statistics on the client, report tracking
    on the server;
  - `segment`, `rdt`: segments with checksums and the alternating-bit protocol;
  - `interfaces`, `scanning`, `licensed`: interface selection, port scan
    reports, and the message table of peers on a subnet;
  - `message_types`, `control`, `echo`, `trace`, `traceroute`: ICMP messages,
    their checksum, and the decisions of ping and traceroute;
  - `drawing`: strokes on a shared canvas;
  - `speed`: the header and counters of a throughput test;
  - `words`, `text`, `endian`, `uuids`: big-endian words, decimal text, byte
    order, and the text form of a UUID.
- `tests/` exercise the library on concrete values.
- `app/` holds the command-line programs: argument handling, sockets,
  files, threads and timers, calling the library for every decision. It
  runs the file server and client, the remote shell, the mail client, ping
  over UDP and over ICMP, the reliable-transfer client and server, the
  interface and port scanner, the subnet peers, traceroute and the speed
  test. The product catalogue server, the proxy server, the FTP client and
  the shared canvas are not among them: they are built on web, HTTP-client,
  GUI and serialisation frameworks that this crate does not depend on, so
  only their logic is here, in `src/`.

Calls into outside crates (`base64`, `chrono`, `httparse`, `httpdate`,
`rand`, `uuid`) stand behind small wrappers whose contracts are trusted; each
names the function it calls and what it claims of it.
