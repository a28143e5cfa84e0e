# webdesk

A web desktop for Linux servers: sign in through PAM, open a terminal, and
install a fixed catalog of applications -- containers, host services and
Flatpaks drawn on the host -- each opened in a window of the desk.

The decisions are a library verified with Verus; the server around it is
ordinary Rust.

## Layout

- `src/` -- the verified library.
  - `catalog` -- the applications this build can install, and the rules every
    entry keeps (one kind each, safe slugs, no engine socket, ...), proved of
    the shipping list.
  - `apps` -- the book of installed apps, what a browser's answers may set,
    where a directory may be mounted from, the port allocator, and the plan
    for each kind of install, start, stop, removal, open and close.
  - `engine` -- the container engine's command lines: loopback-only ports,
    labels, relabelling rules, the render node.
  - `proxy` -- what happens to each header between the browser and an app:
    the session cookie kept back, cookies pinned to the app's prefix,
    redirects moved under it, `frame-ancestors` removed.
  - `systemd`, `flatpak` -- host services and Flatpaks: unit text, states,
    packages to install and the commands that install them.
  - `auth` -- administrative groups, who may open a session, PAM verdicts.
  - `update` -- whether the desk can update itself, and whether it is behind.
  - `rfb`, `web`, `deps` -- socket paths, cookies and download headers,
    host-wide dependencies.
  - `table`, `text` -- a string-keyed map and the character-level text
    handling everything above is specified with.
- `tests/` -- the library's tests.
- `app/` -- the server: routes, sessions, PAM, the HTTP relay, and every call
  that reads the host or runs a program.
