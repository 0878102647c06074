# Rustle

The logic of a GTK 4 / libadwaita email client, verified with Verus.

- `src/` is the library: addresses, dates, folders, MIME and HTML, threads,
  what is asked of IMAP and SMTP servers and what their answers mean, what the
  store keeps, and what the windows decide. Every function carries its
  contract; the laws that hold between functions are public proof functions
  beside them.
- `tests/` runs the library on concrete values, with the outside crates it
  calls linked in.
- `app/` is the client around it: SQLite, sockets, the keyring, D-Bus and the
  GTK windows.
- `extras/editor.html` is the page behind the composer's editor, bundled as a
  resource of the application.
