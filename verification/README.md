# clash_verge

The decision logic behind the desktop client's maintenance commands, written
in Verus with its contracts proved:

- `src/path.rs`: Windows and Unix paths on strings — prefixes (drive,
  share, device and verbatim), components, file name, parent, extension,
  joining, component-wise equality and order. A path on a share such as
  `\\server\share\Clash Verge` is read with its share as the prefix, so
  `\\server\Clash Verge` has no file name and is no install folder.
- `src/path_list.rs`: sorting paths by that order without repeats, and the
  proof that the result is unique.
- `src/lex.rs`: lexicographic order on sequences and its laws.
- `src/text.rs`: decimal numbers, trimming white space, escaping quotes.
- `src/legacy_install.rs`: leaving the legacy Windows install folder —
  candidate folders, what to remove, when to relaunch, the removal steps and
  the registry keys to delete.
- `src/legacy_app.rs`: retiring the legacy macOS app bundle — the running
  bundle, candidate bundles, recognising the legacy bundle, the Trash script.
- `src/commands.rs`: the application commands — core folder, browser launch
  plan and its steps, developer tools toggle, update and portable flags.

`app/` holds the side that touches the system (files, processes, registry,
the default opener) and drives the step functions of the library.
