# kabekami

A wallpaper rotation daemon for KDE Plasma, as a verified library and a
thin program around it.

- `src/` is the library, written in Verus: every function carries a
  contract that Verus proves. It holds the decisions of the daemon: the
  rotation queue (sequential, or shuffled with every image once per cycle,
  with a bounded history), the configuration's defaults and normalisation,
  the screen descriptions of `kscreen-doctor`, the cache file names and
  their eviction, the online providers (what to request, which posts are
  images, which downloads and hosts to refuse, when a provider is due),
  the blacklist and state files, the tray menu, the language tables, the
  reactions to session, shortcut and file system events, and the main loop
  as a state machine (`dispatch`): each tray command, timer tick, fetch
  result or outcome of outside work (trash, blacklist, rescan) gives the
  new rotation and the list of actions to perform.
- `app/` is the daemon itself: the event loop that performs those actions,
  D-Bus, the tray icon, HTTP,
  the file system and the image processing (which works on floating-point
  pixels). It hands the library plain values and acts on what comes back.
- `tests/` exercises the library.
