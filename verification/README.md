# clipboard_saver

A macOS menu-bar clipboard history (the last 40 texts and images, newest
first, with repeated copies moved to the top instead of stored twice),
written as a Verus library plus a thin host program.

- `src/` is the verified library: the history (`history`), entries and the
  image content hash (`item`), the panel and menu texts (`panel`, `menu`,
  `text`), the decisions taken on each event (`actions`), change detection
  (`watcher`), release selection (`updater`), the LaunchAgent plist
  (`autostart`), stored image names (`storage`), thumbnail data URLs
  (`thumbs`) and the tray glyph (`glyph`). Each public function states its
  result exactly in its contract; the laws of the history (cap, deduplication,
  fresh ids, nothing lost on eviction) are public proof functions.
- `app/` is the macOS host: the tao event loop, the tray icon, the clipboard
  (arboard and NSPasteboard), JSON and PNG files on disk, thumbnail scaling
  and the self-updater's network and file work.
- `tests/` runs the library on concrete values.
