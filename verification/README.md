# fl_convert

Converts save files of the game Freelancer (2003) so that saves made with
v1.0 can be played on v1.1 (Freelancer HD Edition).

- `src/` is the library, verified with Verus:
  - `cipher`: the GENE cipher of encrypted saves (`FLS1` marker) and `decrypt`,
    with the laws that deciphering undoes enciphering and that plain saves pass
    through.
  - `mission`: `fix_save`, which raises the mission number and turns a negative
    `delta_worth` positive, and the search for the `MissionNum` line.
  - `text`: the string operations that `mission` is specified over.
  - `backup`: backup file extensions (`%Y%m%d_%H%M%S` time stamps), backup
    reports, the check on read saves.
  - `session`: what the window shows and the order backup → decipher (→ patch)
    → write.
- `app/` is the Windows GUI (native-windows-gui) and the file system access.
- `tests/` runs the library on concrete saves.
