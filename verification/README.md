# termx

A small terminal text editor with a file explorer, split in two:

- `src/` is the editor itself, verified with Verus: buffers and their
  editing (`buffer`), the editor state and its operations (`app`), the
  explorer tree built from what was read of the disk (`explorer`), key
  handling (`keys`), everything the screen shows (`layout`), paths and
  prompt input (`paths`) and the text helpers they share (`text`).
  Each operation has a contract over an abstract view of the state, and
  the laws of the editor (edits keep buffers well formed, typing then
  erasing restores a line, a saved file reads back as the same lines,
  the explorer's rows form an outline, and more) are proof functions
  named `law_*`.
- `app/` is the program around it: the terminal (through `crossterm`),
  reading and writing files, and the event loop. It hands the library
  plain values and carries out the work the library asks for.

Run the editor with an optional file or folder to open:

```bash
termx path/to/file_or_folder
```

Keys: F1 open file, F2 open folder, F3 create file, F4 create folder,
F5 save, F6 save as, F7 close buffer, F8 close folder, F9 switch pane,
F10 quit; Control with o, g, n, m, s, a, w, x, b, q does the same.
