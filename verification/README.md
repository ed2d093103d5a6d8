# ReWorkspace

A NeXTSTEP-style Workspace: a File Viewer of browser columns and a shelf, the Inspector, the
Console, the Recycler, a Dock, tear-off menus, a Shell window, the Concurrence outliner, the
Digital Librarian and an Improv worksheet.

- `src/` is the library, written in Verus and verified: the geometry of windows, menus and
  controls; the window stack, alerts and key routing; menu tear-off and reattachment; the File
  Viewer's columns, selection, navigation and type-ahead; path checks and file-name rules, the checks made before files are moved or destroyed, and a file's contents as base64; the
  Inspector's formatting; the outliner's editing; the worksheet's formula grammar and its cube
  of cells; the Librarian's ranking; PNG images and the frame buffer's fills and blends; what a press, a drag and a release of the
  mouse do, and what each menu command does and where the OS's close of a surface is routed; the replay scripts of headless runs, read line by
  line into commands and the input events they make. Each
  public function carries a contract, and the laws that tie several of them together are proof
  functions named `law_*`.
- `tests/` runs the library on concrete values.
- `app/` is the command line around it: the disk, the saved state, the search over files,
  the worksheet's figures, and `--headless <script>`, which prints the events a script makes.
