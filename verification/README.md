# Gacho

The verified core of Gacho, a viewer for comics and photo books. It opens a
folder of images or a zip / cbz archive and shows its pages one at a time or
as two-page spreads, read right to left or left to right, and moves on to the
neighbouring volume at the end of a book.

- `src/` is the library, verified with Verus: paths and natural ordering,
  archives, books and their images, the grouping of pages into spreads, page
  turning, the library of volumes, and the command line.
- `app/` is the program around it: the window (eframe / egui), file dialogs,
  and the reading of folders, files and image sizes from disk, which it hands
  to the library as plain values.
- `tests/` runs the library on concrete inputs.
