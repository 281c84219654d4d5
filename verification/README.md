# gpuicn

Verified interaction logic for the gpuicn component registry: open-code UI
components for GPUI, installed by the `gpuicn` command.

The library (`src/`) holds the decisions the components and the installer
make, each with a contract checked by Verus:

- `editing`: single-line text editing with graphemes, words, IME composition,
  undo/redo history and UTF-16 ranges;
- `menu`, `select`, `focus`, `sidebar`, `controls`, `theme`: menu navigation and
  activation, selector state, modal focus traversal, sidebar state and
  layout, group values and control variants;
- `registry`, `names`, `install`, `publish`, `source`: component names,
  dependency order, source module names, module declarations, installation
  plans and registry builds;
- `adoption`: the form rules of the adoption example (settings validation,
  record names and record filtering);
- `text`, `segmentation`, `clock`: character offsets, Unicode segmentation and
  case mapping, and a monotonic clock.

`app/` is the command-line program: argument parsing, configuration and JSON
files, HTTP and file system access. `tests/` exercises the library.
