# PatchFerret

Turns a mixing console's show file into documentation an engineer can use: a
patch list, a specification sheet and a wiring topology, as PDFs, plus the
console-neutral PFX interchange XML.

The library is written in Verus: its functions are proved against their
contracts. What an outside crate computes enters those contracts through a
small trusted function per call, whose doc comment says what it claims.

## Layout

```
src/model/         the PFX show model, its string forms, job sheets,
                   console profiles, and the XML event stream
src/formats/       the format adapters: Behringer X32 scenes, Yamaha
                   MBDF/MMSXLIT scenes and CL/QL files, Allen & Heath
                   show archives and SQ channel images
src/report/        what the reports print: patch-list rows, the spec
                   sheet's tables, topology nodes, PDF text encoding and
                   the PDF file structure, logo images, file names
src/web.rs         the browser build's result buffer and JSON summary
src/text.rs,       characters, decimals, tokens, searching and sorting,
src/lex.rs         with the lemmas the rest relies on
app/               the command line and the browser entry points, and the
                   drawing of the PDFs (floating-point page geometry)
tests/             tests of the library from outside
```

## Outside crates

- `miniz_oxide` inflates the gzip members of Allen & Heath show archives.
- `quick_xml` reads and writes PFX XML text; the library decides the events,
  and its contracts state the text over names for what quick_xml reads from
  a text and writes for a list of events.
- `thiserror` gives the command line's error types their messages.

## Laws

Besides each function's own contract, `src/` proves properties that span
functions, as public proof functions named `law_…`: for instance that a show
written to PFX events reads back unchanged, that every string form of a
reference parses back to the reference, that JSON escaping loses nothing, that
the PDF cross-reference table points at its objects, and that the patch list
lists every input slot exactly once, in slot order.
