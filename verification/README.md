# jma_radar_bridge

A decoder for JMA radar-per-site polar-coordinate GRIB2 messages (grid
template 3.50120, product template 4.51022, run-length data template 5.200),
and the bookkeeping of a GRLevel2-style polling bridge around it.

- `src/` is the verified library. Every quantity is kept as the integer the
  message carries; the contracts state each decoder and planner over spec
  functions on byte and character sequences.
  - `wire`, `rle`, `parser`: big-endian fields, sign-magnitude integers, the
    run-length decoder, the section walk, and tar archives.
  - `model`: volumes, sweeps, grids and sites, with their views.
  - `bridge`: site ids, file names, the choice of sweeps to draw, and the plan
    of every file a publish writes.
  - `nict`: archive URLs and the five-minute candidate times.
  - `live`: request routing, content types, and the choice of live input.
- `app/` is the command-line program: file and network I/O, the HTTP server,
  drawing in floating point, and JSON output.
- `tests/` runs the library on concrete inputs.
