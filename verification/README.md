# RFMetrics

Measures the quality of distorted videos against a reference: PSNR, SSIM, VMAF
and XPSNR with ffmpeg; SSIMULACRA2, Butteraugli and CVVDP with FFVship.

## Layout

- `src/` is the library, verified with Verus. It decides what is run and what
  is shown: it builds the programs' arguments, reads what they print, keeps the
  queue and its results, sorts and ranks them, and saves and restores the
  settings.
  - `text`, `num`, `order`: characters, doubles by their bits, stable sorting.
  - `outside`, `json`, `preview`: what comes from `regex`, `std`, `serde_json`
    and `image`, each call behind a small trusted function.
  - `metrics/`: one file for each program or file format.
  - `binaries`, `probe`, `plot`, `state`: programs, media files, plots, the
    state file.
  - `app/`: the application's state, and what each event changes.
- `tests/` runs the library.
- `app/` is the program around it: windows, processes, files, and arithmetic on
  doubles.

## Conventions

A double is a `Num`: its bits, which the library compares and orders but never
computes with. Numbers that are printed pass through the library as texts.
Contracts are stated over views; the types that hold texts or lists have one
where a contract speaks of them as a whole. `queue_ok` is what holds of the
queue at all times.
