# heq_core

The verified core of heq, a parametric equalizer that drives Equalizer APO, CamillaDSP and
PipeWire. `src/` is checked by Verus. Its functions state what they return in their contracts,
with a few exceptions: trait methods whose result the implementing type decides, and the small
trusted wrappers around std and serde_json, whose doc comments say what they claim. The laws the
library keeps are proved as `law_*` proof functions next to the code they speak of.

- `src/model`: filter shapes and ear targets, the band list that hands out ids, the change
  tracker behind the model's revision, the A/B sides, and what clicks and scrolls on the curve
  do to the bands.
- `src/backend`: the `Backend` trait and the null backend, the Equalizer APO format (reading
  filter lines, writing heq's file, finding and placing the `Include:` in `config.txt`, listing
  devices), CamillaDSP's `filters` and `pipeline` sections, its requests and replies as text
  (parsed and printed through serde_json), the version check and the offline status, the YAML
  writer, the PipeWire filter-chain drop-in and where it goes, the backend kinds, and the
  worker's debounce on its millisecond clock.
- `src/storage`: where presets, folders, corrections and settings live, file names, listing
  order, a folder's correction, and the library panel's selection rules.
- `src/paths.rs`: paths built through `PathBuf::from` and `Path::join`, and heq's own directory
  from the environment's values.
- `src/format.rs`, `src/text.rs`: reading typed numbers, and the text helpers everything above
  is stated in.

Numbers reach the library already written out as text. The floating-point work (biquads,
loudness, the curve view), reading and writing files, the socket, the thread and the window live
in `app/`, the eframe program around the library.
