# imas_mvdd

A verified library for loading IMAS data written under one Data Dictionary
(DD) version into an HLI built against another, and the thin C-ABI layer
that puts it between an HLI and IMAS-Core.

`src/` is the library, written in Verus. Every function in it carries a
contract that Verus proves, except the three small trusted wrappers around
outside calls named at the end of this file, whose contracts are stated
beside them:

- `dd_version`, `version_stamp`, `core_version` — DD versions (parsing,
  spelling, order), occurrence stamps, and the IMAS-Core release gate.
- `selector`, `conversion_map`, `xml`, `map_load`, `completeness`,
  `resolution_laws` — conversion-map artifacts: loading them from XML,
  resolving a path through one, and checking one against path inventories.
- `stored_path`, `read_path`, `read_plan`, `write_plan`, `occurrence` —
  what each ABI seam does on a converting context: the stored spelling of
  a path, the candidate plan of a data read and its loss verdicts, the
  translation of a write (with its sign-flip decision) and of a delete,
  datapath translation and stamp discovery at occurrence opens,
  arraystruct opens.
- `context_registry`, `loss`, `loss_file`, `timestamp_order`,
  `hli_version`, `reentry`, `read_outcome`, `status`, `text` — the
  registry of live contexts and their loss logs, loss reports and the UTC
  timestamps that name them (which sort as text in time order), the
  process-wide HLI version latch, the reentry depth gate, the ABI status
  struct, and string helpers.

`app/` is ordinary Rust: the exported C functions, the run-time binding of
IMAS-Core through `dlopen`, the process-wide locks, file output, and the
sign flip of floating-point buffers. The conversion decisions are the
library's; `app/` asks for them and performs what the answer says, keeping
for itself only what touches raw buffers, floating-point values, the
clock, the environment and the file system.

The library calls one outside crate, `roxmltree`, to parse artifact XML,
and `std::str::from_utf8` and `String::push` from std, each behind a small
trusted wrapper whose contract is stated beside it.
