# broken_nest

A host for chains of LV2 plugins. All plugins of a chain run in one process,
within one JACK client: audio goes from plugin to plugin through memory, MIDI and
atoms go through ring buffers, and each plugin can have a window.

The library under `src/` is verified with Verus. It holds what the host decides
and computes:

- `config`, `error`: how a chain is described, and what can go wrong;
- `world`: what is known of the installed plugins;
- `features`: numbers for URIs, options, log lines, and the framed messages of
  workers;
- `atom`, `bytes`: the layout of atom sequences;
- `midi`, `ring`: MIDI messages and the ring buffers that carry them;
- `plugin`: the ports, buffers and controls of one instance;
- `bridge`: control values that are shared with the audio thread;
- `slot`, `wiring`, `process`: which instances make up a chain, and how a block of
  audio passes through them;
- `ui`: which window a plugin has, and the thread that shows windows;
- `chain`: a chain as a whole;
- `state`, `jalv`: where values are kept, and what is said to a `jalv` process;
- `names`, `text`: maps by name, and text.

Control values, gains and ranges are the bits of a 32-bit float. Samples are of
any type: the arithmetic on them is handed in.

The program under `app/` is ordinary Rust around the library: JACK, `lilv`, GTK,
files, threads and the code of the plugins. `extras/log_shim.c` is the C part of
the log feature and is linked with the program.
