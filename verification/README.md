# lantana

A host for plugins loaded from dynamic libraries. At start-up it finds its
install directory, reads its configuration, loads every library in its
`plugins` directory and runs each plugin's entry point on a thread of its
own. A detector thread reports, once a threshold of seconds has passed
without an answer, every plugin call that still runs. On Ctrl-C the host
runs the closing session of every started plugin and ends when all have
finished.

Layout:

- `src/` — the verified library (Verus):
  - `path.rs`: paths held as components, with push, pop, extension;
  - `builder/`: the builder of watched plugin calls, its error, and the
    table of calls in progress with its once-a-second check;
  - `common.rs`: start-up data, the derived directories, loaded plugins,
    and the depth-first search for plugin files;
  - `load_config.rs`: the configuration file's location and settings;
  - `dispatch.rs`: the decisions of the main loop and of the dispatcher;
  - `api/`: the services handed to each plugin;
  - `const_values.rs`: names and numbers.
- `app/` — the program around it: file and library I/O, logging, threads,
  channels, the Ctrl-C handler and the plugin interface.
- `tests/` — tests of the library on concrete values.
