# driver_indexer

DriverIndexer creates, reads and installs driver package indexes: it lists
the hardware ids that the INF files of a driver package name, matches them
with the devices of the computer and installs the best driver for each
device, extracting from the package only what is needed.

## Layout

- `src/` is the verified library (Verus):
  - `text.rs`: string operations with their specifications (search,
    replace, split, lines).
  - `utils/version.rs`, `utils/util.rs`: version comparison (a total order
    on comparable versions), temporary names, text between markers.
  - `utils/devcon.rs`: reading the `devcon hwids` and `devcon status`
    listings, and the selection of devices with a problem.
  - `utils/sevenZIP.rs`, `utils/sevenZip.rs`, `utils/extract.rs`: the 7-Zip
    command lines and the reading of its reports.
  - `subCommand/create_index.rs`: reading an INF file (hardware ids, class,
    architectures, date, version) and summing up an index.
  - `subCommand/load_driver.rs`: matching devices with drivers (hardware ids
    before compatible ids, higher versions first), planning the (at most
    three) rounds of installation, and the steps that try a device's drivers
    best first until one is extracted and installed.
  - `cli.rs`, `cli/`: the checks of command line values.
- `app/` is the program around it: command line, console, files, processes,
  threads and the Windows installation functions.
- `tests/` holds the tests of the library.
