# vts

The verified core of an FPGA toolchain, written in Verus.

- `src/` is the library, every function proved against its contract:
  - `aiger`: a reader of the ASCII AIGER format into an and-inverter graph;
  - `blif`: a BLIF buffer, tokenizer and command parser, with source
    locations and a reader that hands commands to an event handler;
  - `graph`, `ops`: the logic graph of gates, and its construction from a
    Yosys netlist module (`yosys`);
  - `stringtable`, `database`, `key`: string interning and keyed storage;
  - `arch`: architecture modules of components, ports, references and
    connections, with their builders;
  - `archmodel`, `architecture`: an architecture as blocks held by name, and
    as a tree of named blocks, with the conversions between them;
  - `device`, `place`, `route`, `flow`: device descriptions, and the placer
    and router interfaces;
  - `cli`: the decisions of the command-line front end.
- `tests/` runs the library on concrete inputs.
- `app/` is the command-line program: argument parsing, files, and the JSON
  forms of Yosys netlists and architecture modules, which drive the
  library's types and builders.
- The Python bindings of the architecture and API crates, and the bindings
  to the ABC C library, are not part of this build: where the program would
  run Yosys or ABC, it reports the tool as missing.
