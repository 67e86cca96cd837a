# idea

A command-line notebook that files short ideas under nested topics. Every topic
and idea carries an id that is unique only among its own siblings; a chain of
ids, one per level, reaches anything in the tree.

## Layout

- `src/` is the verified library, checked by Verus:
  - `model.rs`: ideas, topics and their mathematical views;
  - `ids.rs`, `counts.rs`, `text.rs`: fresh ids, recursive counts, decimal
    text, number parsing, substring, trimming and blank checks;
  - `tree.rs`: walking, changing and removing along an id chain;
  - `chain.rs`: walking or creating a chain of topic names, filing ideas;
  - `defrag.rs`: stable renumbering of every level;
  - `report.rs`: the selector, searching and listing, as blocks of results;
  - `legacy.rs`: reading and converting the file format from before ids;
  - `command.rs`: the command line as a value;
  - `flow.rs`: the decisions of `delete` and `edit`, step by step, and the
    lines they print;
  - `laws.rs`: properties that span several operations.
- `tests/` runs the library on concrete stores.
- `app/` is the program: arguments, the JSON file under the configuration
  directory, prompts and printing.
