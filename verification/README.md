# meshcorestat

A console dashboard for the runtime statistics of a MeshCore node reached
over a serial port. The library in `src/` is written in Verus and holds the
program's logic with proved contracts:

- `serial` - framing CLI commands and extracting the value from a node's
  raw reply (`normalize_line`);
- `model` - the statistics, the metric kinds and their names, and the
  bounded history of a followed metric;
- `app` - the application state, following metrics, applying a poll, and
  the human-readable duration text;
- `ui` - the dashboard lines that hold integers, and the refresh loop's
  decisions;
- `text` - white space, trimming and decimal text;
- `laws` - properties of the library as a whole.

`app/` is the program around it: argument parsing (clap), serial I/O
(serialport), JSON decoding (serde_json) and the terminal UI (ratatui,
crossterm), including the lines that show floating-point values.
