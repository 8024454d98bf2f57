# dnsglobe

A DNS propagation checker for the terminal. It asks public resolvers around the
world for one record, groups their answers and shows how many agree.

`src/` is the verified library; it does no I/O:

| module | what it holds |
| --- | --- |
| `args` | the command line |
| `record` | record types by name and code |
| `state`, `watch` | the input field, the rows, and what keys, replies and ticks do |
| `consensus`, `table` | groups of answers that share records, the majority, marks |
| `once`, `rows` | the single check and its rows |
| `text_report`, `json_report`, `csv_report` | what a single check prints |
| `escape`, `text` | quoting and building text |
| `json_reader`, `csv_reader` | readers as specifications, and that they get the reports back |
| `model` | the values that travel through a check |

Functions named `law_...` state what holds of the library as a whole.

`app/` is the program around it: sockets, the terminal and the clock. `tests/`
runs the library on concrete values.
