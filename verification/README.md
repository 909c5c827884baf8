# sankhya

The decisions of an analytical warehouse server, proved.

A warehouse holds tables that were published from a transactional store. The server reads them: it
onboards relations, resolves names, decides who may read what, answers statements, keeps snapshots
and clones, and refuses rather than guesses. What it decides is in `src/`, where every function has a
contract and Verus proves it. What it does about a decision (files, sockets, the query engine, the
clock) is in `app/`.

## The library

| Modules | What they decide |
| --- | --- |
| `model`, `mapping`, `evolve`, `onboard`, `naming`, `datedate` | the shape of a table: types, changes of shape, paths, the date axis |
| `execute`, `driver`, `wire` | what a session registers, what is refused, how values and failures are written |
| `warehouse`, `adopt`, `clones`, `cloning`, `snapshots` | which tables there are, what a name stands for, what reads the past |
| `cubes`, `cuboids`, `aggregations`, `graphs` | what is derived from tables, and who may be given it |
| `policy`, `wiring`, `flight`, `audit` | who is let in, where a statement goes, what is recorded of it |
| `settings`, `config`, `feeds`, `scrape`, `doctor`, `backup` | settings, ingest, figures, diagnosis, backup |
| `text`, `textmap`, `numerals` | texts, ordered maps and numerals, on which the rest stands |

Contracts speak of texts as sequences of characters, of tables of names as maps, and of answers and
refusals as what a client is sent. Public proof functions state what holds of the library as a whole,
such as that a contested name is registered nowhere, or that two tables never share a path.

## What is trusted

`text` trusts `String::push`, the standard library's case mapping and its `{:?}` for strings, `scrape` its lossy
reading of UTF-8, and `model` the constructors and variants of `arrow-schema`. Each of these has a doc comment that
says what is believed of it.

## The program

`app/` asks the rest of the platform (the wire protocol, the table format, policy enforcement, the cube
engine and others) through the `Services` trait of `app/services.rs`, which hands over plain values.
`app/standalone.rs` is the implementation for a build that links none of them.
