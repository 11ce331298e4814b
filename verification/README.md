# shipdb

A ship calculator for ATS TrekMUSH: it reads the `@listspecs` sheets out of
game logs into a catalog of ship classes, and simulates a ship turning and
firing its arcs to plot its damage output over time.

## Layout

- `src/` is the library, written in Verus and verified.
  - `logparse.rs`, `sheet.rs`, `labels.rs`, `patterns.rs`, `number.rs`,
    `lines.rs`, `text.rs`: reading sheets. Each line shape of a sheet (the
    title bar, the weapon table headers and rows, labelled values) is a
    function on characters with a specification, and `try_parse_logs` is
    proved to give exactly the ships that `ships_in_log` describes. Numbers
    keep the decimal text of the sheet.
  - `ship.rs`, `weapon.rs`: the catalog types.
  - `face.rs`, `face_seq.rs`, `arcs.rs`: the faces of the cube a ship
    presents, packed face sequences, weapon arc masks and the choice of an
    intermediate face to fire through while turning.
  - `rng.rs`: the SplitMix64 generator behind the turn-time noise.
  - `catalog.rs`, `order.rs`: ship lookup by name, placing uploaded ships,
    ordering names, and the small texts the front-ends read or show.
  - `groups.rs`: values grouped under an integer key in `fxhash`'s map, for
    the weapon table being read and the weapon rows of a stored catalog.
- `tests/`: the tests, run against the compiled library.
- `app/`: the command-line tool and the web front-end's entry points:
  argument handling, the sqlite and bincode catalog files, the
  floating-point parts (crew tunings, the damage simulation, the Gaussian
  noise) and the plots.

## Usage

```
shipdb <name>[,<name>...] [path/to/ships.db]
             [--svg --png] [--eng N --tac N --helm N --oper N --sci N --dam N --wis N]
shipdb --parse listspecs.log [path/to/ships.db] [--sqlite | --bincode]
shipdb to-bincode <ships.db> [out.bin]
```
