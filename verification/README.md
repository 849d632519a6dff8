# codefactory

The verified core of the CodeFactory desktop command layer, written in
Verus. `src/` holds the decisions the commands make — chat admission, routing, objective
projection, the improvement-candidate lifecycle, learning and mining, usage
accounting, evidence packs, backups, Git and file-tree views — each with a
contract proved by Verus. `app/` holds the edges that Verus does not see:
file and process I/O, JSON (de)serialisation and floating-point amounts.
`tests/` runs the library on concrete inputs.
