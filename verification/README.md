# acl-offsetgen

Generates the memory offsets and byte signatures AnotherCrewLink needs to read
Among Us, straight from an installed copy of the game.

The library under `src/` holds everything that decides or computes: it is
written in Verus, and each function states what it returns and is proved to
return it. The program under `app/` reads files, runs Il2CppDumper and prints.

| module | what it is for |
|---|---|
| `pe` | PE parsing, section mapping, relocation bitmap |
| `pattern` | byte signatures: parse, format, scan |
| `decode` | one instruction, as the disassembler reads it |
| `siggen` | signature generation |
| `dumpcs` | `dump.cs` to a class, field and method index |
| `scriptjson` | `script.json` to type-info slot addresses |
| `il2cpph` | `il2cpp.h` to the `Il2CppClass::static_fields` offset |
| `gameinfo` | game version, broadcast version |
| `offsets` | the `offsets.json` schema |
| `schema` | that its keys can be told apart, and what equal files are |
| `generate` | assembles the offsets, records where each came from |
| `validate` | what a file has to pass before it is published |
| `slots` | that what the client overwrites does not count there |
| `lookup` | `lookup.json`, per-file `offsetsVersion` |
| `report` | what changed against the file that is there |
| `run` | from generated offsets to the two files that are published |
| `tools` | which dumper may run, and what its run is worth |
| `sha256` | the digest that decides it |
| `json`, `text`, `numbers`, `error` | what the rest is written with |

## What is proved

- A signature is only emitted if it matches at exactly one place in the mapped
  image, the client's own arithmetic at that place gives the slot or literal it
  was made for, no byte that the loader rewrites is spelled out, and it is no
  longer than the limit (`siggen::trustworthy`). It still matches after the
  loader has rebased the module (`siggen::signatures_survive_relocation`).
- Every number in a generated file is the one that the dump, the pointer size or
  the base file gives for it, and a lookup that fails fails the run
  (`generate::offsets_from`, `generate::nothing_is_guessed`).
- What is generated passes the checks of its signatures, its chains and its
  player struct (`validate::generated_signatures_check_out` and its neighbours):
  where the fields of the player record do not overlap, the struct describes
  exactly the bytes the client reads.
- A field is found in its class however far down it stands
  (`dumpcs::a_field_is_found_however_far_down`), and neither forward declarations
  nor the side on which a pointer star binds move `static_fields`
  (`il2cpph::forwards_and_sides_of_stars_do_not_count`).
- Slot 0 of a chain that the client resolves by signature is not checked: files
  that differ only there have the same problems and warnings
  (`slots::slot_zero_does_not_count`).
- Nothing is published of a file that fails a check (`run::publication`).
- In `lookup.json`, every key that serves a file moves together, the counter
  moves exactly when the content does, a rerun changes nothing, `default` is the
  newest build, and what is written is read back with every key it had
  (`lookup`).
- Comparing two offsets files reports nothing if and only if they are equal, no
  path twice, and the same paths whichever comes first
  (`schema::offsets_files_are_compared_field_by_field`).

What is taken on trust is what six calls do: the disassembler's decoder, the
JSON crate's string printer, its parser and its pretty printer, and two functions
of the standard library. The parser and the pretty printer stand behind one
function, each of the others behind its own, and a comment there says what it
claims.
