# collector

An artifact collector for Windows systems. It reads YAML resource files
that name artifacts (glob paths, or groups of other artifacts), selects the
paths to collect, copies the matching files of a source drive (through the
file system, or by reading the NTFS structures of the volume when the file
is locked), records each copy in a CSV log with a SHA-1 fingerprint, can do
the same from the volume shadow copies of the drive, and can archive the
result.

## Layout

- `src/` is the verified library (Verus). Each module states its
  behaviour in `requires`/`ensures` contracts over spec functions:
  - `parser`: resource documents, the check of a document and the
    selection of paths (groups followed, paths kept once, in order; unknown
    names and cyclic groups refused);
  - `listing`: targets, groups and the listing by category, with its
    printed form;
  - `helper`, `writer`, `collect`: path text of sources and destinations,
    names of output files, glob patterns, copy names and the fallback
    from the file system to an NTFS read;
  - `vss`: the snapshots of a drive and their mount names;
  - `ntfs`: the device and the directory walk of a raw NTFS read;
  - `sector`: the whole sectors read from a raw device for a wanted
    range of bytes;
  - `digest`, `csv`: the fingerprint and the row of the copy log;
  - `text`: character-level helpers (replacement, splitting).
- `tests/` runs the library on concrete values.
- `app/` is the program around it: command line, file system, Windows
  services, NTFS reads, logging and archiving.

There is no builder type for a collection: `app/` drives the copy of the
selected paths, the shadow-copy pass and the archive in turn.

The packed program (`collector_packer`, chosen by the name the executable
is started under) reads `collector_packer_config.json` and the resource
files under `ressources/` from the working directory.
