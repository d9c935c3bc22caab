# spm

The logic of SPM, a Linux package manager for `.deb`, `.rpm` and `.sam`
packages, written in Verus with its behaviour stated in contracts and
proved.

## Layout

- `src/types`: packages, versions and their order, configuration records.
- `src/package`: reading `.deb` control data and RPM headers, unpacking
  plans, repository metadata (Debian `Packages`, RPM `primary.xml`,
  repoquery and apt output), checksum checks, the dependency solver's
  provider choices and the mapping of its solution to packages, the
  resolver with its cycle detection (strongly connected components) and its
  cache, transactions, conflicts, install, upgrade and removal plans,
  hooks, triggers and sandbox set-up.
- `src/store`: the content-addressed store, the SONAME-indexed shared
  library store and garbage collection.
- `src/sandbox`: desktop integration and the sandbox runner's decisions.
- `src/util`, `src/text.rs`: paths, hashing, backends and the text
  functions the rest is proved against.
- `tests/`: tests on concrete values.

Decompression (flate2, xz2, zstd), tar reading, ELF parsing (goblin) and
hashing (blake3, sha2) come from their crates; each call stands behind a
small function whose contract names or states what it returns, and the
logic around it is verified. Reading files, running commands and the
network are left to the program that uses the library. The clock is
treated the same way: the cache asks it only for an entry's age, and the
decision whether the entry is still within its time to live is verified.
