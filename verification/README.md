# w-utils

`wcp` and `wmv`: cp(1) and mv(1) with a progress bar, copies that never leave a
half-written file behind, backups, exclusion patterns, resumption, checksums and
a limit on the speed.

## Layout

- `src/` is the library: everything that the tools decide, written in Verus.
  Nothing in it touches a file system. It works on what was seen of files and on
  what operations came to.
  - `cli`, `options`, `run`: what a command line asks for.
  - `path`, `text`, `bytes`, `utils`, `messages`: paths, words and numbers.
  - `plan`, `exclude`: what a copy will do, from what was seen of the sources.
  - `engine`: how one entry of a plan is carried out, operation by operation.
  - `copy`, `stats`, `backup`, `transfer`, `xattr`, `temporaries`, `progress`: the
    order of a copy, what is counted, and the pieces that it is made of.
  - `mvops`: moves, by a rename or by a copy.
  - `report`: what is printed.
  - `plan_laws`, `engine_laws`, `copy_laws`, `rate_laws`: what holds of every
    plan, of every run, of a plan that is carried out, and of every speed that is
    read; other laws stand beside the functions that they speak of.
  - `disk`, `disk_laws`, `sharing_laws`: what operations do to a disk, and what
    holds of its contents after a copy, after a second one, and when runs take
    turns. Nothing in them runs.
- `app/` is the program around it: it looks at files, performs the operations
  that the library asks for, hands back what they came to, and prints. It runs on
  Unix systems.
- `tests/` runs the library, on values and on a file system in memory.

## What is not proved

The library calls globset (exclusion patterns), humansize (sizes in words) and
xxhash (checksums). What they do is stated beside each call and believed.
What the program in `app/` does with files is not verified: the laws on contents
hold on a disk whose operations do what `disk` says of them.
