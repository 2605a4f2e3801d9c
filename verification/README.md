# ulbox360

Tools for Xbox and Xbox 360 game backups: ISO to Games-on-Demand
conversion, XISO packing and unpacking, read-only FATX mounting and
extraction, and FTP upload to a console.

The library under `src/` holds the decisions these tools make, verified with
Verus; the program under `app/` does the file, device and network work and
calls into it.

- `partition`: the preset partition table of Xbox and Xbox 360 disks and the
  lookup by partition letter.
- `inode`: the inode numbering of a mounted FATX volume (a bidirectional map
  between inodes and paths, kept in a `bimap::BiHashMap`).
- `fuse_ops`: what the mount answers to lookup, getattr, read and readdir
  requests, given what the volume returned.
- `datetime`: how FATX timestamps are shown (checked with `chrono`).
- `fatx_scan`: the directory walk and copy plan for extracting a FATX folder.
- `ftp_plan`: remote paths and the directories to create for an FTP upload.
- `god`: title id formatting, block and part counts, the hash chain order and
  the header sizes of a Games-on-Demand package.
- `xiso`: where unpacked entries go and the reads that copy a file.
- `paths`, `text`: path and string helpers shared by the others.

The tests under `tests/` run the library on concrete values.
