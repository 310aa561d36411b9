# dfs_server

The storage server of a distributed file system, with its logic verified in Verus.

Files are cut into chunks, which are named by their content, their file and their place in it. A
node keeps chunks on disk and knows, for every file, which chunks it has and which nodes hold them.
One node leads: records are put there and spread to the others.

## Layout

- `src/` is the verified library. It decides; it does not touch disks, clocks or sockets. What it
  has to know is handed to it, and what has to be done is handed back.
  - `types`, `protocol`, `text`, `names`: values, replies, and how they are written.
  - `digest`, `delta`, `cache`, `shared_maps`: the outside functions and collections that the
    library builds on, each behind a declaration of what is relied on.
  - `chunk_map`, `loc_list`, `locations`: where chunks are, and how reports about that are merged.
  - `metadata`, `server`, `store_batch`, `catchup`, `loops`: records of files, how nodes take them
    in, store them, keep them in step, and spread them.
  - `storage`, `chunk_index`, `chunk_file`, `chunker`, `write_path`, `transfer`, `append`,
    `requests`: chunks on disk, and data that is written and read.
  - `patch`, `patch_bytes`, `patch_flow`, `rewrite_run`: changing parts of a chunk, and surviving a
    crash while doing so.
  - `repair`, `repair_run`, `file_ops`, `drain`, `cluster`, `dispatch`, `proc_net`, `stats`,
    `watchdog`: repairs, deletions, membership, and housekeeping.
- `app/` is ordinary Rust around it: files, threads, timers, and the services that a node needs.
- `tests/` runs the library on concrete values.

Work that alternates decisions and input or output is a small machine in the library: a state, the
step that comes next, and what follows from how the step went. The laws of such a machine speak of
every run of it. They are the public proof functions.
