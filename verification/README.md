# rust_sync

A one-way synchronisation tool between a local directory and an S3 bucket prefix, whose
decisions are verified with Verus.

- `src/` is the verified library: recognising `s3://bucket/prefix` locations (`s3path`),
  selecting files by regular expression (`filter`), gathering a paginated listing and walking
  the local directory (`listing`), planning a pull or a push (`plan`), the single-instance
  lock file (`instance`), the settings (`config`), the choice of work for a cycle and the
  settling of a time limit (`cycle`), and the errors with their messages (`error`). `laws` holds the properties proved of a whole cycle;
  `paths` and `text` hold the path and string helpers.
- `app/` is the program around it: reading `config.toml`, the log file, the directory walk,
  the S3 client, the time limit and the endless loop of cycles.
- `tests/` runs the library on concrete cases.
