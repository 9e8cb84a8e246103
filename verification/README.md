# ui_studio

The core of UI Studio, a desktop workspace that inventories Unity UI image
assets and batch-reskins them while keeping each asset's canvas size,
relative path, file name, extension and PNG transparency.

- `src/` is the verified library. `safety` and `paths` decide which relative
  paths are accepted and what joining them to a root gives; `imaging` and
  `validation` inspect decoded images and judge copied or repainted outputs
  against their sources; `inventory` orders assets and finds case-insensitive
  path collisions; `resources`, `integrity` and `worker` plan and check
  resource downloads and worker launches; `system` and `probe` read the
  machine's capabilities; `laws` states the properties that span functions.
- `app/` is the unverified edge: file-system walks and copies, HTTP
  downloads, process launches and JSON, calling the library for every
  decision. It hands the library folder paths with `/` between components
  (on Windows it drops the verbatim prefix and turns backslashes into
  slashes); the library accepts a relative path only if it is made of
  plain names whether or not backslashes count as separators, and refuses
  colons, so a path means the same on every platform.
- `tests/` exercises the library on concrete values.
