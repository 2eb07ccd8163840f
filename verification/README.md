# mportal

MPortal watches folders and converts the media files that appear in them with ffmpeg.
This crate holds its logic, verified with Verus; `app/` runs it.

- `src/config.rs`: the configuration (portals) and where its file lives.
- `src/utils.rs`: recognising media files, naming outputs, planning a conversion.
- `src/convert.rs`: work-file paths, encoder arguments, the steps that finish a conversion.
- `src/daemon.rs`: the watch loop's decisions (config reload debounce, which files are
  handed to workers).
- `src/control.rs`: the command-line controller's wait for the daemon's log.
- `src/paths.rs`, `src/text.rs`: path and text helpers; the calls into `std::path` and
  `str::to_lowercase` are the trusted boundary.
- `src/basic/`: the self-contained variant of the daemon.
- `app/`: the executable (file watching, ffmpeg, logging, notifications, TOML, the
  platform's configuration folder); its name picks the daemon, the self-contained
  daemon, the controller or the installer.
