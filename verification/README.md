# ldoce5viewer_tui

A terminal viewer for the data files of the Longman Dictionary of
Contemporary English (5th edition), with its core verified by Verus.

- `src/` is the verified library: the constant database (`data/cdb.rs`),
  the IDM archive layout and reader (`data/idm.rs`), the incremental prefix
  index and result ordering (`search/`), the XML-to-page transforms
  (`content/`), item extraction for the index builder (`indexer/`), the
  application state, history, key and mouse decisions and the text of every
  pane (`app.rs`, `history.rs`, `keys.rs`, `mouse.rs`, `view.rs`).
- `app/` holds the program around it: the terminal loop, drawing with
  ratatui, file reading, the configuration file and the full-text index.
- `tests/` runs the library on concrete inputs.

Run the viewer with the data directory in `LDOCE5_DATA_DIR`, and build the
indexes first with `--build-index /path/to/ldoce5.data [out_dir]`.
