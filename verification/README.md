# bevui_28

A launcher for Bevy game folders. The verified library (`src/`) holds the
launcher's logic; `app/` is the Bevy program around it (window, files,
network, processes).

- `paths`: where the launcher's files live below the home directory, and
  when two spellings of a path name the same folder.
- `readme`: the short description of a store game, made from its README.
- `project`: projects, recognising a game folder (file extensions
  included), how a game is started.
- `store`: the GitHub store entries.
- `tables`: the status of each folder and the downloads that run.
- `ui`: button and card colours, the order and content of the list.
- `state`: the launcher state and its reaction to every button and report.
- `download`: where store games are installed, the order of the
  installation steps, and how failures read.
