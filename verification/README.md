# RelayBar

SSH tunnels from the system tray: saved forwards that can be started, stopped, opened in the
browser and imported from a pasted `ssh` command.

`src/` is the library, with its contracts proved by Verus:

- `text`: trimming, case, numbers and splitting, over sequences of characters;
- `model`: a tunnel, its phases, its `ssh` command, and the lists of what that command may hold;
- `parser`: the import of an `ssh` command, and `import_laws`, what holds of every import;
- `store`: the state machine of wanted, running and failed tunnels, and `store_laws`, what it keeps;
- `process`: what the end of an `ssh` process tells, and how a process is watched;
- `display`, `editor`, `storage`: what is shown, the form for a tunnel, and the path of the saved
  tunnels.

`app/` is the program around it: windows, the tray, files, processes and threads. It does what the
store asks for and reports back what happened.
