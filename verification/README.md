# kafka_term

A terminal file browser for a remote host reached over SSH: browse
directories, search by name (in one directory or below it), jump to a
typed path, view a remote file in the local editor, and copy files or
whole directories to the local machine. When the configuration sets
`use_sudo=true`, directories and files that the SFTP user may not read are
listed and downloaded through `sudo` instead.

## Layout

- `src/` is the library, written in Verus. Every function there carries a
  contract, and the crate's laws stand there as proof functions:
  - `text`, `paths`: characters, trimming, words, lines and slash-separated
    paths.
  - `types`, `listing`, `search`, `navigate`: entries, their sorting and
    display, searching and navigation targets.
  - `config`: the `key=value` configuration format.
  - `remote`: SSH error kinds, the remote shell commands, and the parsing of
    `ls -la`, `du -sb` and `find` output.
  - `download`: copy destinations, the viewer's size limit, the editor
    choice, and a recursive directory copy as a sequence of requests.
  - `app`, `event`, `control`: the application state, the key bindings, and
    the event loop's decisions as a function from state and action (or
    completed I/O) to the next state and the I/O to perform.
  - `view`: the texts that the screen shows.
  - `errlog`: the UTC timestamps and lines of the error log.
- `app/` is the program around it: the SSH session (`ssh2`), the terminal
  (`crossterm`, `ratatui`), local files and temporary files (`tempfile`),
  and the loop that performs the requests the library returns.
- `tests/` runs the library on concrete cases.
