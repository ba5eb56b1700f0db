# compare-svg

Compares SVG files in a Git working tree with their versions at `HEAD`. The
program starts a local web server, opens the comparison in the default browser
and returns; the server stops a grace period after the last browser has left.

- `src/` is the library, written and proved in Verus: the command line, the
  loading of versions, the page, the lifecycle of the server, launching it in the
  background, and squashing the file on view into a commit.
- `app/` is the program around it: processes, files, Git, HTTP and logging.
- `tests/` runs the library.

What waits for the outside world is a step in the library: a step says what to
find out, and answering it gives the next one. `app/` asks and answers.

A path is bytes and the syntax, of Unix or of Windows, that they are written in.

```sh
compare-svg path/to/first.svg path/to/second.svg
compare-svg -C /path/to/repository path/to/image.svg
compare-svg serve --timeout 300 path/to/image.svg
```

On the page, the arrow keys, `j` and `k` change the file on view, and Enter
squashes it into the first commit that `but status` shows and moves on.
