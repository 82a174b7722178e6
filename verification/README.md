# webbrowser_plugin

A web browser for a keyboard-first reader: pages come out of a real Chrome that
stays off the screen, and are read as a tree of strings and objects.

The library in `src/` decides. It starts no program, opens no file and draws
nothing: what the outside world says goes in as a plain value, and what is to be
done comes out as one. Every function of it is proved against its contract.

- `provider`: the reader itself, as a state with one function per event.
- `history`: the recall history and its bookmarks, in memory and as a file.
- `page`, `languages`, `tree`: a page as a tree, with its notices and the
  languages it is declared in.
- `gate`, `consent`: a cookie choice as a page of its own.
- `forms`, `table`: form controls, what was typed, and the scripts that fill them.
- `worker`, `settle`: the browser task, and when a page has come to rest.
- `protocol`, `cdp`, `json`: Chrome over a pipe.
- `launch`: finding a browser and starting it out of sight.
- `address`, `localize`, `scripts`, `text`: addresses, messages, the scripts that
  run in a page, and texts.
- `outside`: every call into another crate, with what is believed of it.

The public proof functions named `law_..` state what holds of several functions
together. `tests/` runs the library on concrete values.

`app/` is the ordinary Rust around it: Chrome, files, threads and the
application.
