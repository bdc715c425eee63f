# NoULL' PM

The logic of a terminal package manager for pacman and the AUR, verified with
Verus.

- `src/` is the library. It reads what pacman, yay and the AUR print, works out
  what a deletion would remove and the commands that carry it out, reads theme
  configs, moves the application from state to state, and works out what is on
  the screen. Nothing in it reads or writes anything.
- `app/` is the program: processes, files, threads, the terminal and its events.
- `tests/` runs the library on concrete inputs.

What every key and reply does to the application is stated in `src/model.rs`,
together with what holds of all its states. Theorems are the public proof
functions whose names begin with `law_`: that nothing is removed unconfirmed,
that the confirmation shows everything a mega delete would touch, that a refused
plan does nothing, that late replies are dropped, that results are ranked and
none is lost, and more.

What is taken on trust is marked `external_body` or `assume_specification`, with
what is claimed in the comment above it: a few functions of std on characters,
strings and paths, and of ratatui the division of an area and the inside of a
border.
