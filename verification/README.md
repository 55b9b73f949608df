# voxygen

The chat commands of a game client and the message channel between two sides of a
connection, written and proved in Verus.

- `command`, `server`: the commands of the client and of the server, their arguments, names
  and roles.
- `client`, `state`, `target`: what the client knows, what its commands change, and the
  entities that can be named by a keyword behind `@`.
- `preprocess`: prepares the arguments of a command before it runs.
- `handlers`, `run`: run the commands of the client, turn those of the server into requests,
  and answer a name that no command has.
- `word`, `complete`: the completion of what is being typed.
- `metrics`, `mpsc`: the two ends of a channel and their counters.
- `text`, `number`: strings and decimal numbers.
- `foreign`: the functions that are called and not proved here, with what is claimed of them.

A function named `law_..` states a property that relates several functions. `app/` holds the
asynchronous traits of the channel and the ties to the running session.
