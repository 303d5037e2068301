# lsl

A manager for guest Linux distributions that run in kernel namespaces: it imports
them, boots them, connects them to the network, runs commands in them and stops
them again.

`src/` is the library, verified with Verus. It decides everything and touches
nothing: each operation is a *task*, which names the next action on the host, is
told what came of it, and goes on from there. Where an action is an operation of the
library itself, its task is run first and its caller is told the result.

- `action`: what a task asks of the host and what the host answers
- `task`: steps, stages and tasks, and what holds of all of them
- `calls`: operations that call one another, and how errors pass between them
- `ending`: how deep operations call one another, and that everything ends
- `world`: a model of the host, and what whole runs leave behind on it
- `text`, `encoding`, `path`: texts, their bytes, and paths
- `output`: what lines of output look like
- `config`: the registry of distributions
- `accounts`: users on the host and in the account files of a guest
- `distro`: installing, importing and removing a distribution
- `network`: the three ways to connect a guest
- `boot`, `runtime`: booting, finding, stopping and reaching a guest
- `layers`: what may be written to a guest's file system
- `interview`, `provision`: setting a guest up when it is first entered
- `session`: running a command or a login shell
- `listing`, `terminal`, `cli`: the program's commands

Each module states what it does in contracts over mathematical models of its types;
the functions whose names begin with `law_` state what holds across functions.

`app/` is the program around the library: it reads the command line, carries out the
actions and keeps the configuration file. `tests/` run the library against hosts made
up for the purpose.
