# cashyyc

`cyyc` opens a shell in the dev container that a workspace's
`.devcontainer/devcontainer.json` describes, and can stop, remove and list such
containers.

- `src/` is the library, verified with Verus: the JSONC reader and writer, the
  configuration model, the `docker` and `docker compose` arguments, features
  (sources, manifests, install order, Dockerfile), lifecycle commands, the shell
  session (`shell_flow`: which container to reuse, start or create, and in what order
  the steps run; `session`: the user, shell and arguments of `docker exec`), the
  registry replies and the terminal views.
- `app/` is the program around it: argument handling, files, processes, the
  terminal, and the loop that performs each action the session asks for and hands
  back what came of it.
- `tests/` runs the library on concrete inputs.
