# claux

A terminal AI coding assistant whose logic is verified with Verus.

`src/` is the library: how requests are built and responses are read, how a turn goes from
the user's message to its end, which tools may run and who is asked first, how a conversation
is kept valid and made shorter, what a project may change in the configuration, and what can
be undone. Each function states what it does in its contract, and the laws that hold of
several functions together are proof functions whose names begin with `law_`.

`app/` is the program around it: arguments, files, processes, network, terminal and database.

`tests/` runs the library on concrete values.

## Layout

| Modules | |
| --- | --- |
| `api` | Providers: requests, event streams, errors |
| `query`, `turn_loop`, `batch`, `pairing` | A turn: its steps, its tool calls, and the pairing of calls with results |
| `compact`, `session`, `db` | Conversations: shortening, repairing, storing |
| `permissions`, `trust`, `sandbox`, `command_sandbox` | What may be done |
| `config`, `defaults`, `onboarding`, `profile_laws`, `doctor`, `model`, `model_catalog`, `cost` | Configuration, models and prices |
| `commands`, `repl`, `repl_loop`, `cli`, `args`, `startup`, `shutdown`, `output`, `theme` | Interfaces |
| `context`, `plugin`, `image_input`, `checkpoint`, `auth`, `tokenizer_fingerprint` | Prompts, hooks, images, undo, credentials, tokenizers |
| `json`, `document`, `text`, `paths`, `order`, `table`, `path_map`, `diff` | Foundations |

## Names that a distribution settles

The usual model, the one that OpenRouter is asked for, the file of instructions and its
directory carry a vendor's name. The library and the program hold none of these four names:
the library takes them as arguments, and a distribution supplies them in a file. The program
reads `defaults.toml` from the directory of its configuration, from beside its executable, or
from `/usr/share/claux`. Where there is none, the user names the model, and no
instructions are looked for. The file holds:

- `model`: the model that Anthropic is asked for where the user asks for no other
- `routed_model`: the model that OpenRouter is asked for
- `instruction_file`: the file with the instructions of a project or the user
- `instruction_dir`: a directory that may hold that file; in the home directory it also holds
  the credentials of a login with Anthropic
