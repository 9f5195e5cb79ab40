# migration_pipeline

A pipeline that moves legacy code to another framework, ticket by ticket. A
blueprinter plans the tickets, an executor writes modern code for each of them,
a verifier runs old and new code on the same fixtures, and a surgeon repairs
what does not match, at most three times per ticket.

`src/` holds everything that the pipeline decides or computes, verified with
Verus. `app/` performs the input and output around it.

| Module | Contents |
| --- | --- |
| `text`, `search`, `compose`, `order`, `json`, `failure` | strings, values and errors |
| `config` | task routes, requests to models, structured answers and their schemas |
| `skills` | reading and writing files, syntax trees, sandboxes, shadow tests |
| `agents` | tickets, prompts, and what each agent makes of an answer |
| `pipeline` | the loop of a ticket, and the state of all tickets |
| `utils` | paths and the stored state |
| `prompts`, `cli` | templates and settings |

`SURGEON_DEFAULT_MODEL` names the model of the surgeon where `SURGEON_MODEL`
names none; one of the two has to be set. It is also recommended in the menus.

The tickets are stored in `.migration_state.json`.

The functions of `app/` report what they did as plain values. The library
answers with the next step: write this file, send this request, wait, stop.
