# Pocket ROM Sync

A plugin that synchronises a local ROM library with the SD card of an Analogue Pocket: it reads
which file extensions the cores on the card take, lets the user select platforms, copies the files
that the card lacks, asks about files that look like other versions, and offers to remove files
that the library lacks.

`src/` is the library, verified with Verus. It does no input or output itself: each answer of the
user gives a turn, which lists effects and then either replies or asks for something to be read,
copied or deleted; the outcome goes into the next turn.

| module     | what it holds                                                         |
|------------|-----------------------------------------------------------------------|
| `types`    | messages, settings, files, plans and the stored state, with models    |
| `text`     | what string operations return                                         |
| `version`  | the name of a game without its version                                |
| `strmap`   | a map with texts as keys                                              |
| `json`     | JSON documents, through `serde_json`                                  |
| `cores`    | which extensions the cores take, and in which folders                 |
| `library`  | the walk through the local library, and the folders of the card       |
| `plan`     | what is copied, asked about and offered for removal                   |
| `screens`  | the questions and texts that the user sees                            |
| `protocol` | turns, and which turn follows on what                                 |
| `session`  | the turns, carried out                                                |
| `laws`     | what holds of the library as a whole                                  |

`app/` is the Extism plugin around it: files, stored variables and the host.
