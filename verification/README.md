# sting

The decision logic of `sting`, a small assistant that turns a request in plain
English into a command on the device, verified with Verus.

A request goes to a small model together with the schemas of the tools at hand.
The model answers with a tool call in JSON, and the call becomes a command line.
Everything that is decided on the way is in this library, with contracts; the
tensors of the model, files, processes and the terminal are in `app/`.

| module | what it holds |
|---|---|
| `vocab`, `tokenizer`, `spec_file` | the vocabulary, encoding and decoding, reading a vocabulary |
| `roundtrip` | what decoding gives back of what was encoded |
| `trie`, `machine`, `constrain` | the words that may be written, where the output is, which tokens are let through |
| `following` | how the output is followed from name to arguments |
| `generate` | the encoder input and the decoding loop |
| `snake`, `tools`, `catalog` | tool names, configuration, schemas, calls, and how they fit together |
| `dispatch`, `report` | command lines, confirmation, outcomes, what is shown |
| `retrieval`, `ranking` | the cache of embeddings and the shortlist of tools |
| `model` | dimensions, names of tensors, the causal mask |
| `cli`, `parity` | the command line, the interactive mode, checking the tokenizer |
| `json`, `text`, `single`, `error` | documents, characters, single-precision patterns, errors |

Single-precision numbers appear as their 32-bit patterns, which the library only
compares.
