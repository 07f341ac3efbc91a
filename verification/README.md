# compaction

Long conversations outgrow the context window of the model that reads them. This library decides
when a conversation has to be compacted, what of it goes to a summarizer, what is kept, and what
the conversation looks like afterwards. It is written in Verus: every function states what it
returns over a model of its arguments, and the laws that hold across functions are proved beside
them.

| module | what it holds |
| --- | --- |
| `text` | searching, trimming and rendering text |
| `message`, `run` | messages and runs, and what they hold as mathematical values |
| `projection` | what a provider sees of stored messages |
| `tokens` | the estimate of tokens |
| `budget` | the budget of a context window, and the checks against it |
| `history` | the history that the summarizer is given |
| `file_window` | messages that carry files, and what is left of them |
| `plan` | which messages are summarized and which are kept |
| `summary` | the summary, the conversation after it, and the summary of last resort |
| `json` | messages as JSON, written by `serde_json` |

The only functions whose contracts are taken on trust are the calls into `serde_json` at the top
of `json`.
