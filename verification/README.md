# polestar

The logic of the Polestar chat client, written in Verus: each function
carries a contract that the verifier proves.

- `src/model`: messages, their contents and the status machine of a content
  (`msg`), bots (`bot`), and the channels of the command line with the
  current one (`app_store`).
- `src/widgets`: the message editor (`editor`), with the laws of its
  operations (`editor_laws`, `edit_laws`); the bot list a mention picks from
  (`bot_list`); routes opened by URL (`app`); avatar colours (`avatar`); the
  quick launcher's state and a layout choice.
- `src/service`: the chunks of a streamed chat completion (`open_ai`) and
  what one read of the stream adds to the reply (`req`), and what the
  streamed reply does to the bot's message (`reply`).
- `src/cli`: the channel that a picked line of the channel list names.
- `src/db`: where the user's database lives.
- `src/ext.rs`, `src/text.rs`: the outside calls (`uuid`, `url`, std's string
  operations) the library relies on, each with the contract it is trusted to
  meet.
- `app/`: the command-line program around the library: the REPL, the
  database, the HTTP event stream, and serializable copies of the library's
  types.
- `tests/`: tests of the library on concrete values.
