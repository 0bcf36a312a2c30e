# 10 Minute Art

A museum companion that helps a visitor stay with a single artwork. It runs on Telegram
and Discord, finds out which artwork the visitor stands in front of, talks about it, and
watches the time.

The logic is a library in Verus; the program around it does the input and output.

- `src/` is the library. Its functions state what they return and change, and Verus proves
  it, but for what other crates and the standard library do: five wrappers (reading WAVE
  files with `hound` and JSON with `serde_json`, writing Base64 with `base64`) and the
  contracts of `str::to_lowercase`, `char::is_alphanumeric` and `String::push` are
  believed. Each says at its place what is believed.
  - `session` decides the next step of a conversation; `laws` states what holds of all
    conversations as a whole.
  - `search` finds an artwork by embedding, by words, and by asking the model; `matching`
    compares texts and builds queries; `llm` words the questions to the model and reads its
    answers; `json` reads documents.
  - `replies` words the replies and their time notes; `chunks` splits long messages;
    `audio` and `wav` prepare speech; `delivery`, `telegram` and `discord` deal with what
    the chat services bring and take.
  - `text`, `score`, `clock`, `types` and `config` hold what the others share.
- `tests/` runs the library on concrete values.
- `app/` is the program: settings, SQLite, HTTP, the two chat services, and audio codecs.

A turn of a conversation starts with `session::handle_text_message`. Each step either
answers the visitor or names the outside work that is needed; the program does that work
and hands its outcome to the function for the next step.
