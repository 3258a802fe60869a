# pipecrab_adapters

The decisions of a voice pipeline's adapters, written in Verus: language models (an
OpenAI-compatible host, a ZeroClaw daemon, llama.cpp, a browser pipeline), task dispatch
(Hermes runs, ZeroClaw webhooks) and audio output (native, browser).

- `src/` is the library. What each adapter reads, decides and answers is a verified function
  or state machine over plain values; its laws are public proof functions beside it.
  - `openai`, `zeroclaw_lm`, `llamacpp`, `web_lm`: language models
  - `hermes`, `zeroclaw`: task dispatch
  - `audio`: audio output
  - `lm`, `dispatch`, `registry`, `json`, `records`, `http`, `ids`, `text`: what they share
- `app/` performs the I/O: sockets, HTTP, threads, inference, devices.
- `tests/` runs the library on concrete values.

Calls into other crates stand behind small trusted functions in `text`, `json`, `http`, `ids`
and `zeroclaw_lm::source`; the comment above each says what is believed of it.
