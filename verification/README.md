# minimax-proxy

A proxy that serves the OpenAI API from two upstreams: requests for OpenAI models are passed on,
and requests for MiniMax models are translated to chat completions and back. A client talks to one
endpoint, whichever model answers.

| Method | Path | What it does |
|--------|------|--------------|
| `GET`  | `/health` | liveness and configured providers |
| `GET`  | `/v1/models` | the model catalog |
| `POST` | `/v1/responses` | the Responses API, on MiniMax or OpenAI |
| `POST` | `/v1/chat/completions` | the Chat Completions API, on MiniMax or OpenAI |
| `GET`, `POST` | `/cop` | fetches a page |

## Layout

`src/` is the library: everything the proxy decides, with contracts that Verus proves.

| Module | Contents |
|--------|----------|
| `json`, `json_ops`, `number`, `wire` | JSON values, their mathematical view, and `serde_json` |
| `text`, `pattern`, `util` | texts, the two regular expressions, identifiers, the clock |
| `config` | the configuration, and which provider serves a model |
| `request` | Responses requests to chat requests |
| `messages`, `message_laws`, `order_laws`, `chat`, `chat_laws` | the order and the form of a conversation |
| `response`, `response_laws` | chat completions to responses |
| `events`, `flow`, `stream`, `stream_laws`, `replay`, `capture`, `capture_laws` | streamed responses |
| `store`, `store_laws` | past responses, and the conversations they make |
| `fetch_calls`, `web_fetch`, `fetch_loop` | the `web_fetch` tool and its loop |
| `handlers`, `handler_laws`, `conversation_laws` | what happens to a request before and after it goes upstream |

`app/` is the server around it: routes, the HTTP client, the environment and the log. `tests/`
runs the library.

What is left to chance and to the clock comes into the library through a few functions (`uid`,
`now_unix`, the clock of the store). Each function that uses one of them stands beside a function
that takes the drawn values as arguments, and whose contract says exactly what becomes of them.

## Settings

| Variable | Default |
|----------|---------|
| `MINIMAX_API_KEY`, `OPENAI_API_KEY` | one of them is needed |
| `MINIMAX_BASE_URL` | `https://api.minimax.io/v1` |
| `MINIMAX_MODELS` | `MiniMax-M2.7` |
| `OPENAI_BASE_URL` | `https://api.openai.com/v1` |
| `OPENAI_MODEL_PREFIXES` | `gpt-,o1,o3,o4,codex-,chatgpt-` |
| `DEFAULT_PROVIDER` | OpenAI where it is enabled, else MiniMax |
| `PROXY_PORT` | `4000` |
| `GITHUB_TOKEN` | what `gh auth token` prints |
