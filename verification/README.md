# handy

Verified core of Handy's transcript post-processing backends, written in
Verus.

- `src/` is the verified library:
  - `text`: character-level models of `str::trim`, `str::lines`,
    `u64::from_str`, decimal formatting and ASCII case folding;
  - `json`: a plain model of JSON values, filled by serde_json;
  - `jwt`: claims read from the payload segment of a JWT;
  - `codex`: ChatGPT-account token bookkeeping, request headers, the token
    exchange and refresh forms, and the refresh decisions;
  - `device`: device-code sign-in (its request and poll bodies), the
    registry of waiting logins (with fresh session ids) and the polling
    deadline;
  - `keychain`: how keychain status codes are handled;
  - `postprocess`: model list, model choice, instructions, the Responses
    request body and the decoding of the streamed response;
  - `local_llm` and `helper`: the local GGUF model directory, the helper
    process's answer and the helper's generation parameters;
  - `model_commands`: the decisions of the transcription-model commands
    (switching the active model, preparing one for a dictation) and the
    selection changes they make;
  - `unsupported`: the account backend where it is not offered.
- `app/` holds the I/O around it: HTTP requests, the macOS keychain, the
  helper process and the llama.cpp calls of the helper binary.
- `tests/` exercises the library on concrete values.
