# chat_with_rust

A terminal chat client over TCP. `src/` is the verified library (Verus): command
decoding (`command`), the screen and input-line state (`printer`), the screen layout
(`screen`), log lines cut to the terminal width (`log_fmt`), key handling (`terminal`),
the connection and chat tables (`conn`, `chat`, `table`), messages and their framing
(`message`, `frame`), and the command history (`history`). `app/` is the program: it
reads keys with crossterm, talks TCP with tokio, encodes messages with serde, and hands
the library plain values.

Commands: `conn <addr>`, `disconn <addr>`, `connsta` (`sta!`), `msgbox <addr> <words>`
(`msg!`), `chatwith <addr>` (`cw!`), `chatmsg <words>` (`chat!`).
