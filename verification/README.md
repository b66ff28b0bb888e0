# sandbox-shell-mcp

An MCP server that runs interactive commands in pseudo-terminals and offers them to a client as
tools: start a command, write to it, read what it printed, close it. Newlines are not added to what
is written. Output reaches the client without control sequences and carriage returns, also where a
sequence is cut in two by a read.

The rules of the server are a library, written in Verus and proved:

| Module | What it decides |
|---|---|
| `ansi`, `stream` | what a client sees of a command's output |
| `ansi_laws` | what holds of the visible text of every output |
| `text` | decoding of bytes, joining of texts |
| `buffer` | collecting output and handing it over |
| `ident` | session identifiers |
| `params`, `command` | the terminal's size, the command and its environment |
| `spawn` | the steps that bring a session up, and how their failure is reported |
| `sessions` | the table of open sessions |
| `service` | the tools, between one wait and the next |
| `service_laws` | what holds of the tools taken together |

What rests on trust is marked `external_body` or `assume_specification`: lossy UTF-8 decoding, pushing
a character on a string, reading the clock, and `portable_pty::CommandBuilder`.

`app/` holds what talks to the outside: the terminals, the reader threads, the protocol.
