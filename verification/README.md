# bitpart

The decision-making core of a Signal chat-bot server, written in Verus and
proved against its contracts.

- `src/` is the verified library:
  - `metrics`: per-channel message counters and connection status;
  - `flows`, `event`, `data`: bots and flows, chat requests turned into
    interpreter events, and the choice of the bot and flow that answer;
  - `interpret`: what each report of the conversation interpreter changes in
    the conversation's state and which outside work it calls for;
  - `steps`: where the current step's source is read and the hash that
    identifies it;
  - `signal`: reading interpreter replies, describing attachments,
    recipients, disappearing-message timers and incoming message texts;
  - `messages`: the management websocket's framing decisions;
  - `store`, `protocol`: the Signal store's row iterators, message ranges,
    thread ids, key ids, identity trust and Kyber pre-key use;
  - `json`, `text`, `error`: shared value types and helpers.
- `tests/` exercises the library on concrete values.
- `app/` is a small command-line front end: it reads a chat request as JSON,
  turns it into an event with the library, and prints it. `app/run.rs` holds
  the loops that drive the library's decisions (a step run, a channel's
  receiving loop, a socket session), with the outside work passed in.

The database, the Signal protocol client, the websocket server and the CSML
interpreter itself are outside the library: it takes what they read and
tells the caller what to write or send.
