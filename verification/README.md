# nexo-poller-gmail

A Gmail poller for Nexo agents: searches a mailbox, extracts fields from each
message with regular expressions, renders a text and hands it to an outbound
channel.

- `src/` is the library, verified with Verus: it decides everything and performs
  no input or output. `tick::Tick` is the state machine of one run of a job,
  `message::judge` what is done with one message, `handler::GmailHandler` which
  API client an account uses, `seen::SeenSet` the ids that a job's cursor keeps.
  `runs` states what holds of whole runs.
- `app/` is the plugin around it: the `PollerHandler` that carries out the
  library's actions with the host, the file system and the Google client. To
  build it, add `nexo-plugin-google` to the dependencies: the library does not
  need it, and it brings several hundred packages.
- `tests/` are the library's tests.
