# Honor

A League of Legends matchmaking client. The library (`src/`) holds the
client's data model and decisions, each function with a contract that Verus
proves:

- `lcu_api`: the records of the client's HTTP interface (friends, queues,
  lobby, summoner), the lockfile credentials, request addresses, WAMP frames
  and the routing of WAMP events.
- `lcu_api::game_queues`, `lcu_api::lol_game_queues`: the ranked, casual and
  versus-AI queue lists, stably sorted by description.
- `lcu_api::chat`, `lcu_api::lol_chat`: friend lists grouped by availability,
  and friend updates.
- `util`: connection details from the client's process list.
- `views`, `view_main`: the screens' state and how they react to events.
- `text`, `sorting`: text handling and the stable sort that the lists use.

`app/` is the program around it: the druid window, HTTP and WebSocket I/O,
and the JSON shapes of the client's answers.
