# serf-proto

The logic of a serf cluster node, as a machine without any I/O: membership with
join and leave intents, user events, queries with responses, acknowledgements and
relays, push-pull exchanges, key management, and the vote on a disputed node id.
What the machine does is stated in contracts and proved with Verus.

The machine is told what happened (`Endpoint::on_inner_event`, the commands, the
timers), and asks for what is to be done through a queue of actions
(`Endpoint::poll_action`) and a queue of events for the application
(`Endpoint::poll_event`). Messages reach it decoded; frames are encoded by its driver.

- `src/` is the machine. `endpoint::Machine` is its mathematical model; every method
  of `endpoint::Endpoint` says what it does to it. What holds of the machine as a
  whole is in `endpoint::laws`, `endpoint::bounds` (what is remembered stays within
  bounds), `endpoint::progress` (clocks and state only go forward) and
  `endpoint::roster` (the lists of departed members agree with the members).
- `app/` is a driver: it owns the membership layer and the codec, performs the
  actions, and holds the network coordinates, which are floating-point numbers.
- `tests/` runs the machine, alone and under a small driver.

What is believed of other crates stands in `id` (numbers on the wire), `octets`
(shared buffers), `entropy` (random draws) and `pattern` (regular expressions).
