# neurons_agent

A log-collecting agent. `src/` is the verified library: substring search and
line splitting (`utils::common`), byte decoding (`utils::string`), the JSON text
of the agent's messages (`utils::json`, `protocol`), MD5 hex digests
(`utils::hash`), configuration lookup (`utils::conf`), per-label line counters and
their reports (`collecter`), the receiver's command decisions and channels
(`receiver`), and what the agent stores at start (`agent`). `app/` is the program
around it: files, processes, Redis, HTTP, the message queue, threads and timers.

Two string-keyed hash maps of the program are lists of (name, value) pairs in
the library, with the invariant that no name occurs twice (`utils::assoc` gives
the map such a list stands for): the per-label counters (`CountTable`, for a
`HashMap<String, u64>`) and the receiver's named channels (for a
`HashMap<String, Sender<String>>`). Verus proves little of a std `HashMap` with
`String` keys; the lists keep the map's behaviour, and their order is the order
in which the names first came.

The JSON objects of the messages are written by the library in the layout of
serde's derive (fields in declaration order, no spaces); strings and numbers in
them are written by serde_json itself. Reading JSON into the agent's types is
done by serde in `app/`.
