# HyperCompute

A small compute cluster. A server keeps a queue of tasks, hands them to worker
nodes by score, and remembers the results; workers run shell commands, HTTP
requests, custom handlers and the ranks of MPI jobs; a client submits tasks and
shows what has become of them.

The logic of all three is a library whose behaviour is stated in contracts and
proved by Verus. What talks to the outside world stands around it.

## Layout

`src/` is the library.

| Module | What it holds |
|--------|---------------|
| `task`, `node`, `output`, `message`, `api` | the data that travels between client, server and workers |
| `string_map`, `registry`, `seqs`, `text`, `ident`, `clock` | maps, sequences, text, identifiers and time |
| `cluster` | the state of the server as a mathematical value, and how it changes |
| `state` | the state of the server, proved to change in that way |
| `job` | the answers of the ranks of an MPI job |
| `session` | what a message of a worker does to the server |
| `monitor` | the search for lost nodes and stuck tasks |
| `choice`, `scheduler` | the choice of nodes, and the rounds that hand tasks out |
| `rest` | what the REST interface does |
| `executor`, `worker` | how a worker carries out tasks, accepts work and reconnects |
| `submitter`, `show` | what a client submits and shows |
| `laws`, `round` | what holds of the server as a whole, and of a whole round through the queue |

`app/` holds the programs `hc-server` and `hc`: command lines, sockets, processes,
JSON, and the floating-point score of a node. `tests/` runs the library.

## What is proved

Every operation of the server has a contract that ties the whole state
afterwards, the channels to the nodes among it, to the state before. Among the
statements about the whole are these: the queue is always in the order of
priority and submission; a task is retried as often as the server allows and then
fails for good; a task goes to an eligible node with the highest score; an MPI job
starts on all of its nodes or on none, and only on nodes with the slots that it
asks for; a node that was not heard of for longer than the node timeout is
offline after a round of the monitor, and nothing stays under way on it; a task
that has been under way for longer than the task timeout waits again; a draining
node gets no new task; a round through the queue ends, loses and doubles no task,
and leaves one in the queue only where too few nodes suit it or a message was not
delivered.

Clock readings, random identifiers and the fate of messages are left open: the
functions that use them have counterparts that take these values as arguments.
