# arbitro_raft

A Raft library in verified Rust: elections with pre-vote, log replication,
joint membership changes and learners, snapshots and log compaction, linearizable
reads, leadership transfer, custom commands across the cluster, and many groups
over one transport.

`src/` holds the protocol, proved against its contracts with Verus: what each
message does, what is sent, what counts, and when a wait is over. It performs no
I/O: a node takes messages and the time as arguments, and hands back what is to be
sent and how long to wait. `app/` runs it and is not verified: the transport, the
clock, the loops that ask for the next step and carry it out, and the handles that
threads share.

- `protocol`: messages and frames, and the codec between them.
- `node`: one member of a group.
- `registry`: many groups in one process.
- `transport`: frames of many groups over one connection.
- `dispatch`: commands to the members and the tally of their answers.
- `traits`: what an application supplies, its storage and its state machine.

Each stateful type has a model. The contract of an operation relates the models
before and after it, and the `law_` functions state what holds across operations.
