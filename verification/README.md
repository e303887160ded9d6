# cyclonedds_rs

A Rust binding to [Cyclone DDS](https://cyclonedds.io), with a benchmark that runs on it.
What the binding decides and computes is verified with [Verus](https://github.com/verus-lang/verus);
what talks to DDS, to files and to other processes is ordinary Rust around it.

## Layout

- `src/` is the verified library.
  - `dds_qos`, `dds_listener`, `dds_domain`, `dds_participant`, `dds_reader`, `dds_writer`,
    `dds_builtin`: the entities and their settings.
  - `serdata`, `sertype`, `util`: samples and types on their way between application and network.
  - `futures`, `match_watch`: asynchronous reads, and noticing that the other side has gone.
  - `shared_registry`: entities that exist once per domain.
  - `interface_gen`: IDL and ROS message definitions of types.
  - `bench`: the cases, messages and results of the benchmark.
  - `error`, `stats`, `text`, `time`, `common`, `untyped`: what the others share.
- `app/` is the program: the C interface of DDS, threads, files, processes and JSON.
- `tests/` runs the library on concrete values.

## Using the library

Policies are collected in a `DdsQos` or described by a `Policy`:

```rust
let qos = Policy {
    history: History::KeepLast(8),
    reliability: Reliability::Reliable(100_000_000),
    durability: Durability::Volatile,
}
.to_qos()?;
```

Time spans and moments are numbers of nanoseconds. Listeners are generic in what is called: the
library keeps for each event what is to be called and in which order, and whoever holds the
listener calls it. Functions that need DDS take closures that ask it, so each of them states its
outcome for every answer.

Proof functions named `law_..` state what holds across functions: that fragments give back what
was cut, that a decoded message is the one that was encoded, that a definition is written once and
after those that it needs, that no deadline is slept over.
