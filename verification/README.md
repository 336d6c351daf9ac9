# rmw_zenoh_mcap_writer

A recorder that subscribes to ROS 2 topics carried by `rmw_zenoh` and writes
their messages into rosbag-compatible MCAP files, controlled by Zenoh queries
on `@mcap/writer/{start,stop,status}`.

The decisions of the recorder are a Verus-verified library (`src/`):

- `ros_names`: ROS type names from DDS type names, and the
  `Domain/Topic/Rostype/Hash` key expressions of topic data;
- `keyexprs`: the liveliness tokens of the ROS 2 graph, the topic-data and
  command key expressions (zenoh decides which strings are key expressions,
  which includes which, and their canonical form);
- `qos`, `duration`, `numparse`: the QoS profile carried in a token;
- `monitor`: the publishers announced in the graph;
- `recorder`: the recorder's state, its answers to commands and the names
  of the files it records into;
- `task`: which subscriptions, schemas and channels a running recording
  asks for, and how it writes messages;
- `bag`, `registry`, `config`: rosbag2 metadata, entity ids, type-registry
  queries and the Zenoh configuration asked for by the command line (zenoh
  decides which strings are endpoints);
- `text`: character-level helpers.

`app/` is the program around it: the Zenoh session, the liveliness
subscriber, the recording tasks, the MCAP writer and the serialization of
the library's documents.
