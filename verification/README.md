# socd

The kernel logic of SOC-D, a small hobby operating system with a peer-to-peer
file layer, as a library verified with Verus, with a hosted program around it.

- `src/` holds the verified library: the in-memory file system and its
  snapshots, the scheduler and process table, the serial shell's line editor,
  the ELF module loader, the DAG of file versions with its signatures and
  trust chain, gossip, peer and mDNS discovery, the network frames
  (Ethernet, ARP, IPv4, UDP, TCP, with their checksums), the session cipher
  around the outside hash and signature crates, the resource monitor, the
  dashboard's drawing steps and the console's command parsing. Each public
  function states what it returns in its contract; the laws that relate
  several functions (round trips, convergence of the DAG, checksums that
  verify) are public proof functions next to them.
- `tests/` runs the library on concrete values.
- `app/` is the program: it boots the subsystems, draws the dashboard, runs the
  serial shell on standard input and prints what the commands report. The
  parts that need floating point (the prediction models and the cognitive
  engine's confidences) live there too.
