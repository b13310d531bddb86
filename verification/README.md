# drt

The Diluvium RunTime: the parts of it that decide, as a verified library, and
a thin binary around them.

- `src/` is the library. It takes what was read (files as trees, answers as
  bytes, clocks as numbers) and gives back what is to be done, and every
  function of it states what that is. Requests and replies of the listener are
  in `listen` and `polled`, the drive loops in `drive` and `start`, a root and
  its consent in `drt_root`, `consent_gate` and `boot`, deployment in `deploy`
  and `modules`, the grant desk in `gsr` and `key`, and the network in `relay`,
  `tunnel`, `reflect`, `netcheck`, `roots`, `userspace`, `stun`, `turn` and
  `webrtc`. Each module ends with the laws that hold across its functions.
- `app/` is the binary: the command line, files, sockets and clocks.
- `tests/` runs the library on concrete values.
