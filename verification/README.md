# Dockyard

A window on the containers of one machine: which there are, how they are doing, their
logs, and starting, stopping, restarting and removing them. Docker and Podman both work,
one at a time.

- `src/` decides. It reads the daemon's replies, finds out where to connect, and holds the
  state of the window: every message gives a new state and a list of effects. Verus proves
  what the contracts say, and what holds across messages: that the rows on screen follow the
  state, that there is never a second timer or stream, that nothing is removed without a
  yes, that it makes no difference how the daemon cuts its logs into chunks.
- `app/` does. It talks to the daemon through bollard and to the screen through relm4, and
  carries out the effects.
- `tests/` run the library on concrete values.

What the proofs rest on besides Verus itself are four functions of the standard library,
whose contracts stand at the top of `src/text.rs`.
