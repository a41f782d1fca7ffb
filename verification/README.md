# cosmic-session

The session leader of the COSMIC desktop: it launches the compositor, waits for its environment,
starts the components of the desktop on sockets of their own, and ends or restarts the session.

- `src/` is a Verus library. It decides what a session does, step by step, and computes the values
  that go in and out: environments, command lines, socket messages, restarts. Every function is
  proved against its contract; properties of the whole are the proof functions named `law_*`.
- `app/` is the program around it: processes, sockets, D-Bus, signals and the log.
- `tests/` run the library on concrete values.

| module | what it decides |
| --- | --- |
| `session` | the order of a session's steps, its end, and what follows it |
| `comp` | the compositor's socket protocol and what its exit means |
| `component` | how a component is launched and what it gets anew before a restart |
| `notifications` | how the notification daemon and the panel restart together |
| `autostart` | which programs are started with the session, and with what arguments |
| `systemd` | the service manager's environment, target and scopes |
| `a11y` | when the screen reader is started and stopped |
| `process`, `generic`, `panel`, `service` | child processes and requests to the session |
| `env`, `text` | lists of variables, and text |
