# giggletech_router

The decision logic of the GiggleTech OSC router, verified with Verus.

The router listens for avatar parameters sent over OSC and drives
GiggleTech devices; a Twitch integration can take over the first device
for a while.

- `src/` is the verified library: reading `config.ini` (`config`), text
  handling (`text`), device kinds (`device_uri`), the table of device
  sockets (`device_table`, `device_socket`), what a device socket does on
  each event (`device_actor`), how an OSC message is answered
  (`osc_actor`, `router`), the message queue with Twitch runs (`queue`) and
  the Twitch server's URL (`twitch`).
- `app/` is the program around it: files, sockets, tasks, timers, the
  websocket client and the floating-point scaling of signals. By default
  it runs the OSC program (`Config::from_values`, `handle_osc_message`);
  with the argument `router` it runs the router with the Twitch
  integration (`Config::load_config`, `route_parameter`, the queue).
- `tests/` runs the library on concrete values.
