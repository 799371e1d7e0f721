# sbc_core

The decision core of a SIP session border controller, written and verified in
Verus. Every rule that the controller follows is a function with a contract in
`src/`; sockets, clocks, tasks and the store are around it, in `app/`.

- Messages: `message`, `headers`, `raw_message`, `sip_builder`, `renewal`,
  `responses`, `sdp`, with `sip_laws`, `dialog_laws`, `renewal_laws` and
  `response_laws` for what holds of the messages that are written.
- Transactions: `invite_tx` for the INVITEs that come in, `client_tx` for the
  requests that go out.
- Calls: `engine` takes bytes to a handler; `invite_flow`, `invite_handler`,
  `response_handler`, `call_handler`, `leg_requests` and `register` decide;
  `cdr` keeps the calls and writes their records; `trunk_state` counts the
  calls on each trunk and tells what their finals do to its health.
- Access: `identity`, and under `security` bans, destinations and user limits.
- Configuration: `config`, `runtime_config`, `hydrate`, `import`, `ban_store`,
  `backup`.

`app/` has the event loop, a UDP socket and a store in memory. The registrar,
the authenticator, the legs of the calls, media and trunk routing are parts of
the deployment, plugged in behind the trait `Backend`; so are the access list
and the rate limiter, behind `Gate`.

Times are plain numbers that the caller reads from its clocks. Laws that span
several functions are the public proof functions whose names begin with `law_`.
