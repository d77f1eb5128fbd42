# squirrel

A fair waiting list in front of a convention's ticket registration.

- `src/` — the verified library: the portal's events and who receives them
  (`event`), the registration website's stock of tickets (`fake_reg`), the
  pre-registration list and the waiting list built from it (`waiting_list`),
  the registration that depiles the waiting list while tickets are left, with
  its laws (`registration`), and the portal's settings (`portal`).
- `app/` — the HTTP servers (Rocket), the polling and broadcasting tasks
  (Tokio, reqwest) and the JSON shapes (serde) around the library.
- `tests/` — tests of the library on concrete values.
